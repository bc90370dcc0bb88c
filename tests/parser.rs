use mindbend::ast::{
    AnyExpression, CellExpression, DrillExpression, Expression, ExprType, JumpExpression,
    LabelExpression, LeachExpression, OrganismExpression, Passive, PrimitiveExpression,
    PrimitiveValue, Region, RegionExpression,
};
use mindbend::errors;
use mindbend::lexer::{tokenize, Token};
use mindbend::parser::Parser;

fn p_ident(s: &str) -> Token {
    Token::PrimitiveIdent(String::from(s))
}

fn c_ident(s: &str) -> Token {
    Token::CellIdent(String::from(s))
}

fn r_ident(s: &str) -> Token {
    Token::RegionIdent(String::from(s))
}

fn org(child: AnyExpression, right: Option<OrganismExpression>) -> Option<OrganismExpression> {
    Some(OrganismExpression { child, right: right.map(Box::new) })
}

fn region(to: Region) -> AnyExpression {
    AnyExpression::Region(RegionExpression { to })
}

fn drill() -> AnyExpression {
    AnyExpression::Drill(DrillExpression::new())
}

fn cell_link(ident: u8) -> LeachExpression {
    LeachExpression {
        left: Passive::Cell(CellExpression { ident }),
        right: None,
        is_chain: false,
        region_change: None,
    }
}

fn store(pval: PrimitiveValue, target: u8) -> AnyExpression {
    AnyExpression::Leach(LeachExpression {
        left: Passive::Primitive(PrimitiveExpression { pval }),
        right: Some(Box::new(cell_link(target))),
        is_chain: false,
        region_change: Some(vec![RegionExpression::new(Region::Cells)]),
    })
}

fn cell_leach(from: u8, to: u8, is_chain: bool) -> AnyExpression {
    AnyExpression::Leach(LeachExpression {
        left: Passive::Cell(CellExpression { ident: from }),
        right: Some(Box::new(cell_link(to))),
        is_chain,
        region_change: None,
    })
}

fn parse_source(source: &str) -> Result<(OrganismExpression, Vec<String>), String> {
    let tokens = tokenize(source)?;
    Parser::new(tokens).parse()
}

#[test]
fn parser_test_valid1() {
    let tokens = vec![
        r_ident("L"), Token::Drill, Token::Drill, Token::Drill, p_ident("`"),
        r_ident("C"), Token::Tilde, c_ident("0"), r_ident("L"), p_ident("><"),
        r_ident("C"), Token::Tilde, c_ident("1"), c_ident("0"), Token::Tilde, c_ident("1"),
    ];
    let result = Parser::new(tokens).parse();
    let expected_result = org(region(Region::Layers), org(drill(), org(drill(), org(drill(),
        org(store(PrimitiveValue::Six, 0), org(region(Region::Layers),
        org(store(PrimitiveValue::Output, 1), org(cell_leach(0, 1, false), None))))))))
        .unwrap();
    assert!(result.is_ok());
    let result = result.unwrap().0;
    assert_eq!(result, expected_result);
}

#[test]
fn parser_test_valid2() {
    let tokens = vec![
        r_ident("L"), Token::Drill, Token::Drill, Token::Drill, p_ident("<>"), r_ident("C"),
        Token::Tilde, c_ident("0"), c_ident("0"), Token::Tilde, c_ident("1"), Token::TripleSixEqM,
        r_ident("L"), p_ident("><"), r_ident("C"), Token::Tilde, c_ident("2"), c_ident("2"),
        Token::Tilde, c_ident("1"), Token::TripleSixEqM,
    ];
    let result = Parser::new(tokens).parse();
    let expected_result = org(region(Region::Layers), org(drill(), org(drill(), org(drill(),
        org(store(PrimitiveValue::Input, 0), org(cell_leach(0, 1, true),
        org(region(Region::Layers), org(store(PrimitiveValue::Output, 2),
        org(cell_leach(2, 1, true), None)))))))))
        .unwrap();
    assert!(result.is_ok());
    let result = result.unwrap().0;
    assert_eq!(result, expected_result);
}

#[test]
fn jump_without_label_fails() {
    let result = parse_source("jmp:nowhere:^^^^^^666^^^^^^=O");
    assert_eq!(
        result.err(),
        Some(String::from("Attempt to jump to non existent label at the nth token, where n is around 1"))
    );
    let result = parse_source("label:here:ijmp:there:^^^^^^666^^^^^^=O");
    assert_eq!(result.err(), Some(errors::err_attempt_to_jump_to_non_existent_label(2)));
}

#[test]
fn labels_are_unique_and_resolve_jumps() {
    let result = parse_source("label:a:label:a:^^^^^^666^^^^^^=O");
    assert_eq!(result.err(), Some(errors::err_duplicate_label(1, 2)));
    let (program, labels) = parse_source("jmp:b:label:a:label:b:ijmp:a:^^^^^^666^^^^^^=O").unwrap();
    assert_eq!(labels, vec![String::from("a"), String::from("b")]);
    let expected = org(AnyExpression::Jump(JumpExpression::new(String::from("b"))),
        org(AnyExpression::Label(LabelExpression::new(String::from("a"))),
        org(AnyExpression::Label(LabelExpression::new(String::from("b"))),
        org(AnyExpression::Jump(JumpExpression::new_conditional(String::from("a"))), None))))
        .unwrap();
    assert_eq!(program, expected);
}

#[test]
fn repeated_cell_in_leach_fails() {
    let result = parse_source("0~1~0^^^^^^666^^^^^^=M^^^^^^666^^^^^^=O");
    assert_eq!(
        result.err(),
        Some(String::from("Attempt to leach expression onto itself at the nth token, where n is around 5"))
    );
    assert_eq!(parse_source("3~3^^^^^^666^^^^^^=O").err(), Some(errors::err_attempt_to_leach_expr_onto_itself(3)));
}

#[test]
fn drill_in_cells_fails() {
    let result = parse_source(r"\\|//^^^^^^666^^^^^^=O");
    assert_eq!(
        result.err(),
        Some(String::from("Attempt to drill in the Cells Region at the nth token, where n is around 1"))
    );
}

#[test]
fn chain_without_massacre_fails() {
    let result = parse_source("0~1~2^^^^^^666^^^^^^=O");
    assert_eq!(result.err(), Some(errors::err_chained_leach_expression_must_end_in_massacre(5)));
}

#[test]
fn long_chain_nests_to_the_right() {
    let (program, _) = parse_source("0~1~2~3^^^^^^666^^^^^^=M^^^^^^666^^^^^^=O").unwrap();
    let expected = LeachExpression {
        left: Passive::Cell(CellExpression { ident: 0 }),
        right: Some(Box::new(LeachExpression {
            left: Passive::Cell(CellExpression { ident: 1 }),
            right: Some(Box::new(LeachExpression {
                left: Passive::Cell(CellExpression { ident: 2 }),
                right: Some(Box::new(cell_link(3))),
                is_chain: false,
                region_change: None,
            })),
            is_chain: false,
            region_change: None,
        })),
        is_chain: true,
        region_change: None,
    };
    assert_eq!(program.child, AnyExpression::Leach(expected));
}

#[test]
fn top_level_errors() {
    assert_eq!(parse_source("~0^^^^^^666^^^^^^=O").err(), Some(errors::err_leach_expression_must_start_with_primitive_or_cell(1)));
    assert_eq!(parse_source("^^^^^^666^^^^^^=M^^^^^^666^^^^^^=O").err(), Some(errors::err_chain_leach_expression_ending_without_chain_leach_expression(1)));
    assert_eq!(parse_source("^^^^^^666^^^^^^=^^^^^^666^^^^^^=O").err(), Some(errors::err_triple_six_eq_not_expected_here(1)));
    assert_eq!(parse_source("^^^^^^666^^^^^^^^^^^^666^^^^^^=O").err(), Some(errors::err_triple_six_not_expected_here(1)));
    assert_eq!(parse_source("$!^^^^^^666^^^^^^=O").err(), Some(errors::err_invalid_primitive_access_region(1)));
    assert_eq!(parse_source("->L$!^^^^^^666^^^^^^=O").err(), Some(errors::err_invalid_primitive_access_gates(2)));
    assert_eq!(parse_source("->L0^^^^^^666^^^^^^=O").err(), Some(errors::err_invalid_cell_access_region(2)));
    assert_eq!(parse_source("0~^^^^^^666^^^^^^=O").err(), Some(errors::err_expected_cell_expression_after(2)));
    assert_eq!(parse_source("0~->C^^^^^^666^^^^^^=O").err(), Some(errors::err_expected_cell_expression(3)));
}

#[test]
fn lone_primitive_gives_back_its_regions() {
    let (program, _) = parse_source(r"->L\\|//\\|//\\|//$!->C0^^^^^^666^^^^^^=O").unwrap();
    let expected = org(region(Region::Layers), org(drill(), org(drill(), org(drill(),
        org(AnyExpression::Primitive(PrimitiveExpression::new(PrimitiveValue::One)),
        org(region(Region::Cells), org(AnyExpression::Cell(CellExpression { ident: 0 }), None)))))))
        .unwrap();
    assert_eq!(program, expected);
}

#[test]
fn empty_program_is_a_dummy() {
    let (program, labels) = parse_source("^^^^^^666^^^^^^=O").unwrap();
    assert_eq!(program.get_type(), ExprType::Organism);
    assert_eq!(program.child.get_type(), ExprType::Dummy);
    assert!(labels.is_empty());
}

#[test]
fn repr_is_stable() {
    let source = r"->L\\|//\\|//\\|//$`->C~0->L$><->C~10~1^^^^^^666^^^^^^=O";
    let (first, _) = parse_source(source).unwrap();
    let (second, _) = parse_source(source).unwrap();
    assert_eq!(first.get_repr(), second.get_repr());
    assert_eq!(first.get_repr(), first.get_repr());
    let leach = match &second.right.as_ref().unwrap().right.as_ref().unwrap().right.as_ref().unwrap().right.as_ref().unwrap().child {
        AnyExpression::Leach(l) => l.get_repr(),
        _ => String::new(),
    };
    assert_eq!(leach, "(left: Six, right: (left: 0, right: None, is_chain: false), is_chain: false)");
    assert_eq!(CellExpression::new(String::from("C")).ident(), 12);
    assert_eq!(RegionExpression::new(Region::Cells).get_repr(), "(to: Cells)");
}

#[test]
fn hand_made_tokens_are_checked() {
    let r = Parser::new(vec![r_ident("X")]).parse();
    assert_eq!(r.err(), Some(errors::err_unrecognized_region(1, String::from("X"))));
    let r = Parser::new(vec![c_ident("Z")]).parse();
    assert_eq!(r.err(), Some(errors::err_unrecognized_cell(1, String::from("Z"))));
    let r = Parser::new(vec![c_ident("0"), Token::Tilde, c_ident("F")]).parse();
    assert_eq!(r.err(), Some(errors::err_unrecognized_cell(3, String::from("F"))));
    let tokens = vec![r_ident("L"), Token::Drill, Token::Drill, Token::Drill, p_ident("?")];
    let r = Parser::new(tokens).parse();
    assert_eq!(r.err(), Some(errors::err_invalid_primitive(5)));
    let tokens = vec![r_ident("L"), Token::Drill, Token::Drill, Token::Drill, p_ident("!"), r_ident("Q"), Token::Tilde];
    let r = Parser::new(tokens).parse();
    assert_eq!(r.err(), Some(errors::err_unrecognized_region(6, String::from("Q"))));
    let tokens = vec![r_ident("L"), Token::Drill, Token::Drill, Token::Drill, p_ident("!"), Token::Tilde];
    let r = Parser::new(tokens).parse();
    assert_eq!(r.err(), Some(errors::err_expected_cell_expression_after(5)));
}
