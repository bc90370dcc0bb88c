use mindbend::errors;
use mindbend::lexer::{tokenize, Token};

fn p_ident(s: &str) -> Token {
    Token::PrimitiveIdent(String::from(s))
}

fn c_ident(s: &str) -> Token {
    Token::CellIdent(String::from(s))
}

fn r_ident(s: &str) -> Token {
    Token::RegionIdent(String::from(s))
}

#[test]
fn lexer_test_valid1() {
    let input = r"$!$@$#$+$%$`$&$*$($)$<>$><${$}label:hello:^^^^^^666^^^^^^^^^^^^666^^^^^^=->L~\\|//jmp:hello:ijmp:hello:^^^^^^666^^^^^^=M^^^^^^666^^^^^^=O";
    let result = tokenize(input);
    let expected_result = Ok(vec![
        p_ident("!"), p_ident("@"), p_ident("#"),
        p_ident("+"), p_ident("%"), p_ident("`"),
        p_ident("&"), p_ident("*"), p_ident("("),
        p_ident(")"), p_ident("<>"), p_ident("><"),
        p_ident("{"), p_ident("}"), Token::Label(format!("hello")),
        Token::TripleSix, Token::TripleSixEq, r_ident("L"),
        Token::Tilde, Token::Drill, Token::Jump(format!("hello")),
        Token::ConditionalJump(format!("hello")), Token::TripleSixEqM,
    ]);
    assert!(result.is_ok());
    assert_eq!(result, expected_result);
}

#[test]
fn lexer_test_valid2() {
    let input = "0123456789ABCDE^^^^^^666^^^^^^=O";
    let result = tokenize(input);
    let expected_result = Ok(vec![
        c_ident("0"), c_ident("1"), c_ident("2"), c_ident("3"),
        c_ident("4"), c_ident("5"), c_ident("6"), c_ident("7"),
        c_ident("8"), c_ident("9"), c_ident("A"), c_ident("B"),
        c_ident("C"), c_ident("D"), c_ident("E"),
    ]);
    assert!(result.is_ok());
    assert_eq!(result, expected_result);
}

#[test]
fn test_valid3() {
    let input = "->C->L^^^^^^666^^^^^^=O";
    let result = tokenize(input);
    let expected_result = Ok(vec![r_ident("C"), r_ident("L")]);
    assert!(result.is_ok());
    assert_eq!(result, expected_result);
}

#[test]
fn test_valid4() {
    let input = "C^^^^^^666^^^^^^=O";
    let result = tokenize(input);
    let expected_result = Ok(vec![c_ident("C")]);
    assert!(result.is_ok());
    assert_eq!(result, expected_result);
}

#[test]
fn test_valid5() {
    let input = "L^^^^^^666^^^^^^=O";
    let result = tokenize(input);
    let expected_result = Err(errors::err_unrecognized_token(1));
    assert!(result.is_err());
    assert_eq!(result, expected_result);
}

#[test]
fn test_valid6() {
    let input = "$0$1$2$3$4$5$6$7$8$9$A$B$C$D^^^^^^666^^^^^^=O";
    let result = tokenize(input);
    let expected_result = Ok(vec![
        p_ident("0"), p_ident("1"), p_ident("2"), p_ident("3"),
        p_ident("4"), p_ident("5"), p_ident("6"), p_ident("7"),
        p_ident("8"), p_ident("9"), p_ident("A"), p_ident("B"),
        p_ident("C"), p_ident("D"),
    ]);
    assert!(result.is_ok());
    assert_eq!(result, expected_result);
}

#[test]
fn test_valid7() {
    let input = r"->L\\|//\\|//\\|//$`->C~0->L$><->C~10~1^^^^^^666^^^^^^=O";
    let result = tokenize(input);
    let expected_result = Ok(vec![
        r_ident("L"), Token::Drill, Token::Drill, Token::Drill, p_ident("`"),
        r_ident("C"), Token::Tilde, c_ident("0"), r_ident("L"), p_ident("><"),
        r_ident("C"), Token::Tilde, c_ident("1"), c_ident("0"), Token::Tilde, c_ident("1"),
    ]);
    assert!(result.is_ok());
    assert_eq!(result, expected_result);
}

#[test]
fn test_valid8() {
    let input = r"label:hello:->L\\|//\\|//\\|//$+->C~0->L$(->C~10~2->L\\|//->C1~32~4->L\\|//->C3~54~6->L\\|//->C5~76~8->L$><->C~99~7~8^^^^^^666^^^^^^=Mjmp:hello:^^^^^^666^^^^^^=O";
    let result = tokenize(input);
    let expected_result = Ok(vec![
        Token::Label(format!("hello")), r_ident("L"), Token::Drill, Token::Drill,
        Token::Drill, p_ident("+"), r_ident("C"), Token::Tilde, c_ident("0"), r_ident("L"),
        p_ident("("), r_ident("C"), Token::Tilde, c_ident("1"), c_ident("0"), Token::Tilde,
        c_ident("2"), r_ident("L"), Token::Drill, r_ident("C"), c_ident("1"), Token::Tilde,
        c_ident("3"), c_ident("2"), Token::Tilde, c_ident("4"), r_ident("L"), Token::Drill,
        r_ident("C"), c_ident("3"), Token::Tilde, c_ident("5"), c_ident("4"), Token::Tilde,
        c_ident("6"), r_ident("L"), Token::Drill, r_ident("C"), c_ident("5"), Token::Tilde,
        c_ident("7"), c_ident("6"), Token::Tilde, c_ident("8"), r_ident("L"), p_ident("><"),
        r_ident("C"), Token::Tilde, c_ident("9"), c_ident("9"), Token::Tilde, c_ident("7"),
        Token::Tilde, c_ident("8"), Token::TripleSixEqM, Token::Jump(format!("hello")),
    ]);
    assert!(result.is_ok());
    assert_eq!(result, expected_result);
}

#[test]
fn test_err1() {
    let input = "!@l";
    let result = tokenize(input);
    let expected_result = Err(errors::err_unrecognized_token(1));
    assert!(result.is_err());
    assert_eq!(result, expected_result);
}

#[test]
fn test_err2() {
    let input = " ";
    let result = tokenize(input);
    let expected_result = Err(errors::err_whitespace(1));
    assert!(result.is_err());
    assert_eq!(result, expected_result);
}

#[test]
fn test_err3() {
    let input = "AB E";
    let result = tokenize(input);
    let expected_result = Err(errors::err_whitespace(3));
    assert!(result.is_err());
    assert_eq!(result, expected_result);
}

#[test]
fn test_err4() {
    let input = "$E";
    let result = tokenize(input);
    let expected_result = Err(errors::err_invalid_primitive(2));
    assert!(result.is_err());
    assert_eq!(result, expected_result);
}

#[test]
fn missing_death_is_rejected() {
    assert_eq!(tokenize("0~1"), Err(errors::err_org_expr_must_end_in_death()));
    assert_eq!(
        tokenize("0^^^^^^666^^^^^^=M"),
        Err(String::from("A Mindbend program must end in the death of the Organism Expression"))
    );
    assert_eq!(tokenize("->X^^^^^^666^^^^^^=O"), Err(errors::err_unrecognized_token(3)));
    assert_eq!(tokenize("->"), Err(errors::err_unrecognized_token(2)));
    assert_eq!(tokenize("->0^^^^^^666^^^^^^=O"), Err(errors::err_unrecognized_token(3)));
    assert_eq!(tokenize("-"), Err(errors::err_unrecognized_token(1)));
    assert_eq!(tokenize("-x"), Err(errors::err_unrecognized_token(2)));
}

#[test]
fn mid_stream_death_is_a_token() {
    let result = tokenize("0^^^^^^666^^^^^^=O1^^^^^^666^^^^^^=O").unwrap();
    assert_eq!(result, vec![c_ident("0"), Token::TripleSixEqO, c_ident("1")]);
}

#[test]
fn broken_sigils_report_their_position() {
    assert_eq!(tokenize("^^^x"), Err(errors::err_unrecognized_token(4)));
    assert_eq!(tokenize("^^^"), Err(errors::err_unrecognized_token(3)));
    assert_eq!(tokenize(r"\\|x"), Err(errors::err_unrecognized_token(4)));
    assert_eq!(tokenize("$"), Err(errors::err_expected(1, "primitive identifier or index")));
    assert_eq!(tokenize("$>x"), Err(errors::err_invalid_primitive(3)));
    assert_eq!(tokenize("$<"), Err(errors::err_invalid_primitive(2)));
    assert_eq!(tokenize("labxl"), Err(errors::err_expected(4, "e")));
    assert_eq!(tokenize("jmp:abc"), Err(errors::err_expected(7, ":")));
    assert_eq!(tokenize("jxp:a:"), Err(errors::err_unrecognized_token(2)));
    assert_eq!(tokenize("ij"), Err(errors::err_expected(2, "m")));
    assert_eq!(tokenize("F"), Err(errors::err_unrecognized_token(1)));
}

#[test]
fn region_token_helper() {
    assert!(r_ident("C").is_region());
    assert!(!c_ident("C").is_region());
    assert!(!Token::Tilde.is_region());
}
