//! Turns Mindbend source text into tokens.

use vstd::prelude::*;
use vstd::string::*;
use crate::errors::{
    death_msg, err_expected, err_invalid_primitive, err_org_expr_must_end_in_death,
    err_unrecognized_token, err_whitespace, expected_msg, invalid_primitive_msg,
    unrecognized_token_msg, whitespace_msg,
};

verus! {

#[derive(Debug, PartialEq)]
pub enum Token {
    TripleSix,
    TripleSixEq,
    TripleSixEqM,
    TripleSixEqO,
    Tilde,
    Drill,
    Label(String),
    Jump(String),
    ConditionalJump(String),
    CellIdent(String),
    RegionIdent(String),
    PrimitiveIdent(String),
}

/// A token with its text as a sequence of characters.
pub enum TokenModel {
    TripleSix,
    TripleSixEq,
    TripleSixEqM,
    TripleSixEqO,
    Tilde,
    Drill,
    Label(Seq<char>),
    Jump(Seq<char>),
    ConditionalJump(Seq<char>),
    CellIdent(Seq<char>),
    RegionIdent(Seq<char>),
    PrimitiveIdent(Seq<char>),
}

impl View for Token {
    type V = TokenModel;

    open spec fn view(&self) -> TokenModel {
        match self {
            Token::TripleSix => TokenModel::TripleSix,
            Token::TripleSixEq => TokenModel::TripleSixEq,
            Token::TripleSixEqM => TokenModel::TripleSixEqM,
            Token::TripleSixEqO => TokenModel::TripleSixEqO,
            Token::Tilde => TokenModel::Tilde,
            Token::Drill => TokenModel::Drill,
            Token::Label(s) => TokenModel::Label(s@),
            Token::Jump(s) => TokenModel::Jump(s@),
            Token::ConditionalJump(s) => TokenModel::ConditionalJump(s@),
            Token::CellIdent(s) => TokenModel::CellIdent(s@),
            Token::RegionIdent(s) => TokenModel::RegionIdent(s@),
            Token::PrimitiveIdent(s) => TokenModel::PrimitiveIdent(s@),
        }
    }
}

impl Token {
    pub fn is_region(&self) -> (r: bool)
        ensures
            r == (self is RegionIdent),
    {
        match self {
            Token::RegionIdent(_) => true,
            _ => false,
        }
    }
}

/// The views of a sequence of tokens.
pub open spec fn models(ts: Seq<Token>) -> Seq<TokenModel> {
    ts.map_values(|t: Token| t@)
}

/// What scanning one token from a lead character does.
pub enum Scan {
    /// A token, and how many characters after the lead it took.
    Emit(TokenModel, nat),
    /// The source is rejected with this message.
    Fail(Seq<char>),
}

/// The fourteen characters that follow the first `^` of `^^^^^^666^^^^^^`.
pub open spec fn six_tail() -> Seq<char> {
    seq!['^', '^', '^', '^', '^', '6', '6', '6', '^', '^', '^', '^', '^', '^']
}

/// The four characters that follow the first `\` of a drill.
pub open spec fn drill_tail() -> Seq<char> {
    seq!['\\', '|', '/', '/']
}

pub open spec fn label_tail() -> Seq<char> {
    seq!['a', 'b', 'e', 'l', ':']
}

pub open spec fn jmp_tail() -> Seq<char> {
    seq!['m', 'p', ':']
}

pub open spec fn ijmp_tail() -> Seq<char> {
    seq!['j', 'm', 'p', ':']
}

/// The first `k' >= k` at which `lit` stops matching `s` from `start`, or `lit.len()`.
pub open spec fn lit_break(s: Seq<char>, start: int, lit: Seq<char>, k: nat) -> nat
    decreases lit.len() - k,
{
    if k >= lit.len() {
        lit.len()
    } else if 0 <= start + k < s.len() && s[start + k] == lit[k as int] {
        lit_break(s, start, lit, k + 1)
    } else {
        k
    }
}

/// The first index `>= j` that holds `:`, or `s.len()`.
pub open spec fn colon_at(s: Seq<char>, j: int) -> int
    decreases s.len() - j,
{
    if j < 0 || j >= s.len() {
        s.len() as int
    } else if s[j] == ':' {
        j
    } else {
        colon_at(s, j + 1)
    }
}

/// The 1-based position reported for a failure at index `idx`: that character,
/// or the last one where the source ended first.
pub open spec fn fail_pos(s: Seq<char>, idx: int) -> int {
    if idx < s.len() {
        idx + 1
    } else {
        s.len() as int
    }
}

pub open spec fn is_cell_char(c: char) -> bool {
    ('0' <= c && c <= '9') || ('A' <= c && c <= 'E')
}

/// Characters that name a primitive on their own after `$`.
pub open spec fn is_primitive_char(c: char) -> bool {
    c == '!' || c == '@' || c == '#' || c == '+' || c == '%' || c == '`' || c == '&' || c == '*'
        || c == '(' || c == ')' || c == '}' || c == '{' || ('0' <= c && c <= '9') || ('A' <= c
        && c <= 'D')
}

/// Scanning after `$` at index `i`.
pub open spec fn scan_primitive(s: Seq<char>, i: int) -> Scan {
    if i + 1 >= s.len() {
        Scan::Fail(expected_msg(s.len() as int, "primitive identifier or index"@))
    } else {
        let c = s[i + 1];
        if is_primitive_char(c) {
            Scan::Emit(TokenModel::PrimitiveIdent(seq![c]), 1)
        } else if c == '>' || c == '<' {
            let closing = if c == '>' { '<' } else { '>' };
            if i + 2 < s.len() && s[i + 2] == closing {
                Scan::Emit(TokenModel::PrimitiveIdent(seq![c, closing]), 2)
            } else {
                Scan::Fail(invalid_primitive_msg(fail_pos(s, i + 2)))
            }
        } else {
            Scan::Fail(invalid_primitive_msg(i + 2))
        }
    }
}

/// Scanning after the first `^` at index `i`.
pub open spec fn scan_six(s: Seq<char>, i: int) -> Scan {
    let k = lit_break(s, i + 1, six_tail(), 0);
    if k < 14 {
        Scan::Fail(unrecognized_token_msg(fail_pos(s, i + 1 + k)))
    } else {
        let j = i + 15;
        if j < s.len() && s[j] == '=' {
            if j + 1 < s.len() && s[j + 1] == 'M' {
                Scan::Emit(TokenModel::TripleSixEqM, 16)
            } else if j + 1 < s.len() && s[j + 1] == 'O' {
                Scan::Emit(TokenModel::TripleSixEqO, 16)
            } else {
                Scan::Emit(TokenModel::TripleSixEq, 15)
            }
        } else {
            Scan::Emit(TokenModel::TripleSix, 14)
        }
    }
}

/// Scanning after `-` at index `i`: `->` then a region letter, `L` or `C`.
pub open spec fn scan_arrow(s: Seq<char>, i: int) -> Scan {
    if i + 1 >= s.len() || s[i + 1] != '>' {
        Scan::Fail(unrecognized_token_msg(fail_pos(s, i + 1)))
    } else if i + 2 < s.len() && (s[i + 2] == 'L' || s[i + 2] == 'C') {
        Scan::Emit(TokenModel::RegionIdent(seq![s[i + 2]]), 2)
    } else {
        Scan::Fail(unrecognized_token_msg(fail_pos(s, i + 2)))
    }
}

/// Scanning after `\` at index `i`.
pub open spec fn scan_drill(s: Seq<char>, i: int) -> Scan {
    let k = lit_break(s, i + 1, drill_tail(), 0);
    if k < 4 {
        Scan::Fail(unrecognized_token_msg(fail_pos(s, i + 1 + k)))
    } else {
        Scan::Emit(TokenModel::Drill, 4)
    }
}

/// The kinds of named tokens: 0 for a label, 1 for a jump, 2 for a conditional jump.
pub open spec fn named_model(kind: int, name: Seq<char>) -> TokenModel {
    if kind == 0 {
        TokenModel::Label(name)
    } else if kind == 1 {
        TokenModel::Jump(name)
    } else {
        TokenModel::ConditionalJump(name)
    }
}

/// Scanning a named token whose lead is at `i` and whose keyword rest is `lit`:
/// the name runs up to the next `:`.
pub open spec fn scan_named(s: Seq<char>, i: int, lit: Seq<char>, kind: int) -> Scan {
    let k = lit_break(s, i + 1, lit, 0);
    if k < lit.len() {
        if kind == 0 || i + 1 + k >= s.len() {
            Scan::Fail(expected_msg(fail_pos(s, i + 1 + k), seq![lit[k as int]]))
        } else {
            Scan::Fail(unrecognized_token_msg(i + 2 + k))
        }
    } else {
        let start = i + 1 + lit.len();
        let e = colon_at(s, start);
        if e >= s.len() {
            Scan::Fail(expected_msg(s.len() as int, ":"@))
        } else {
            Scan::Emit(named_model(kind, s.subrange(start, e)), (e - i) as nat)
        }
    }
}

/// Scanning one token whose lead character is at index `i`.
pub open spec fn scan(s: Seq<char>, i: int) -> Scan {
    let c = s[i];
    if c == ' ' || c == '\n' {
        Scan::Fail(whitespace_msg(i + 1))
    } else if c == '~' {
        Scan::Emit(TokenModel::Tilde, 0)
    } else if c == '$' {
        scan_primitive(s, i)
    } else if c == '^' {
        scan_six(s, i)
    } else if c == '-' {
        scan_arrow(s, i)
    } else if c == '\\' {
        scan_drill(s, i)
    } else if c == 'l' {
        scan_named(s, i, label_tail(), 0)
    } else if c == 'j' {
        scan_named(s, i, jmp_tail(), 1)
    } else if c == 'i' {
        scan_named(s, i, ijmp_tail(), 2)
    } else if is_cell_char(c) {
        Scan::Emit(TokenModel::CellIdent(seq![c]), 0)
    } else {
        Scan::Fail(unrecognized_token_msg(i + 1))
    }
}

/// The index after a token whose lead is at `i` and which takes `n` more
/// characters (a scan never runs past the end of the source).
pub open spec fn after(s: Seq<char>, i: nat, n: nat) -> nat {
    if i + 1 + n <= s.len() {
        i + 1 + n
    } else {
        s.len()
    }
}

/// The tokens of `s` from index `i` on, or the first failure.
pub open spec fn lex_from(s: Seq<char>, i: nat) -> Result<Seq<TokenModel>, Seq<char>>
    decreases s.len() - i,
{
    if i >= s.len() {
        Ok(seq![])
    } else {
        match scan(s, i as int) {
            Scan::Fail(m) => Err(m),
            Scan::Emit(t, n) => match lex_from(s, after(s, i, n)) {
                Ok(ts) => Ok(seq![t] + ts),
                Err(m) => Err(m),
            },
        }
    }
}

/// `acc` put before the tokens of `r`.
pub open spec fn prepend(
    acc: Seq<TokenModel>,
    r: Result<Seq<TokenModel>, Seq<char>>,
) -> Result<Seq<TokenModel>, Seq<char>> {
    match r {
        Ok(ts) => Ok(acc + ts),
        Err(m) => Err(m),
    }
}

/// The tokens of a whole source: all of them must scan, the last must be the
/// organism's death, and it is dropped.
pub open spec fn lex(s: Seq<char>) -> Result<Seq<TokenModel>, Seq<char>> {
    match lex_from(s, 0) {
        Err(m) => Err(m),
        Ok(ts) => if ts.len() > 0 && ts.last() is TripleSixEqO {
            Ok(ts.drop_last())
        } else {
            Err(death_msg())
        },
    }
}

/// `r` is what `tokenize` returns for a source lexed as `l`.
pub open spec fn lexed_as(
    r: Result<Vec<Token>, String>,
    l: Result<Seq<TokenModel>, Seq<char>>,
) -> bool {
    match (r, l) {
        (Ok(v), Ok(ts)) => models(v@) == ts,
        (Err(e), Err(m)) => e@ == m,
        _ => false,
    }
}

/// `r` is what scanning one token returns where the spec scan gives `sc`.
pub open spec fn scanned_as(r: Result<(Token, usize), String>, sc: Scan) -> bool {
    match sc {
        Scan::Emit(t, n) => r is Ok && r->Ok_0.0@ == t && r->Ok_0.1 == n,
        Scan::Fail(m) => r is Err && r->Err_0@ == m,
    }
}

fn chars_of(input: &str) -> (r: Vec<char>)
    ensures
        r@ == input@,
{
    let n = input.unicode_len();
    let mut v: Vec<char> = Vec::new();
    let mut i: usize = 0;
    while i < n
        invariant
            n == input@.len(),
            i <= n,
            v@ == input@.subrange(0, i as int),
        decreases n - i,
    {
        v.push(input.get_char(i));
        i = i + 1;
    }
    assert(v@ =~= input@);
    v
}

/// How far `lit` matches `s` from `start`.
fn expect_literal(s: &Vec<char>, start: usize, lit: &str) -> (k: usize)
    requires
        start <= s.len(),
    ensures
        k == lit_break(s@, start as int, lit@, 0),
        k <= lit@.len(),
        k == lit@.len() && lit@.len() > 0 ==> start + lit@.len() <= s.len(),
{
    proof { lemma_lit_break_bounds(s@, start as int, lit@, 0); }
    let n = lit.unicode_len();
    let mut k: usize = 0;
    while k < n
        invariant
            n == lit@.len(),
            start <= s.len(),
            k <= n,
            lit_break(s@, start as int, lit@, 0) == lit_break(s@, start as int, lit@, k as nat),
        decreases n - k,
    {
        if k < s.len() - start && s[start + k] == lit.get_char(k) {
            k = k + 1;
        } else {
            return k;
        }
    }
    k
}

/// The first index from `j` on that holds `:`, or the length of `s`.
fn find_colon(s: &Vec<char>, j: usize) -> (e: usize)
    requires
        j <= s.len(),
    ensures
        e == colon_at(s@, j as int),
        j <= e <= s.len(),
{
    let mut e = j;
    while e < s.len()
        invariant
            j <= e <= s.len(),
            colon_at(s@, j as int) == colon_at(s@, e as int),
        decreases s.len() - e,
    {
        if s[e] == ':' {
            return e;
        }
        e = e + 1;
    }
    e
}

fn text(input: &str, from: usize, to: usize) -> (r: String)
    requires
        from <= to <= input@.len(),
    ensures
        r@ == input@.subrange(from as int, to as int),
{
    String::from_str(input.substring_char(from, to))
}

fn tokenize_primitive_ident(s: &Vec<char>, input: &str, i: usize) -> (r: Result<(Token, usize), String>)
    requires
        s@ == input@,
        i < s.len(),
        s.len() < i32::MAX,
    ensures
        scanned_as(r, scan_primitive(s@, i as int)),
        r is Ok ==> i + 1 + r->Ok_0.1 <= s.len(),
{
    if i + 1 >= s.len() {
        return Err(err_expected(s.len() as i32, "primitive identifier or index"));
    }
    let c = s[i + 1];
    if c == '!' || c == '@' || c == '#' || c == '+' || c == '%' || c == '`' || c == '&' || c == '*'
        || c == '(' || c == ')' || c == '}' || c == '{' || ('0' <= c && c <= '9') || ('A' <= c
        && c <= 'D') {
        let t = text(input, i + 1, i + 2);
        assert(t@ =~= seq![c]);
        Ok((Token::PrimitiveIdent(t), 1))
    } else if c == '>' || c == '<' {
        let closing = if c == '>' { '<' } else { '>' };
        if i + 2 < s.len() && s[i + 2] == closing {
            let t = text(input, i + 1, i + 3);
            assert(t@ =~= seq![c, closing]);
            Ok((Token::PrimitiveIdent(t), 2))
        } else {
            let pos = if i + 2 < s.len() { i + 3 } else { s.len() };
            Err(err_invalid_primitive(pos as i32))
        }
    } else {
        Err(err_invalid_primitive((i + 2) as i32))
    }
}

fn tokenize_666(s: &Vec<char>, i: usize) -> (r: Result<(Token, usize), String>)
    requires
        i < s.len(),
        s.len() < i32::MAX,
    ensures
        scanned_as(r, scan_six(s@, i as int)),
        r is Ok ==> i + 1 + r->Ok_0.1 <= s.len(),
{
    let tail = "^^^^^666^^^^^^";
    proof {
        reveal_strlit("^^^^^666^^^^^^");
        assert(tail@ =~= six_tail());
    }
    let k = expect_literal(s, i + 1, tail);
    if k < 14 {
        let at = i + 1 + k;
        let pos = if at < s.len() { at + 1 } else { s.len() };
        return Err(err_unrecognized_token(pos as i32));
    }
    let j = i + 15;
    if j < s.len() && s[j] == '=' {
        if j + 1 < s.len() && s[j + 1] == 'M' {
            Ok((Token::TripleSixEqM, 16))
        } else if j + 1 < s.len() && s[j + 1] == 'O' {
            Ok((Token::TripleSixEqO, 16))
        } else {
            Ok((Token::TripleSixEq, 15))
        }
    } else {
        Ok((Token::TripleSix, 14))
    }
}

fn tokenize_right_arrow_and_region_ident(s: &Vec<char>, input: &str, i: usize) -> (r: Result<(Token, usize), String>)
    requires
        s@ == input@,
        i < s.len(),
        s.len() < i32::MAX,
    ensures
        scanned_as(r, scan_arrow(s@, i as int)),
        r is Ok ==> i + 1 + r->Ok_0.1 <= s.len(),
{
    if i + 1 >= s.len() || s[i + 1] != '>' {
        let pos = if i + 1 < s.len() { i + 2 } else { s.len() };
        Err(err_unrecognized_token(pos as i32))
    } else if i + 2 < s.len() && (s[i + 2] == 'L' || s[i + 2] == 'C') {
        let t = text(input, i + 2, i + 3);
        assert(t@ =~= seq![s@[i + 2]]);
        Ok((Token::RegionIdent(t), 2))
    } else {
        let pos = if i + 2 < s.len() { i + 3 } else { s.len() };
        Err(err_unrecognized_token(pos as i32))
    }
}

fn tokenize_drill(s: &Vec<char>, i: usize) -> (r: Result<(Token, usize), String>)
    requires
        i < s.len(),
        s.len() < i32::MAX,
    ensures
        scanned_as(r, scan_drill(s@, i as int)),
        r is Ok ==> i + 1 + r->Ok_0.1 <= s.len(),
{
    let tail = "\\|//";
    proof {
        reveal_strlit("\\|//");
        assert(tail@ =~= drill_tail());
    }
    let k = expect_literal(s, i + 1, tail);
    if k < 4 {
        let at = i + 1 + k;
        let pos = if at < s.len() { at + 1 } else { s.len() };
        return Err(err_unrecognized_token(pos as i32));
    }
    Ok((Token::Drill, 4))
}

/// A named token (label, jump or conditional jump) whose lead is at `i` and
/// whose keyword goes on with `lit`.
fn tokenize_named(s: &Vec<char>, input: &str, i: usize, lit: &str, kind: u8) -> (r: Result<(Token, usize), String>)
    requires
        s@ == input@,
        i < s.len(),
        s.len() < i32::MAX,
        kind <= 2,
        0 < lit@.len() <= 5,
    ensures
        scanned_as(r, scan_named(s@, i as int, lit@, kind as int)),
        r is Ok ==> i + 1 + r->Ok_0.1 <= s.len(),
{
    let k = expect_literal(s, i + 1, lit);
    let n = lit.unicode_len();
    if k < n {
        let at = i + 1 + k;
        let expected = lit.substring_char(k, k + 1);
        assert(expected@ =~= seq![lit@[k as int]]);
        if kind == 0 || at >= s.len() {
            let pos = if at < s.len() { at + 1 } else { s.len() };
            return Err(err_expected(pos as i32, expected));
        } else {
            return Err(err_unrecognized_token((at + 1) as i32));
        }
    }
    let start = i + 1 + n;
    let e = find_colon(s, start);
    if e >= s.len() {
        proof { reveal_strlit(":"); }
        return Err(err_expected(s.len() as i32, ":"));
    }
    let name = text(input, start, e);
    let t = if kind == 0 {
        Token::Label(name)
    } else if kind == 1 {
        Token::Jump(name)
    } else {
        Token::ConditionalJump(name)
    };
    Ok((t, e - i))
}

/// The break point lies between `k` and the literal's length, and a literal
/// that matches in full lies within the source.
proof fn lemma_lit_break_bounds(s: Seq<char>, start: int, lit: Seq<char>, k: nat)
    requires
        k <= lit.len(),
        0 <= start,
    ensures
        k <= lit_break(s, start, lit, k) <= lit.len(),
        lit_break(s, start, lit, k) == lit.len() && k < lit.len() ==> start + lit.len() <= s.len(),
    decreases lit.len() - k,
{
    if k < lit.len() {
        lemma_lit_break_bounds(s, start, lit, k + 1);
    }
}

/// Scans the token whose lead character is at `i`.
fn scan_token(s: &Vec<char>, input: &str, i: usize) -> (r: Result<(Token, usize), String>)
    requires
        s@ == input@,
        i < s.len(),
        s.len() < i32::MAX,
    ensures
        scanned_as(r, scan(s@, i as int)),
        r is Ok ==> i + 1 + r->Ok_0.1 <= s.len(),
{
    let c = s[i];
    if c == ' ' || c == '\n' {
        Err(err_whitespace((i + 1) as i32))
    } else if c == '~' {
        Ok((Token::Tilde, 0))
    } else if c == '$' {
        tokenize_primitive_ident(s, input, i)
    } else if c == '^' {
        tokenize_666(s, i)
    } else if c == '-' {
        tokenize_right_arrow_and_region_ident(s, input, i)
    } else if c == '\\' {
        tokenize_drill(s, i)
    } else if c == 'l' {
        let lit = "abel:";
        proof {
            reveal_strlit("abel:");
            assert(lit@ =~= label_tail());
        }
        tokenize_named(s, input, i, lit, 0)
    } else if c == 'j' {
        let lit = "mp:";
        proof {
            reveal_strlit("mp:");
            assert(lit@ =~= jmp_tail());
        }
        tokenize_named(s, input, i, lit, 1)
    } else if c == 'i' {
        let lit = "jmp:";
        proof {
            reveal_strlit("jmp:");
            assert(lit@ =~= ijmp_tail());
        }
        tokenize_named(s, input, i, lit, 2)
    } else if ('0' <= c && c <= '9') || ('A' <= c && c <= 'E') {
        let t = text(input, i, i + 1);
        assert(t@ =~= seq![c]);
        Ok((Token::CellIdent(t), 0))
    } else {
        Err(err_unrecognized_token((i + 1) as i32))
    }
}

/// Splits a source into tokens. The source must end in the organism's death
/// (`^^^^^^666^^^^^^=O`), which is dropped from the result.
pub fn tokenize(input: &str) -> (r: Result<Vec<Token>, String>)
    requires
        input@.len() < i32::MAX,
    ensures
        lexed_as(r, lex(input@)),
        r is Ok ==> r->Ok_0@.len() <= input@.len(),
        lex_from(input@, 0) is Ok && !(lex_from(input@, 0)->Ok_0.len() > 0
            && lex_from(input@, 0)->Ok_0.last() is TripleSixEqO) ==> r is Err
            && r->Err_0@ == death_msg(),
{
    let s = chars_of(input);
    let mut tokens: Vec<Token> = Vec::new();
    let mut i: usize = 0;
    assert(models(tokens@) =~= seq![]);
    assert(seq![] + lex_from(s@, 0)->Ok_0 =~= lex_from(s@, 0)->Ok_0);
    while i < s.len()
        invariant
            s@ == input@,
            i <= s.len(),
            s.len() < i32::MAX,
            lex_from(s@, 0) == prepend(models(tokens@), lex_from(s@, i as nat)),
            tokens@.len() <= i,
        decreases s.len() - i,
    {
        let step = scan_token(&s, input, i);
        match step {
            Err(e) => {
                return Err(e);
            },
            Ok((t, n)) => {
                let ghost before = models(tokens@);
                assert(after(s@, i as nat, n as nat) == i + 1 + n);
                let ghost tv = t@;
                tokens.push(t);
                assert(models(tokens@) =~= before.push(tv));
                proof {
                    let rest = lex_from(s@, (i + 1 + n) as nat);
                    if rest is Ok {
                        assert(before + (seq![tv] + rest->Ok_0) =~= before.push(tv) + rest->Ok_0);
                    }
                }
                i = i + 1 + n;
            },
        }
    }
    assert(models(tokens@) + seq![] =~= models(tokens@));
    let ghost all = models(tokens@);
    match tokens.pop() {
        Some(Token::TripleSixEqO) => {
            assert(models(tokens@) =~= all.drop_last());
            Ok(tokens)
        },
        _ => Err(err_org_expr_must_end_in_death()),
    }
}

} // verus!
