//! Diagnostics of the compiler and of the programs it produces.

use vstd::prelude::*;
use vstd::string::*;
use crate::decimal::{around, signed_after, unsigned_after, decimal, decimal_string, signed_decimal};

verus! {

/// Messages that a compiled program prints before it fails.
pub open spec fn primitive_region_runtime_msg() -> Seq<char> {
    "Attempt to access primitive when not in layers region\n"@
}

pub open spec fn primitive_gates_runtime_msg() -> Seq<char> {
    "Attempt to access primitive when the gates aren't open\n"@
}

pub open spec fn gate_region_runtime_msg() -> Seq<char> {
    "Attempt to drill gates when not in the Layers Region\n"@
}

pub open spec fn non_function_runtime_msg() -> Seq<char> {
    "Attempt to use non-function primitive to massacre\n"@
}

pub open spec fn cell_region_runtime_msg() -> Seq<char> {
    "Attempting to access cell outside the Cells Region\n"@
}

pub open spec fn primitive_access_runtime_msg() -> Seq<char> {
    "Attempt to access primitive either when gates are closed or not in Layers Region\n"@
}

pub open spec fn death_leach_runtime_msg() -> Seq<char> {
    "Attempt to leach death expression onto another Cell\n"@
}

/// Messages of the parser, for the token at `pos`.
pub open spec fn invalid_primitive_access_region_msg(pos: nat) -> Seq<char> {
    "Attempting to access primitive outside the Layers Region at the nth token, where n is around "@ + decimal(pos)
}

pub open spec fn invalid_primitive_access_gates_msg(pos: nat) -> Seq<char> {
    "Attempting to access primitive when the Layers gates aren't fully open at the nth token, where n is around "@ + decimal(pos)
}

pub open spec fn invalid_cell_access_region_msg(pos: nat) -> Seq<char> {
    "Attempting to access cell outside the Cells Region at the nth token, where n is around "@ + decimal(pos)
}

pub open spec fn expected_cell_expression_after_msg(pos: nat) -> Seq<char> {
    "Expected cell expression after the nth token, where n is around "@ + decimal(pos)
}

pub open spec fn expected_cell_expression_msg(pos: nat) -> Seq<char> {
    "Expected cell expression at the nth token, where n is around "@ + decimal(pos)
}

pub open spec fn drill_in_cells_msg(pos: nat) -> Seq<char> {
    "Attempt to drill in the Cells Region at the nth token, where n is around "@ + decimal(pos)
}

pub open spec fn chained_leach_expression_must_end_in_massacre_msg(pos: nat) -> Seq<char> {
    "Chained leach expression at the nth token, where n is around "@ + decimal(pos) + ", does not end in a massacre. A chained leach expression must end in a massacre"@
}

pub open spec fn attempt_to_jump_to_non_existent_label_msg(pos: nat) -> Seq<char> {
    "Attempt to jump to non existent label at the nth token, where n is around "@ + decimal(pos)
}

pub open spec fn leach_expression_must_start_with_primitive_or_cell_msg(pos: nat) -> Seq<char> {
    "The leach expression at the nth token, where n is around "@ + decimal(pos) + ", does not begin with a primitive or Cell"@
}

pub open spec fn attempt_to_leach_expr_onto_itself_msg(pos: nat) -> Seq<char> {
    "Attempt to leach expression onto itself at the nth token, where n is around "@ + decimal(pos)
}

pub open spec fn chain_leach_expression_ending_without_chain_leach_expression_msg(pos: nat) -> Seq<char> {
    "Ending a chain leach expression without a chain leach expression at the nth token, where n is around "@ + decimal(pos)
}

pub open spec fn triple_six_eq_not_expected_here_msg(pos: nat) -> Seq<char> {
    "^^^^^^666^^^^^^= not expected at the nth token, where n is around "@ + decimal(pos)
}

pub open spec fn triple_six_not_expected_here_msg(pos: nat) -> Seq<char> {
    "^^^^^^666^^^^^^ not expected at the nth token, where n is around "@ + decimal(pos)
}

pub open spec fn unrecognized_region_msg(pos: nat, found: Seq<char>) -> Seq<char> {
    "Use of unrecognized region "@ + found + " at the nth token, where n is around "@ + decimal(pos)
}

pub open spec fn unrecognized_cell_msg(pos: nat, found: Seq<char>) -> Seq<char> {
    "Use of unrecognized cell "@ + found + " at the nth token, where n is around "@ + decimal(pos)
}

pub open spec fn duplicate_label_msg(pos1: nat, pos2: nat) -> Seq<char> {
    "Label name at the nth token duplicated in the label name at the mth token, where n is around "@
            + decimal(pos1) + " and m is around "@ + decimal(pos2)
}

/// Message for a whitespace character at `pos`.
pub open spec fn whitespace_msg(pos: int) -> Seq<char> {
    "Invalid whitespace at position n where n is around "@ + signed_decimal(pos)
}

/// Message for a character that starts no token, or breaks one, at `pos`.
pub open spec fn unrecognized_token_msg(pos: int) -> Seq<char> {
    "Unrecognized token at position n where n is around "@ + signed_decimal(pos)
}

/// Message for a character after `$` that names no primitive.
pub open spec fn invalid_primitive_msg(pos: int) -> Seq<char> {
    "Invalid primitive at position n where n is around "@ + signed_decimal(pos)
}

/// Message for input that ended, or broke off, where `expected` should have stood.
pub open spec fn expected_msg(pos: int, expected: Seq<char>) -> Seq<char> {
    "Expected "@ + expected + " at position n where n is around "@ + signed_decimal(pos)
}

/// Message for a source whose last token is not the organism's death.
pub open spec fn death_msg() -> Seq<char> {
    "A Mindbend program must end in the death of the Organism Expression"@
}

pub fn err_whitespace(pos: i32) -> (r: String)
    ensures
        r@ == whitespace_msg(pos as int),
{
    signed_after("Invalid whitespace at position n where n is around ", pos)
}

pub fn err_unrecognized_token(pos: i32) -> (r: String)
    ensures
        r@ == unrecognized_token_msg(pos as int),
{
    signed_after("Unrecognized token at position n where n is around ", pos)
}

pub fn err_invalid_primitive(pos: i32) -> (r: String)
    ensures
        r@ == invalid_primitive_msg(pos as int),
{
    signed_after("Invalid primitive at position n where n is around ", pos)
}

pub fn err_invalid_primitive_access_region(pos: usize) -> (r: String)
    ensures
        r@ == invalid_primitive_access_region_msg(pos as nat),
{
    unsigned_after("Attempting to access primitive outside the Layers Region at the nth token, where n is around ", pos as u64)
}

pub fn err_invalid_primitive_access_gates(pos: usize) -> (r: String)
    ensures
        r@ == invalid_primitive_access_gates_msg(pos as nat),
{
    unsigned_after("Attempting to access primitive when the Layers gates aren't fully open at the nth token, where n is around ", pos as u64)
}

pub fn err_invalid_cell_access_region(pos: usize) -> (r: String)
    ensures
        r@ == invalid_cell_access_region_msg(pos as nat),
{
    unsigned_after("Attempting to access cell outside the Cells Region at the nth token, where n is around ", pos as u64)
}

pub fn err_expected_cell_expression_after(pos: usize) -> (r: String)
    ensures
        r@ == expected_cell_expression_after_msg(pos as nat),
{
    unsigned_after("Expected cell expression after the nth token, where n is around ", pos as u64)
}

pub fn err_expected_cell_expression(pos: usize) -> (r: String)
    ensures
        r@ == expected_cell_expression_msg(pos as nat),
{
    unsigned_after("Expected cell expression at the nth token, where n is around ", pos as u64)
}

pub fn err_drill_in_cells(pos: usize) -> (r: String)
    ensures
        r@ == drill_in_cells_msg(pos as nat),
{
    unsigned_after("Attempt to drill in the Cells Region at the nth token, where n is around ", pos as u64)
}

pub fn err_chained_leach_expression_must_end_in_massacre(pos: usize) -> (r: String)
    ensures
        r@ == chained_leach_expression_must_end_in_massacre_msg(pos as nat),
{
    around("Chained leach expression at the nth token, where n is around ", pos as u64, ", does not end in a massacre. A chained leach expression must end in a massacre")
}

pub fn err_attempt_to_jump_to_non_existent_label(pos: usize) -> (r: String)
    ensures
        r@ == attempt_to_jump_to_non_existent_label_msg(pos as nat),
{
    unsigned_after("Attempt to jump to non existent label at the nth token, where n is around ", pos as u64)
}

pub fn err_leach_expression_must_start_with_primitive_or_cell(pos: usize) -> (r: String)
    ensures
        r@ == leach_expression_must_start_with_primitive_or_cell_msg(pos as nat),
{
    around("The leach expression at the nth token, where n is around ", pos as u64, ", does not begin with a primitive or Cell")
}

pub fn err_attempt_to_leach_expr_onto_itself(pos: usize) -> (r: String)
    ensures
        r@ == attempt_to_leach_expr_onto_itself_msg(pos as nat),
{
    unsigned_after("Attempt to leach expression onto itself at the nth token, where n is around ", pos as u64)
}

pub fn err_chain_leach_expression_ending_without_chain_leach_expression(pos: usize) -> (r: String)
    ensures
        r@ == chain_leach_expression_ending_without_chain_leach_expression_msg(pos as nat),
{
    unsigned_after("Ending a chain leach expression without a chain leach expression at the nth token, where n is around ", pos as u64)
}

pub fn err_triple_six_eq_not_expected_here(pos: usize) -> (r: String)
    ensures
        r@ == triple_six_eq_not_expected_here_msg(pos as nat),
{
    unsigned_after("^^^^^^666^^^^^^= not expected at the nth token, where n is around ", pos as u64)
}

pub fn err_triple_six_not_expected_here(pos: usize) -> (r: String)
    ensures
        r@ == triple_six_not_expected_here_msg(pos as nat),
{
    unsigned_after("^^^^^^666^^^^^^ not expected at the nth token, where n is around ", pos as u64)
}

pub fn err_org_expr_must_end_in_death() -> (r: String)
    ensures
        r@ == death_msg(),
{
    String::from_str("A Mindbend program must end in the death of the Organism Expression")
}

pub fn err_invalid_primitive_access_region_not_layers_runtime() -> (r: String)
    ensures
        r@ == primitive_region_runtime_msg(),
{
    String::from_str("Attempt to access primitive when not in layers region\n")
}

pub fn err_invalid_primitive_access_gates_not_open_runtime() -> (r: String)
    ensures
        r@ == primitive_gates_runtime_msg(),
{
    String::from_str("Attempt to access primitive when the gates aren't open\n")
}

pub fn err_invalid_gate_access_region_not_layers_runtime() -> (r: String)
    ensures
        r@ == gate_region_runtime_msg(),
{
    String::from_str("Attempt to drill gates when not in the Layers Region\n")
}

pub fn err_attempt_to_use_non_function_primitive_to_massacre() -> (r: String)
    ensures
        r@ == non_function_runtime_msg(),
{
    String::from_str("Attempt to use non-function primitive to massacre\n")
}

pub fn err_invalid_cell_access_region_runtime() -> (r: String)
    ensures
        r@ == cell_region_runtime_msg(),
{
    String::from_str("Attempting to access cell outside the Cells Region\n")
}

pub fn err_invalid_primitive_access_runtime() -> (r: String)
    ensures
        r@ == primitive_access_runtime_msg(),
{
    String::from_str("Attempt to access primitive either when gates are closed or not in Layers Region\n")
}

pub fn err_attempt_to_leach_death_expression_onto_another_cell() -> (r: String)
    ensures
        r@ == death_leach_runtime_msg(),
{
    String::from_str("Attempt to leach death expression onto another Cell\n")
}
pub fn err_expected(pos: i32, expected: &str) -> (r: String)
    ensures
        r@ == expected_msg(pos as int, expected@),
{
    let mut s = String::from_str("Expected ");
    s.append(expected);
    let tail = signed_after(" at position n where n is around ", pos);
    s.append(tail.as_str());
    proof { reveal_strlit(""); }
    assert(tail@ == " at position n where n is around "@ + signed_decimal(pos as int));
    s
}

pub fn err_unrecognized_region(pos: usize, found: String) -> (r: String)
    ensures
        r@ == unrecognized_region_msg(pos as nat, found@),
{
    named_at("Use of unrecognized region ", found, pos)
}

pub fn err_unrecognized_cell(pos: usize, found: String) -> (r: String)
    ensures
        r@ == unrecognized_cell_msg(pos as nat, found@),
{
    named_at("Use of unrecognized cell ", found, pos)
}

fn named_at(prefix: &str, found: String, pos: usize) -> (r: String)
    ensures
        r@ == prefix@ + found@ + " at the nth token, where n is around "@ + decimal(pos as nat),
{
    let mut s = String::from_str(prefix);
    s.append(found.as_str());
    let tail = unsigned_after(" at the nth token, where n is around ", pos as u64);
    s.append(tail.as_str());
    proof { reveal_strlit(""); }
    assert(tail@ == " at the nth token, where n is around "@ + decimal(pos as nat));
    s
}

pub fn err_duplicate_label(pos1: usize, pos2: usize) -> (r: String)
    ensures
        r@ == duplicate_label_msg(pos1 as nat, pos2 as nat),
{
    let mut s = around(
        "Label name at the nth token duplicated in the label name at the mth token, where n is around ",
        pos1 as u64,
        " and m is around ",
    );
    let second = decimal_string(pos2 as u64);
    s.append(second.as_str());
    s
}

} // verus!
