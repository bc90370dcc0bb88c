use mindbend::decimal::decimal_string;
use mindbend::errors;

#[test]
fn positions_are_written_in_decimal() {
    assert_eq!(decimal_string(0), "0");
    assert_eq!(decimal_string(7), "7");
    assert_eq!(decimal_string(10), "10");
    assert_eq!(decimal_string(1234567890), "1234567890");
}

#[test]
fn compile_time_messages() {
    assert_eq!(errors::err_whitespace(12), "Invalid whitespace at position n where n is around 12");
    assert_eq!(errors::err_unrecognized_token(-3), "Unrecognized token at position n where n is around -3");
    assert_eq!(errors::err_expected(4, ":"), "Expected : at position n where n is around 4");
    assert_eq!(
        errors::err_chained_leach_expression_must_end_in_massacre(5),
        "Chained leach expression at the nth token, where n is around 5, does not end in a massacre. A chained leach expression must end in a massacre"
    );
    assert_eq!(
        errors::err_duplicate_label(1, 30),
        "Label name at the nth token duplicated in the label name at the mth token, where n is around 1 and m is around 30"
    );
    assert_eq!(
        errors::err_unrecognized_cell(2, String::from("Z")),
        "Use of unrecognized cell Z at the nth token, where n is around 2"
    );
    assert_eq!(
        errors::err_unrecognized_region(9, String::from("Q")),
        "Use of unrecognized region Q at the nth token, where n is around 9"
    );
    assert_eq!(
        errors::err_invalid_primitive_access_region(3),
        "Attempting to access primitive outside the Layers Region at the nth token, where n is around 3"
    );
    assert_eq!(
        errors::err_triple_six_eq_not_expected_here(8),
        "^^^^^^666^^^^^^= not expected at the nth token, where n is around 8"
    );
}

#[test]
fn runtime_messages() {
    assert_eq!(
        errors::err_attempt_to_leach_death_expression_onto_another_cell(),
        "Attempt to leach death expression onto another Cell\n"
    );
    assert_eq!(
        errors::err_invalid_cell_access_region_runtime(),
        "Attempting to access cell outside the Cells Region\n"
    );
    assert_eq!(
        errors::err_attempt_to_use_non_function_primitive_to_massacre(),
        "Attempt to use non-function primitive to massacre\n"
    );
}
