use calculaterm::buttons::Button;
use calculaterm::state::CalcState;

fn press_chars(state: &mut CalcState, keys: &str) {
    for c in keys.chars() {
        let b = Button::button_type(c).expect("unmapped label");
        b.press(state);
    }
}

fn fresh(keys: &str) -> CalcState {
    let mut state = CalcState::new();
    press_chars(&mut state, keys);
    state
}

#[test]
fn new_shows_zero() {
    let state = CalcState::new();
    assert_eq!(state.display, "0");
    assert!(state.input.is_none());
    assert!(state.result.is_none());
    assert!(state.error.is_none());
    assert!(state.operator.is_none());
    assert!(state.operand.is_none());
}

#[test]
fn digit_entry_shows_digits() {
    assert_eq!(fresh("1").display, "1");
    assert_eq!(fresh("123").display, "123");
    assert_eq!(fresh("007").display, "7");
}

#[test]
fn decimal_entry_trims() {
    assert_eq!(fresh("4.5").display, "4.5");
    assert_eq!(fresh("0.50").display, "0.5");
    assert_eq!(fresh(".5").display, "0.5");
    assert_eq!(fresh("2.").display, "2");
}

#[test]
fn bare_point_counts_as_zero() {
    assert_eq!(fresh(".").display, "0");
}

#[test]
fn second_point_spoils_the_buffer() {
    assert_eq!(fresh("1.2.3").display, "0");
}

#[test]
fn clear_restores_zero_after_entry() {
    let mut state = fresh("123");
    press_chars(&mut state, "C");
    assert_eq!(state.display, "0");
    assert!(state.input.is_none());
    assert!(state.result.is_none());
    assert!(state.error.is_none());
    assert!(state.operator.is_none());
    assert!(state.operand.is_none());
}

#[test]
fn clear_twice_equals_clear_once() {
    let mut once = fresh("12x3=");
    once.clear();
    let mut twice = fresh("12x3=");
    twice.clear();
    twice.clear();
    assert_eq!(once.display, twice.display);
    assert_eq!(once.display, "0");
    assert!(once.input.is_none() && twice.input.is_none());
    assert!(once.result.is_none() && twice.result.is_none());
    assert!(once.error.is_none() && twice.error.is_none());
    assert!(once.operator.is_none() && twice.operator.is_none());
    assert!(once.operand.is_none() && twice.operand.is_none());
}

#[test]
fn lowercase_c_clears_too() {
    let mut state = fresh("123");
    press_chars(&mut state, "c");
    assert_eq!(state.display, "0");
}

#[test]
fn addition() {
    assert_eq!(fresh("5+3=").display, "8");
}

#[test]
fn subtraction_below_zero() {
    assert_eq!(fresh("3-5=").display, "-2");
}

#[test]
fn multiplication() {
    assert_eq!(fresh("2x2=").display, "4");
}

#[test]
fn division_with_fraction() {
    assert_eq!(fresh("7/2=").display, "3.5");
}

#[test]
fn division_rounds_to_ten_places() {
    assert_eq!(fresh("1/3=").display, "0.3333333333");
    assert_eq!(fresh("2/3=").display, "0.6666666667");
}

#[test]
fn computed_results_trim_zeros_and_point() {
    assert_eq!(fresh("5/2=").display, "2.5");
    assert_eq!(fresh("8/2=").display, "4");
}

#[test]
fn divide_by_zero_resets_and_reports() {
    let state = fresh("5/0=");
    assert_eq!(state.display, "Divide by Zero");
    assert!(state.operand.is_none());
    assert!(state.operator.is_none());
    assert!(state.result.is_none());
    assert!(state.input.is_none());
    assert_eq!(state.error.as_deref(), Some("Divide by Zero"));
}

#[test]
fn chained_equals_reapplies_operator() {
    let mut state = fresh("5+3=");
    assert_eq!(state.display, "8");
    press_chars(&mut state, "=");
    // The pending operand is still 5; the right-hand value falls back to
    // the previous result 8.
    assert_eq!(state.display, "13");
}

#[test]
fn sign_inversion_round_trip() {
    let mut state = fresh("4.5");
    press_chars(&mut state, "±");
    assert_eq!(state.display, "-4.5");
    press_chars(&mut state, "±");
    assert_eq!(state.display, "4.5");
}

#[test]
fn sign_inversion_without_input_is_a_no_op() {
    let mut state = fresh("5+3=");
    press_chars(&mut state, "±");
    assert_eq!(state.display, "8");
}

#[test]
fn digit_after_result_starts_fresh() {
    let mut state = fresh("5+3=");
    press_chars(&mut state, "7");
    assert_eq!(state.display, "7");
    assert_eq!(state.input.as_deref(), Some("7"));
    assert!(state.result.is_none());
    assert!(state.operand.is_none());
    assert!(state.operator.is_none());
}

#[test]
fn digit_after_error_starts_fresh() {
    let mut state = fresh("5/0=");
    press_chars(&mut state, "9");
    assert_eq!(state.display, "9");
    assert_eq!(state.input.as_deref(), Some("9"));
    assert!(state.error.is_none());
}

#[test]
fn equals_without_right_hand_value_reports() {
    let state = fresh("5+=");
    assert_eq!(state.display, "Calculation Error");
    assert_eq!(state.error.as_deref(), Some("Calculation Error"));
    assert!(state.result.is_none());
}

#[test]
fn equals_without_operator_is_a_no_op() {
    let state = fresh("5=");
    assert_eq!(state.display, "5");
}

#[test]
fn operator_press_keeps_the_display() {
    let state = fresh("5+");
    assert_eq!(state.display, "5");
    assert!(state.input.is_none());
}

#[test]
fn repeated_operator_presses_replace() {
    assert_eq!(fresh("5+x2=").display, "10");
}

#[test]
fn out_of_range_entry_shows_zero() {
    assert_eq!(fresh("1000000000").display, "1000000000");
    assert_eq!(fresh("1000000001").display, "0");
}

#[test]
fn out_of_range_result_reports() {
    let state = fresh("1000000000x1000000000=");
    assert_eq!(state.display, "Calculation Error");
}

#[test]
fn eleventh_decimal_rounds_up() {
    assert_eq!(fresh("0.00000000005").display, "0.0000000001");
    assert_eq!(fresh("0.00000000004").display, "0");
}
