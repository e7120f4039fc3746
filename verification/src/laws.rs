//! Laws of the state machine that span several transitions: digit entry,
//! double sign inversion, idempotent clearing, and the fresh start after
//! a result or an error.

use crate::buttons::{spec_press, ButtonType};
use crate::fixed::{in_range, MAX_UNITS, SCALE};
use crate::state::{
    cleared, display_of, input_display, spec_invert_input, spec_update_input, CalcModel,
};
use crate::text::{
    all_digits, body_units, body_well_formed, digits_val, format_units, frac_part, frac_units,
    frac_window, input_units, is_digit, lemma_digits_val_nonneg, lemma_padded_all_digits,
    lemma_padded_val, lemma_parse_format, lemma_point_pos_is, padded_digits, parse_units, pow10,
};
use vstd::prelude::*;

verus! {

/// The state after pressing each character of `ds` in turn into the
/// input buffer.
pub open spec fn feed_input(m: CalcModel, ds: Seq<char>) -> CalcModel
    decreases ds.len(),
{
    if ds.len() == 0 {
        m
    } else {
        feed_input(spec_update_input(m, ds[0]), ds.drop_first())
    }
}

/// Text made of digits alone parses to its digit value, scaled; it needs
/// only to fit the representable range.
pub proof fn lemma_digit_text_value(ds: Seq<char>)
    requires
        ds.len() >= 1,
        all_digits(ds),
        digits_val(ds) * (SCALE as int) <= MAX_UNITS as int,
    ensures
        input_units(ds) == Some(digits_val(ds) * (SCALE as int)),
{
    assert('.' as u32 == 46 && '-' as u32 == 45);
    assert(is_digit(ds[0]));
    assert(!(ds =~= seq!['.']));
    assert(body_well_formed(ds));
    lemma_point_pos_is(ds, ds.len() as int);
    assert(ds.subrange(0, ds.len() as int) =~= ds);
    assert(frac_part(ds) =~= Seq::<char>::empty());
    assert(frac_window(Seq::<char>::empty()) =~= padded_digits(0, 10));
    reveal_with_fuel(pow10, 12);
    lemma_padded_val(0, 10);
    lemma_padded_all_digits(0, 10);
    assert(frac_units(frac_part(ds)) == 0);
    assert(body_units(ds) == digits_val(ds) * (SCALE as int));
    lemma_digits_val_nonneg(ds);
    assert(ds[0] != '-');
    assert(parse_units(ds) == Some(digits_val(ds) * (SCALE as int)));
}

/// Feeding characters into a state that holds a buffer and no result or
/// error only extends the buffer, and the display follows the buffer.
proof fn lemma_feed_input_go(m: CalcModel, p: Seq<char>, ds: Seq<char>)
    requires
        m.result is None,
        m.error is None,
        m.input == Some(p),
    ensures
        feed_input(m, ds).result is None,
        feed_input(m, ds).error is None,
        feed_input(m, ds).operator == m.operator,
        feed_input(m, ds).operand == m.operand,
        feed_input(m, ds).input == Some(p + ds),
        feed_input(m, ds).display == if ds.len() == 0 {
            m.display
        } else {
            input_display(Some(p + ds))
        },
    decreases ds.len(),
{
    if ds.len() == 0 {
        assert(p + ds =~= p);
    } else {
        let m1 = spec_update_input(m, ds[0]);
        assert(m1.input == Some(p.push(ds[0])));
        lemma_feed_input_go(m1, p.push(ds[0]), ds.drop_first());
        assert(p.push(ds[0]) + ds.drop_first() =~= p + ds);
    }
}

/// Typing digits alone from a cleared state: the buffer holds exactly
/// the typed digits and the display shows their value in trimmed
/// decimal form.
pub proof fn lemma_digit_entry(ds: Seq<char>)
    requires
        ds.len() >= 1,
        all_digits(ds),
        digits_val(ds) * (SCALE as int) <= MAX_UNITS as int,
    ensures
        feed_input(cleared(), ds).input == Some(ds),
        feed_input(cleared(), ds).display == format_units(digits_val(ds) * (SCALE as int)),
        feed_input(cleared(), ds).result is None,
        feed_input(cleared(), ds).error is None,
{
    let m1 = spec_update_input(cleared(), ds[0]);
    assert(m1.input == Some(seq![ds[0]]));
    lemma_feed_input_go(m1, seq![ds[0]], ds.drop_first());
    assert(seq![ds[0]] + ds.drop_first() =~= ds);
    lemma_digit_text_value(ds);
    if ds.len() == 1 {
        assert(seq![ds[0]] =~= ds);
    }
}

/// The parsed value of any input buffer is representable.
pub proof fn lemma_input_units_range(s: Seq<char>)
    requires
        input_units(s) is Some,
    ensures
        in_range(input_units(s)->0),
{
    if !(s =~= seq!['.']) {
        if s.len() >= 1 && s[0] == '-' {
            let t = s.subrange(1, s.len() as int);
            lemma_body_units_nonneg(t);
        } else {
            lemma_body_units_nonneg(s);
        }
    }
}

/// Well-formed unsigned numeric text spells a nonnegative value.
proof fn lemma_body_units_nonneg(t: Seq<char>)
    requires
        body_well_formed(t),
    ensures
        body_units(t) >= 0,
{
    crate::text::lemma_point_pos_props(t);
    assert('.' as u32 == 46);
    let ip = t.subrange(0, crate::text::point_pos(t));
    assert(all_digits(ip));
    lemma_digits_val_nonneg(ip);
    let fs = frac_part(t);
    assert(all_digits(fs));
    assert(all_digits(frac_window(fs))) by {
        if fs.len() < 10 {
            lemma_padded_all_digits(0, (10 - fs.len()) as nat);
        }
    }
    lemma_digits_val_nonneg(frac_window(fs));
}

/// Inverting the sign twice restores the display and the buffer's value;
/// the buffer itself is rewritten in canonical display form.
pub proof fn lemma_invert_twice(m: CalcModel)
    requires
        m.display == display_of(m),
        m.input is Some,
        input_units(m.input->0) is Some,
    ensures
        spec_invert_input(spec_invert_input(m)).display == m.display,
        input_units(spec_invert_input(spec_invert_input(m)).input->0) == input_units(m.input->0),
        spec_invert_input(spec_invert_input(m)).input == Some(
            format_units(input_units(m.input->0)->0),
        ),
{
    let v = input_units(m.input->0)->0;
    lemma_input_units_range(m.input->0);
    lemma_parse_format(-v);
    lemma_format_not_point(-v);
    let m1 = spec_invert_input(m);
    assert(m1.input == Some(format_units(-v)));
    assert(input_units(format_units(-v)) == Some(-v));
    lemma_parse_format(v);
    lemma_format_not_point(v);
    let m2 = spec_invert_input(m1);
    assert(m2.input == Some(format_units(v)));
    assert(input_units(format_units(v)) == Some(v));
}

/// A value's display text is never the bare point.
proof fn lemma_format_not_point(n: int)
    ensures
        !(format_units(n) =~= seq!['.']),
{
    crate::text::lemma_format_trimmed(n);
}

/// Whether any error text the state holds is one of the machine's own
/// two messages.
pub open spec fn error_text_wf(m: CalcModel) -> bool {
    m.error matches Some(e) ==> (e == crate::state::divide_by_zero_text() || e
        == crate::state::calc_error_text())
}

/// A state whose error text is the machine's own never calls for an
/// empty display.
proof fn lemma_display_of_nonempty(m: CalcModel)
    requires
        error_text_wf(m),
    ensures
        display_of(m).len() >= 1,
{
    reveal_strlit("Divide by Zero");
    reveal_strlit("Calculation Error");
    if m.error is Some {
    } else if m.result is Some {
        crate::text::lemma_format_trimmed(m.result->0);
    } else if m.input is Some && input_units(m.input->0) is Some {
        crate::text::lemma_format_trimmed(input_units(m.input->0)->0);
    }
}

/// Every press keeps the error text one of the machine's own messages
/// and the display non-empty.
pub proof fn lemma_display_never_empty(b: ButtonType, m: CalcModel)
    requires
        error_text_wf(m),
        m.display.len() >= 1,
    ensures
        error_text_wf(spec_press(b, m)),
        spec_press(b, m).display.len() >= 1,
{
    let m1 = spec_press(b, m);
    assert(error_text_wf(m1));
    lemma_display_of_nonempty(m1);
}

/// Clearing twice is the same as clearing once.
pub proof fn lemma_clear_idempotent(m: CalcModel)
    ensures
        spec_press(ButtonType::Clear, spec_press(ButtonType::Clear, m)) == spec_press(
            ButtonType::Clear,
            m,
        ),
{
}

/// A digit pressed while a result or error is showing discards
/// everything first: the buffer then holds exactly the new character.
pub proof fn lemma_fresh_entry(m: CalcModel, c: char)
    requires
        m.result is Some || m.error is Some,
    ensures
        spec_update_input(m, c).input == Some(seq![c]),
        spec_update_input(m, c).result is None,
        spec_update_input(m, c).error is None,
        spec_update_input(m, c).operator is None,
        spec_update_input(m, c).operand is None,
{
}

} // verus!
