//! The calculator state machine: input buffer, pending operator and
//! operand, last result and error, and the derived display text.

use crate::fixed::{in_range, Fixed};
use crate::operations::{op_apply, Operator};
use crate::text::{format_units, input_units, parse_text, push_char, text_of};
use vstd::prelude::*;

verus! {

/// The mathematical image of the calculator: texts as character
/// sequences, numbers as unit counts.
#[verifier::ext_equal]
pub ghost struct CalcModel {
    pub display: Seq<char>,
    pub input: Option<Seq<char>>,
    pub result: Option<int>,
    pub error: Option<Seq<char>>,
    pub operator: Option<Operator>,
    pub operand: Option<int>,
}

/// The message shown when dividing by zero.
pub open spec fn divide_by_zero_text() -> Seq<char> {
    "Divide by Zero"@
}

/// The message shown when a calculation cannot be carried out.
pub open spec fn calc_error_text() -> Seq<char> {
    "Calculation Error"@
}

/// The display text the input buffer alone calls for: the parsed value
/// rewritten in display form, or `"0"` when nothing parses.
pub open spec fn input_display(input: Option<Seq<char>>) -> Seq<char> {
    match input {
        Some(s) => match input_units(s) {
            Some(v) => format_units(v),
            None => seq!['0'],
        },
        None => seq!['0'],
    }
}

/// The display text the fields call for: error before result before
/// input, with `"0"` as the default.
pub open spec fn display_of(m: CalcModel) -> Seq<char> {
    match m.error {
        Some(e) => e,
        None => match m.result {
            Some(r) => format_units(r),
            None => input_display(m.input),
        },
    }
}

/// `m` with its display recomputed from its other fields.
pub open spec fn redisplayed(m: CalcModel) -> CalcModel {
    CalcModel { display: display_of(m), ..m }
}

/// The state every transition resets to.
pub open spec fn cleared() -> CalcModel {
    CalcModel {
        display: seq!['0'],
        input: None,
        result: None,
        error: None,
        operator: None,
        operand: None,
    }
}

/// What pressing a digit or point character does: a finished or failed
/// calculation is discarded first, then the character joins the buffer
/// and the display is recomputed.
pub open spec fn spec_update_input(m: CalcModel, c: char) -> CalcModel {
    let base = if m.result is Some || m.error is Some {
        cleared()
    } else {
        m
    };
    let ni = match base.input {
        Some(s) => s.push(c),
        None => seq![c],
    };
    redisplayed(CalcModel { input: Some(ni), ..base })
}

/// What selecting an operator does: the first operator press locks the
/// typed value in as the operand; the operator itself is always
/// replaced; the display stays as it was.
pub open spec fn spec_update_operator(m: CalcModel, op: Operator) -> CalcModel {
    if m.operand is None && m.input is Some && input_units(m.input->0) is Some {
        CalcModel {
            operand: Some(input_units(m.input->0)->0),
            input: None,
            operator: Some(op),
            ..m
        }
    } else {
        CalcModel { operator: Some(op), ..m }
    }
}

/// What inverting the sign does: when the buffer holds a value, the
/// buffer is rewritten as the negated value's display text; otherwise
/// nothing happens.
pub open spec fn spec_invert_input(m: CalcModel) -> CalcModel {
    if m.input is Some && input_units(m.input->0) is Some {
        redisplayed(CalcModel { input: Some(format_units(-input_units(m.input->0)->0)), ..m })
    } else {
        m
    }
}

/// The right-hand value `calculate` works from: the typed value when the
/// buffer parses, else the previous result.
pub open spec fn target_value(m: CalcModel) -> Option<int> {
    match m.input {
        Some(s) => match input_units(s) {
            Some(v) => Some(v),
            None => m.result,
        },
        None => m.result,
    }
}

/// What the equals press does.  With an operand and an operator pending:
/// dividing by zero resets everything and reports it; a representable
/// result is stored and shown; a value out of range, or no right-hand
/// value at all, reports a calculation error.  Otherwise nothing happens.
pub open spec fn spec_calculate(m: CalcModel) -> CalcModel {
    if m.operand is Some && m.operator is Some {
        match target_value(m) {
            Some(v) => {
                if m.operator->0 is Divide && v == 0 {
                    redisplayed(CalcModel { error: Some(divide_by_zero_text()), ..cleared() })
                } else {
                    let exact = op_apply(m.operator->0, m.operand->0, v);
                    if in_range(exact) {
                        redisplayed(CalcModel { result: Some(exact), input: None, ..m })
                    } else {
                        redisplayed(CalcModel { error: Some(calc_error_text()), result: None, ..m })
                    }
                }
            }
            None => redisplayed(CalcModel { error: Some(calc_error_text()), result: None, ..m }),
        }
    } else {
        m
    }
}

/// The calculator.  The display is derived text: every transition that
/// changes the other fields recomputes it, except operator selection,
/// which leaves it as it was.
#[derive(Debug)]
pub struct CalcState {
    pub display: String,
    pub input: Option<String>,
    pub result: Option<Fixed>,
    pub error: Option<String>,
    pub operator: Option<Operator>,
    pub operand: Option<Fixed>,
}

impl View for CalcState {
    type V = CalcModel;

    open spec fn view(&self) -> CalcModel {
        CalcModel {
            display: self.display@,
            input: match self.input {
                Some(s) => Some(s@),
                None => None,
            },
            result: match self.result {
                Some(f) => Some(f@),
                None => None,
            },
            error: match self.error {
                Some(e) => Some(e@),
                None => None,
            },
            operator: self.operator,
            operand: match self.operand {
                Some(f) => Some(f@),
                None => None,
            },
        }
    }
}

impl CalcState {
    /// A fresh calculator showing `"0"`.
    pub fn new() -> (r: CalcState)
        ensures
            r@ == cleared(),
    {
        let r = CalcState {
            display: String::from_str("0"),
            input: None,
            result: None,
            error: None,
            operator: None,
            operand: None,
        };
        proof {
            reveal_strlit("0");
            assert(r@ =~= cleared());
        }
        r
    }

    /// Resets every field; the display shows `"0"` again.
    pub fn clear(&mut self)
        ensures
            final(self)@ == cleared(),
    {
        self.display = String::from_str("0");
        self.input = None;
        self.result = None;
        self.error = None;
        self.operator = None;
        self.operand = None;
        proof {
            reveal_strlit("0");
            assert(self@ =~= cleared());
        }
    }

    /// The value the input buffer holds: text of exactly `"."` counts as
    /// zero, anything else is parsed as numeric text.
    fn get_input_value(&self) -> (r: Option<Fixed>)
        ensures
            r is Some <==> (self@.input matches Some(s) && input_units(s) is Some),
            r matches Some(v) ==> Some(v@) == input_units(self@.input->0),
    {
        match &self.input {
            Some(input) => {
                let b = input.as_str();
                let n = b.unicode_len();
                if n == 1 && b.get_char(0) == '.' {
                    proof {
                        assert(input@ =~= seq!['.']);
                    }
                    Some(Fixed::from_units(0))
                } else {
                    proof {
                        assert(!(input@ =~= seq!['.']));
                    }
                    parse_text(b)
                }
            }
            None => None,
        }
    }

    /// Recomputes the display from the other fields.
    fn update_display(&mut self)
        ensures
            final(self)@ == redisplayed(old(self)@),
    {
        if let Some(e) = &self.error {
            self.display = e.clone();
            proof {
                assert(self@ =~= redisplayed(old(self)@));
            }
            return ;
        }
        if let Some(r) = self.result {
            self.display = text_of(r);
            proof {
                assert(self@ =~= redisplayed(old(self)@));
            }
            return ;
        }
        match self.get_input_value() {
            Some(v) => {
                self.display = text_of(v);
            }
            None => {
                self.display = String::from_str("0");
                proof {
                    reveal_strlit("0");
                }
            }
        }
        proof {
            assert(self@ =~= redisplayed(old(self)@));
        }
    }

    /// Appends a typed character to the input buffer, discarding a
    /// finished or failed calculation first.
    pub fn update_input(&mut self, n: char)
        ensures
            final(self)@ == spec_update_input(old(self)@, n),
    {
        if self.result.is_some() || self.error.is_some() {
            self.clear();
        }
        match &mut self.input {
            Some(input) => {
                push_char(input, n);
            }
            None => {
                let mut s = String::new();
                push_char(&mut s, n);
                self.input = Some(s);
            }
        }
        self.update_display();
        proof {
            assert(self@ =~= spec_update_input(old(self)@, n));
        }
    }

    /// Replaces the input buffer with the negated value's display text,
    /// when the buffer holds a value.
    pub fn invert_input(&mut self)
        ensures
            final(self)@ == spec_invert_input(old(self)@),
    {
        if let Some(v) = self.get_input_value() {
            proof {
                use_type_invariant(&v);
            }
            let u = v.units();
            let neg = Fixed::from_units(-u);
            self.input = Some(text_of(neg));
            self.update_display();
            proof {
                assert(self@ =~= spec_invert_input(old(self)@));
            }
        }
    }

    /// Selects the operator, locking the typed value in as the operand
    /// on the first operator press.
    pub fn update_operator(&mut self, op: Operator)
        ensures
            final(self)@ == spec_update_operator(old(self)@, op),
    {
        if self.operand.is_none() {
            if let Some(value) = self.get_input_value() {
                self.operand = Some(value);
                self.input = None;
            }
        }
        self.operator = Some(op);
        proof {
            assert(self@ =~= spec_update_operator(old(self)@, op));
        }
    }

    /// Folds the pending operand and operator against the right-hand
    /// value: the typed one, or the previous result under repeated
    /// equals presses.
    pub fn calculate(&mut self)
        ensures
            final(self)@ == spec_calculate(old(self)@),
    {
        if self.operand.is_some() && self.operator.is_some() {
            let target = match self.get_input_value() {
                Some(value) => Some(value),
                None => self.result,
            };
            match (self.operand, self.operator, target) {
                (Some(operand), Some(operator), Some(value)) => {
                    if operator == Operator::Divide && value.units() == 0 {
                        self.clear();
                        self.error = Some(String::from_str("Divide by Zero"));
                        self.update_display();
                        proof {
                            assert(self@ =~= spec_calculate(old(self)@));
                        }
                    } else {
                        match operator.calculate(operand, value) {
                            Some(r) => {
                                self.result = Some(r);
                                self.input = None;
                                self.update_display();
                            }
                            None => {
                                self.error = Some(String::from_str("Calculation Error"));
                                self.result = None;
                                self.update_display();
                            }
                        }
                        proof {
                            assert(self@ =~= spec_calculate(old(self)@));
                        }
                    }
                }
                _ => {
                    self.error = Some(String::from_str("Calculation Error"));
                    self.result = None;
                    self.update_display();
                    proof {
                        assert(self@ =~= spec_calculate(old(self)@));
                    }
                }
            }
        }
    }
}

} // verus!

