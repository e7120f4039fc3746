//! The calculator's buttons: the semantic identifier behind each key or
//! grid cell, its printable label, and the dispatch onto the state
//! machine.

use crate::operations::Operator;
use crate::state::{
    cleared, spec_calculate, spec_invert_input, spec_update_input, spec_update_operator, CalcModel,
    CalcState,
};
use crate::text::{digit_char, digit_char_exec, is_digit};
use vstd::prelude::*;

verus! {

/// What a button means: an operation, a control action, or a digit.
/// `Percent` is reserved and unimplemented.
#[derive(Debug, Clone, Copy, PartialEq, Eq, Structural)]
pub enum ButtonType {
    Operator(Operator),
    Calculate,
    Decimal,
    Invert,
    Clear,
    Percent,
    Numeric(u8),
}

/// What one button press does to the calculator.  `Percent` is left
/// undefined (the press itself is ruled out) and leaves the state alone.
pub open spec fn spec_press(b: ButtonType, m: CalcModel) -> CalcModel {
    match b {
        ButtonType::Clear => cleared(),
        ButtonType::Numeric(n) => spec_update_input(m, digit_char(n as int)),
        ButtonType::Operator(op) => spec_update_operator(m, op),
        ButtonType::Decimal => spec_update_input(m, '.'),
        ButtonType::Calculate => spec_calculate(m),
        ButtonType::Percent => m,
        ButtonType::Invert => spec_invert_input(m),
    }
}

impl ButtonType {
    /// Routes the press to the matching transition.  `Percent` is
    /// reserved: callers must not press it.
    pub fn press(self, state: &mut CalcState)
        requires
            !(self is Percent),
            self matches ButtonType::Numeric(n) ==> n <= 9,
        ensures
            final(state)@ == spec_press(self, old(state)@),
    {
        match self {
            ButtonType::Clear => state.clear(),
            ButtonType::Numeric(n) => state.update_input(u8_to_char(&n)),
            ButtonType::Operator(op) => state.update_operator(op),
            ButtonType::Decimal => state.update_input('.'),
            ButtonType::Calculate => state.calculate(),
            ButtonType::Percent => {
                proof {
                    assert(false);
                }
            }
            ButtonType::Invert => state.invert_input(),
        }
    }
}

/// The label drawn on a button and matched against typed characters.
pub open spec fn label_of(b: ButtonType) -> char {
    match b {
        ButtonType::Operator(op) => match op {
            Operator::Add => '+',
            Operator::Subtract => '-',
            Operator::Multiply => 'x',
            Operator::Divide => '/',
        },
        ButtonType::Calculate => '=',
        ButtonType::Decimal => '.',
        ButtonType::Invert => '±',
        ButtonType::Clear => 'C',
        ButtonType::Percent => '%',
        ButtonType::Numeric(n) => digit_char(n as int),
    }
}

/// The button a typed character selects, if any: the four operators,
/// equals, point, sign inversion, clear in either case, percent, or a
/// digit.
pub open spec fn button_of(label: char) -> Option<ButtonType> {
    if label == '+' {
        Some(ButtonType::Operator(Operator::Add))
    } else if label == '-' {
        Some(ButtonType::Operator(Operator::Subtract))
    } else if label == 'x' {
        Some(ButtonType::Operator(Operator::Multiply))
    } else if label == '/' {
        Some(ButtonType::Operator(Operator::Divide))
    } else if label == '=' {
        Some(ButtonType::Calculate)
    } else if label == '.' {
        Some(ButtonType::Decimal)
    } else if label == '±' {
        Some(ButtonType::Invert)
    } else if label == 'C' || label == 'c' {
        Some(ButtonType::Clear)
    } else if label == '%' {
        Some(ButtonType::Percent)
    } else if is_digit(label) {
        Some(ButtonType::Numeric((label as u32 - 48) as u8))
    } else {
        None
    }
}

/// A button of the grid: its semantic type and its printable label.
#[derive(Debug)]
pub struct Button {
    pub button_type: ButtonType,
    pub label: char,
}

impl Button {
    /// A button of the given type, labelled per `label_of`.
    pub fn new(button_type: ButtonType) -> (r: Self)
        requires
            button_type matches ButtonType::Numeric(n) ==> n <= 9,
        ensures
            r.label == label_of(button_type),
    {
        let label = Self::button_char(&button_type);
        Self { button_type, label }
    }

    /// The printable label of each button type.
    fn button_char(button_type: &ButtonType) -> (c: char)
        requires
            *button_type matches ButtonType::Numeric(n) ==> n <= 9,
        ensures
            c == label_of(*button_type),
    {
        match button_type {
            ButtonType::Operator(op) => match op {
                Operator::Add => '+',
                Operator::Subtract => '-',
                Operator::Multiply => 'x',
                Operator::Divide => '/',
            },
            ButtonType::Calculate => '=',
            ButtonType::Decimal => '.',
            ButtonType::Invert => '±',
            ButtonType::Clear => 'C',
            ButtonType::Percent => '%',
            ButtonType::Numeric(n) => u8_to_char(n),
        }
    }

    /// The button a typed character selects, if any.
    pub fn button_type(label: char) -> (r: Option<ButtonType>)
        ensures
            r == button_of(label),
    {
        let lc = label as u32;
        if label == '+' {
            Some(ButtonType::Operator(Operator::Add))
        } else if label == '-' {
            Some(ButtonType::Operator(Operator::Subtract))
        } else if label == 'x' {
            Some(ButtonType::Operator(Operator::Multiply))
        } else if label == '/' {
            Some(ButtonType::Operator(Operator::Divide))
        } else if label == '=' {
            Some(ButtonType::Calculate)
        } else if label == '.' {
            Some(ButtonType::Decimal)
        } else if label == '±' {
            Some(ButtonType::Invert)
        } else if label == 'C' || label == 'c' {
            Some(ButtonType::Clear)
        } else if label == '%' {
            Some(ButtonType::Percent)
        } else if 48 <= lc && lc <= 57 {
            Some(ButtonType::Numeric((lc - 48) as u8))
        } else {
            None
        }
    }
}

/// The digit character for the digit `n`.
pub fn u8_to_char(n: &u8) -> (c: char)
    requires
        *n <= 9,
    ensures
        c == digit_char(*n as int),
{
    digit_char_exec(*n)
}

} // verus!
