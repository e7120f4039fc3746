//! Core of a terminal calculator: a single accumulator driven by discrete
//! button presses (digits, operators, decimal point, sign-invert, clear,
//! equals).  Numbers are exact fixed-point decimals with ten decimal places;
//! every state transition is specified and verified.

pub mod buttons;
pub mod fixed;
pub mod laws;
pub mod operations;
pub mod state;
pub mod text;
