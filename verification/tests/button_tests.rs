use calculaterm::buttons::{u8_to_char, Button, ButtonType};
use calculaterm::operations::Operator;

#[test]
fn operator_labels_map_both_ways() {
    for (label, op) in [
        ('+', Operator::Add),
        ('-', Operator::Subtract),
        ('x', Operator::Multiply),
        ('/', Operator::Divide),
    ] {
        assert!(matches!(
            Button::button_type(label),
            Some(ButtonType::Operator(o)) if o == op
        ));
        assert_eq!(Button::new(ButtonType::Operator(op)).label, label);
    }
}

#[test]
fn control_labels_map_both_ways() {
    assert!(matches!(Button::button_type('='), Some(ButtonType::Calculate)));
    assert!(matches!(Button::button_type('.'), Some(ButtonType::Decimal)));
    assert!(matches!(Button::button_type('±'), Some(ButtonType::Invert)));
    assert!(matches!(Button::button_type('C'), Some(ButtonType::Clear)));
    assert!(matches!(Button::button_type('c'), Some(ButtonType::Clear)));
    assert!(matches!(Button::button_type('%'), Some(ButtonType::Percent)));
    assert_eq!(Button::new(ButtonType::Calculate).label, '=');
    assert_eq!(Button::new(ButtonType::Decimal).label, '.');
    assert_eq!(Button::new(ButtonType::Invert).label, '±');
    assert_eq!(Button::new(ButtonType::Clear).label, 'C');
    assert_eq!(Button::new(ButtonType::Percent).label, '%');
}

#[test]
fn digit_labels_map_both_ways() {
    for d in 0u8..=9 {
        let label = (b'0' + d) as char;
        assert!(matches!(
            Button::button_type(label),
            Some(ButtonType::Numeric(n)) if n == d
        ));
        assert_eq!(Button::new(ButtonType::Numeric(d)).label, label);
    }
}

#[test]
fn unknown_labels_map_to_nothing() {
    for label in ['a', 'Z', ' ', '!', '*', '\n'] {
        assert!(Button::button_type(label).is_none());
    }
}

#[test]
fn digits_become_their_characters() {
    for d in 0u8..=9 {
        assert_eq!(u8_to_char(&d), (b'0' + d) as char);
    }
}
