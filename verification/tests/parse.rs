use motion_sim::parse::{parse_line, parse_operand, Command, CommandError};

#[test]
fn operand_with_plus_sign() {
    assert_eq!(parse_operand("+5"), Some(5_000_000));
}

#[test]
fn operand_without_sign() {
    assert_eq!(parse_operand("7.5"), Some(7_500_000));
}

#[test]
fn operand_negative_fraction() {
    assert_eq!(parse_operand("-3.25"), Some(-3_250_000));
}

#[test]
fn operand_full_fraction_width() {
    assert_eq!(parse_operand("12.000001"), Some(12_000_001));
}

#[test]
fn operand_zero() {
    assert_eq!(parse_operand("0"), Some(0));
    assert_eq!(parse_operand("-0"), Some(0));
}

#[test]
fn operand_largest_accepted() {
    assert_eq!(parse_operand("999999999.999999"), Some(999_999_999_999_999));
}

#[test]
fn operand_rejects_empty_and_bare_sign() {
    assert_eq!(parse_operand(""), None);
    assert_eq!(parse_operand("+"), None);
    assert_eq!(parse_operand("-"), None);
}

#[test]
fn operand_rejects_trailing_point() {
    assert_eq!(parse_operand("5."), None);
}

#[test]
fn operand_rejects_leading_point() {
    assert_eq!(parse_operand(".5"), None);
}

#[test]
fn operand_rejects_letters() {
    assert_eq!(parse_operand("a"), None);
    assert_eq!(parse_operand("+5a"), None);
    assert_eq!(parse_operand("x7"), None);
}

#[test]
fn operand_rejects_too_many_digits() {
    assert_eq!(parse_operand("1234567890"), None);
    assert_eq!(parse_operand("1.1234567"), None);
}

#[test]
fn operand_rejects_double_point() {
    assert_eq!(parse_operand("1..2"), None);
    assert_eq!(parse_operand("1.2.3"), None);
}

#[test]
fn line_lin_parses_target() {
    match parse_line("LIN +1 -2.5 +3") {
        Ok(Command::Lin { target }) => {
            assert_eq!(target.x, 1_000_000);
            assert_eq!(target.y, -2_500_000);
            assert_eq!(target.z, 3_000_000);
        },
        _ => panic!("LIN line did not parse"),
    }
}

#[test]
fn line_cw_parses_stop_and_center() {
    match parse_line("CW +7.5 +7.5 +5 +1.25 +1.25 +5") {
        Ok(Command::Cw { stop, center }) => {
            assert_eq!(stop.x, 7_500_000);
            assert_eq!(stop.y, 7_500_000);
            assert_eq!(stop.z, 5_000_000);
            assert_eq!(center.x, 1_250_000);
            assert_eq!(center.y, 1_250_000);
            assert_eq!(center.z, 5_000_000);
        },
        _ => panic!("CW line did not parse"),
    }
}

#[test]
fn line_ccw_parses_stop_and_center() {
    match parse_line("CCW +1 +2 +3 +4 +5 +6") {
        Ok(Command::Ccw { stop, center }) => {
            assert_eq!(stop.z, 3_000_000);
            assert_eq!(center.x, 4_000_000);
        },
        _ => panic!("CCW line did not parse"),
    }
}

#[test]
fn line_tolerates_extra_blanks() {
    match parse_line("  LIN\t+1  +2 +3 ") {
        Ok(Command::Lin { target }) => {
            assert_eq!(target.x, 1_000_000);
        },
        _ => panic!("line with extra blanks did not parse"),
    }
}

#[test]
fn line_wrong_arity_is_malformed() {
    assert!(matches!(
        parse_line("LIN +1 +2"),
        Err(CommandError::MalformedCommand)
    ));
    assert!(matches!(
        parse_line("CW +1 +2 +3 +4 +5"),
        Err(CommandError::MalformedCommand)
    ));
}

#[test]
fn line_bad_operand_is_invalid() {
    assert!(matches!(
        parse_line("LIN +1 +2 +z"),
        Err(CommandError::InvalidOperand)
    ));
}

#[test]
fn line_lowercase_verb_is_malformed() {
    assert!(matches!(
        parse_line("lin +1 +2 +3"),
        Err(CommandError::MalformedCommand)
    ));
}
