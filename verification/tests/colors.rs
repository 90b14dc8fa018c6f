use pips::color_parser::{from_hex, hex_color, is_hex_digit, Color};
use pips::ParseError;

#[test]
fn parse_color() {
    assert_eq!(
        hex_color("#2F14DF"),
        Ok((
            "",
            Color {
                red: 47,
                green: 20,
                blue: 223,
            }
        ))
    );
}

#[test]
fn hex_color_returns_the_leftover_input() {
    assert_eq!(
        hex_color("#00ff00 rest"),
        Ok((
            " rest",
            Color {
                red: 0,
                green: 255,
                blue: 0,
            }
        ))
    );
    assert_eq!(hex_color("2F14DF"), Err(ParseError::Malformed));
    assert_eq!(hex_color("#2F14D"), Err(ParseError::Malformed));
    assert_eq!(hex_color("#2F14DG"), Err(ParseError::Malformed));
}

#[test]
fn from_hex_reads_byte_values() {
    assert_eq!(Ok(47), from_hex("2F"));
    assert_eq!(Ok(47), from_hex("2f"));
    assert_eq!(Ok(255), from_hex("ff"));
    assert_eq!(Ok(0), from_hex("0"));
    assert_eq!(Err(ParseError::Malformed), from_hex(""));
    assert_eq!(Err(ParseError::Malformed), from_hex("fg"));
    assert_eq!(Err(ParseError::InvalidNumber), from_hex("100"));
}

#[test]
fn hex_digits_are_recognized() {
    assert!(is_hex_digit('0'));
    assert!(is_hex_digit('9'));
    assert!(is_hex_digit('a'));
    assert!(is_hex_digit('f'));
    assert!(is_hex_digit('A'));
    assert!(is_hex_digit('F'));
    assert!(!is_hex_digit('g'));
    assert!(!is_hex_digit(' '));
    assert!(!is_hex_digit('-'));
}
