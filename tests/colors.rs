use polybar_iconography::colors::{Color, ColorParseError};

#[test]
fn test_colors() {
    assert_eq!(
        Color::try_from("#12345").unwrap_err(),
        ColorParseError::InvalidStringLength(5)
    );
    assert_eq!(
        Color::try_from("12345").unwrap_err(),
        ColorParseError::InvalidStringLength(5)
    );
    assert_eq!(
        Color::try_from("#123").unwrap(),
        Color {
            a: None,
            r: 0x11,
            g: 0x22,
            b: 0x33
        }
    );
    assert_eq!(
        Color::try_from("#12abcdef").unwrap(),
        Color {
            a: Some(0x12),
            r: 0xab,
            g: 0xcd,
            b: 0xef
        }
    );
    assert_eq!(
        Color::try_from("12abcdef").unwrap(),
        Color {
            a: Some(0x12),
            r: 0xab,
            g: 0xcd,
            b: 0xef
        }
    );
    assert_eq!(
        Color::try_from("abcdef").unwrap(),
        Color {
            a: None,
            r: 0xab,
            g: 0xcd,
            b: 0xef
        }
    );
    assert_eq!(
        Color::try_from("123").unwrap(),
        Color {
            a: None,
            r: 0x11,
            g: 0x22,
            b: 0x33
        }
    );
}

#[test]
fn four_digit_form_has_alpha_first() {
    assert_eq!(
        Color::try_from("#1234").unwrap(),
        Color {
            a: Some(0x11),
            r: 0x22,
            g: 0x33,
            b: 0x44
        }
    );
}

#[test]
fn canonical_text_is_expanded_and_uppercase() {
    assert_eq!(Color::try_from("#a2c").unwrap().to_string(), "#AA22CC");
    assert_eq!(Color::try_from("0a1b2c3d").unwrap().to_string(), "#0A1B2C3D");
}

#[test]
fn round_trip_through_canonical_text() {
    for s in ["#123", "abcd", "#a1B2c3", "00ff00ff", "FFF"] {
        let c = Color::try_from(s).unwrap();
        assert_eq!(Color::try_from(c.to_string().as_str()).unwrap(), c);
    }
}

#[test]
fn bad_lengths_report_the_digit_count() {
    assert_eq!(Color::try_from("").unwrap_err(), ColorParseError::InvalidStringLength(0));
    assert_eq!(Color::try_from("#").unwrap_err(), ColorParseError::InvalidStringLength(0));
    assert_eq!(Color::try_from("#1").unwrap_err(), ColorParseError::InvalidStringLength(1));
    assert_eq!(Color::try_from("1234567").unwrap_err(), ColorParseError::InvalidStringLength(7));
    assert_eq!(Color::try_from("#123456789").unwrap_err(), ColorParseError::InvalidStringLength(9));
}

#[test]
fn bad_character_is_reported() {
    assert_eq!(Color::try_from("#12g").unwrap_err(), ColorParseError::CharOutOfRange('g'));
    assert_eq!(Color::try_from("##123").unwrap_err(), ColorParseError::CharOutOfRange('#'));
    assert_eq!(Color::try_from("xy").unwrap_err(), ColorParseError::CharOutOfRange('x'));
}
