use markterm::color::{Color, ColorError};

#[test]
fn color_should_convert_000000_to_black() {
    let color = Color::new("#000000").unwrap();
    assert_eq!(color.r, 0);
    assert_eq!(color.g, 0);
    assert_eq!(color.b, 0);
}

#[test]
fn color_should_convert_000_to_black() {
    let color = Color::new("#000").unwrap();
    assert_eq!(color.r, 0);
    assert_eq!(color.g, 0);
    assert_eq!(color.b, 0);
}

#[test]
fn color_should_convert_ffffff_to_white() {
    let color = Color::new("#FFFFFF").unwrap();
    assert_eq!(color.r, 255);
    assert_eq!(color.g, 255);
    assert_eq!(color.b, 255);
}

#[test]
fn color_should_convert_fff_to_white() {
    let color = Color::new("#FFF").unwrap();
    assert_eq!(color.r, 255);
    assert_eq!(color.g, 255);
    assert_eq!(color.b, 255);
}

#[test]
fn color_input_codes_cannot_be_1_characters() {
    assert_eq!(Color::new("0"), Err(ColorError::InvalidLength));
}

#[test]
fn color_input_codes_cannot_be_1_characters_with_hash() {
    assert_eq!(Color::new("#0"), Err(ColorError::InvalidLength));
}

#[test]
fn color_input_codes_cannot_be_2_characters() {
    assert_eq!(Color::new("00"), Err(ColorError::InvalidLength));
}

#[test]
fn color_input_codes_cannot_be_2_characters_with_hash() {
    assert_eq!(Color::new("#00"), Err(ColorError::InvalidLength));
}

#[test]
fn color_input_codes_cannot_be_4_characters() {
    assert_eq!(Color::new("0000"), Err(ColorError::InvalidLength));
}

#[test]
fn color_input_codes_cannot_be_4_characters_with_hash() {
    assert_eq!(Color::new("#0000"), Err(ColorError::InvalidLength));
}

#[test]
fn color_input_codes_cannot_be_5_characters() {
    assert_eq!(Color::new("00000"), Err(ColorError::InvalidLength));
}

#[test]
fn color_input_codes_cannot_be_5_characters_with_hash() {
    assert_eq!(Color::new("#00000"), Err(ColorError::InvalidLength));
}

#[test]
fn color_input_codes_cannot_be_7_characters() {
    assert_eq!(Color::new("0000000"), Err(ColorError::InvalidLength));
}

#[test]
fn color_input_codes_cannot_be_7_characters_with_hash() {
    assert_eq!(Color::new("#0000000"), Err(ColorError::InvalidLength));
}

#[test]
fn color_input_codes_can_be_3_digits() {
    assert!(Color::new("000").is_ok());
}

#[test]
fn color_input_codes_can_be_3_digits_with_hash() {
    assert!(Color::new("#000").is_ok());
}

#[test]
fn color_input_codes_can_be_6_digits() {
    assert!(Color::new("000000").is_ok());
}

#[test]
fn color_input_codes_can_be_6_digits_with_hash() {
    assert!(Color::new("#000000").is_ok());
}

#[test]
fn color_should_fail_for_invalid_rgb_code_in_red() {
    assert_eq!(
        Color::new("#GG0011"),
        Err(ColorError::InvalidHexDigit("#GG0011".to_string()))
    );
}

#[test]
fn color_should_fail_for_invalid_rgb_code_in_green() {
    assert_eq!(
        Color::new("#00GG11"),
        Err(ColorError::InvalidHexDigit("#00GG11".to_string()))
    );
}

#[test]
fn color_should_fail_for_invalid_rgb_code_in_blue() {
    assert_eq!(
        Color::new("#00AAZZ"),
        Err(ColorError::InvalidHexDigit("#00AAZZ".to_string()))
    );
}

#[test]
fn themes_should_convert_000000_to_black() {
    let color = Color::new("#000000").unwrap();
    assert_eq!(color.r, 0);
    assert_eq!(color.g, 0);
    assert_eq!(color.b, 0);
}

#[test]
fn themes_should_convert_000_to_black() {
    let color = Color::new("#000").unwrap();
    assert_eq!(color.r, 0);
    assert_eq!(color.g, 0);
    assert_eq!(color.b, 0);
}

#[test]
fn themes_should_convert_ffffff_to_white() {
    let color = Color::new("#FFFFFF").unwrap();
    assert_eq!(color.r, 255);
    assert_eq!(color.g, 255);
    assert_eq!(color.b, 255);
}

#[test]
fn themes_should_convert_fff_to_white() {
    let color = Color::new("#FFF").unwrap();
    assert_eq!(color.r, 255);
    assert_eq!(color.g, 255);
    assert_eq!(color.b, 255);
}

#[test]
fn themes_input_codes_cannot_be_1_characters() {
    assert_eq!(Color::new("0"), Err(ColorError::InvalidLength));
}

#[test]
fn themes_input_codes_cannot_be_1_characters_with_hash() {
    assert_eq!(Color::new("#0"), Err(ColorError::InvalidLength));
}

#[test]
fn themes_input_codes_cannot_be_2_characters() {
    assert_eq!(Color::new("00"), Err(ColorError::InvalidLength));
}

#[test]
fn themes_input_codes_cannot_be_2_characters_with_hash() {
    assert_eq!(Color::new("#00"), Err(ColorError::InvalidLength));
}

#[test]
fn themes_input_codes_cannot_be_4_characters() {
    assert_eq!(Color::new("0000"), Err(ColorError::InvalidLength));
}

#[test]
fn themes_input_codes_cannot_be_4_characters_with_hash() {
    assert_eq!(Color::new("#0000"), Err(ColorError::InvalidLength));
}

#[test]
fn themes_input_codes_cannot_be_5_characters() {
    assert_eq!(Color::new("00000"), Err(ColorError::InvalidLength));
}

#[test]
fn themes_input_codes_cannot_be_5_characters_with_hash() {
    assert_eq!(Color::new("#00000"), Err(ColorError::InvalidLength));
}

#[test]
fn themes_input_codes_cannot_be_7_characters() {
    assert_eq!(Color::new("0000000"), Err(ColorError::InvalidLength));
}

#[test]
fn themes_input_codes_cannot_be_7_characters_with_hash() {
    assert_eq!(Color::new("#0000000"), Err(ColorError::InvalidLength));
}

#[test]
fn themes_input_codes_can_be_3_digits() {
    assert!(Color::new("000").is_ok());
}

#[test]
fn themes_input_codes_can_be_3_digits_with_hash() {
    assert!(Color::new("#000").is_ok());
}

#[test]
fn themes_input_codes_can_be_6_digits() {
    assert!(Color::new("000000").is_ok());
}

#[test]
fn themes_input_codes_can_be_6_digits_with_hash() {
    assert!(Color::new("#000000").is_ok());
}

#[test]
fn themes_should_fail_for_invalid_rgb_code_in_red() {
    assert_eq!(
        Color::new("#GG0011"),
        Err(ColorError::InvalidHexDigit("#GG0011".to_string()))
    );
}

#[test]
fn themes_should_fail_for_invalid_rgb_code_in_green() {
    assert_eq!(
        Color::new("#00GG11"),
        Err(ColorError::InvalidHexDigit("#00GG11".to_string()))
    );
}

#[test]
fn themes_should_fail_for_invalid_rgb_code_in_blue() {
    assert_eq!(
        Color::new("#00AAZZ"),
        Err(ColorError::InvalidHexDigit("#00AAZZ".to_string()))
    );
}
#[test]
fn short_code_equals_its_expansion() {
    assert_eq!(Color::new("#fff"), Color::new("#ffffff"));
    assert_eq!(Color::new("#f00"), Color::new("#ff0000"));
    assert_eq!(Color::new("a1B"), Color::new("#aa11BB"));
    assert_eq!(Color::new("#f00").unwrap(), Color { r: 255, g: 0, b: 0 });
}

#[test]
fn six_digit_code_reads_each_pair() {
    assert_eq!(Color::new("#6155FB").unwrap(), Color { r: 0x61, g: 0x55, b: 0xFB });
    assert_eq!(Color::new("008787").unwrap(), Color { r: 0, g: 0x87, b: 0x87 });
}

#[test]
fn codes_of_wrong_length_fail() {
    for code in ["", "#", "1", "12", "1234", "12345", "1234567", "#1234567", "##123"] {
        assert_eq!(Color::new(code), Err(ColorError::InvalidLength), "{code}");
    }
}

#[test]
fn non_hex_digit_fails_naming_the_code() {
    assert_eq!(Color::new("#12g"), Err(ColorError::InvalidHexDigit("#12g".to_string())));
    assert_eq!(Color::new("+f0000"), Err(ColorError::InvalidHexDigit("+f0000".to_string())));
    assert_eq!(Color::new("#1#2"), Err(ColorError::InvalidHexDigit("#1#2".to_string())));
}
