//! Palette conversion tests.

use picocadrs::assets::Color;

#[test]
fn color_as_i32() {
    assert_eq!(Color::Lavender.as_i32(), 13);
    assert_eq!(Color::LightGrey.as_i32(), 6);
    assert_eq!(Color::Invalid.as_i32(), 0);
}

#[test]
fn color_as_hex() {
    assert_eq!(Color::Lavender.as_hex(), "83769C".to_string());
    assert_eq!(Color::LightGrey.as_hex(), "C2C3C7".to_string());
    assert_eq!(Color::Invalid.as_hex(), "000000".to_string());
}

#[test]
fn color_as_rgb() {
    assert_eq!(Color::Lavender.as_rgb(), (131, 118, 156));
    assert_eq!(Color::LightGrey.as_rgb(), (194, 195, 199));
    assert_eq!(Color::Invalid.as_rgb(), (0, 0, 0));
}

#[test]
fn color_as_char() {
    assert_eq!(Color::Lavender.as_char(), 'd');
    assert_eq!(Color::LightGrey.as_char(), '6');
    assert_eq!(Color::Invalid.as_char(), '0');
}

#[test]
fn color_from_i32() {
    assert_eq!(Color::Lavender, Color::from(13));
    assert_eq!(Color::Invalid, Color::from(17));
    assert_eq!(Color::Invalid, Color::from(-2));
}

#[test]
fn color_from_char() {
    assert_eq!(Color::Lavender, Color::from('d'));
    assert_eq!(Color::LightGrey, Color::from('6'));
    assert_eq!(Color::Invalid, Color::from('A'));
}

#[test]
fn color_from_tuple() {
    assert_eq!(Color::Lavender, Color::from((131, 118, 156)));
    assert_eq!(Color::LightGrey, Color::from((194, 195, 199)));
    assert_eq!(Color::Invalid, Color::from((111, 111, 111)));
}

#[test]
fn color_shadows() {
    assert_eq!(Color::Orange.shadow_transition(), Color::Brown);
    assert_eq!(Color::Orange.shadow(), Color::DarkPurple);
}

#[test]
fn color_code_round_trip_on_palette() {
    for code in 0..16 {
        let c = Color::from(code);
        assert_ne!(c, Color::Invalid);
        assert_eq!(c.as_i32(), code);
        assert_eq!(Color::from(c.as_char()), c);
    }
}
