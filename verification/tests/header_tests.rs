//! Header codec tests.

use picocadrs::assets::{Color, Header};
use picocadrs::error::PicoError;

#[test]
fn header_display() {
    assert_eq!("picocad;unnamed;16;1;0", Header::default().serialize());
}

#[test]
fn header_parsing() {
    let header = Header::parse("picocad;unnamed;16;1;4").unwrap();

    assert_eq!(header.identifier(), "picocad");
    assert_eq!(header.name, "unnamed");
    assert_eq!(header.zoom, 16);
    assert_eq!(header.background, Color::DarkBlue);
    assert_eq!(header.alpha, Color::Brown);

    assert_eq!("picocad;unnamed;16;1;4", header.serialize());
}

#[test]
fn header_field_count_error() {
    assert!(matches!(
        Header::parse("picocad;unnamed;16;1"),
        Err(PicoError::HeaderLength(4))
    ));
}

#[test]
fn header_identifier_error() {
    assert!(matches!(
        Header::parse("notpico;unnamed;16;1;0"),
        Err(PicoError::Identifier)
    ));
}

#[test]
fn header_zoom_error() {
    let err = Header::parse("picocad;unnamed;big;1;0").unwrap_err();
    assert!(matches!(err, PicoError::HeaderField(f) if f == "zoom"));
}

#[test]
fn header_background_error() {
    let err = Header::parse("picocad;unnamed;16;x;0").unwrap_err();
    assert!(matches!(err, PicoError::HeaderField(f) if f == "background"));
}

#[test]
fn header_alpha_error() {
    let err = Header::parse("picocad;unnamed;16;1;x").unwrap_err();
    assert!(matches!(err, PicoError::HeaderField(f) if f == "alpha"));
}

#[test]
fn header_out_of_range_colors_are_invalid() {
    let header = Header::parse("picocad;unnamed;16;99;-3").unwrap();
    assert_eq!(header.background, Color::Invalid);
    assert_eq!(header.alpha, Color::Invalid);
}
