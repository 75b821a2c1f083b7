use lumen::units::{emu_to_centipx, emu_to_px, px_to_centimm, px_to_centipt, DEFAULT_HEIGHT_EMU, DEFAULT_WIDTH_EMU};
use lumen::text::{contains, ends_with, parse_u64, starts_with, str_eq, u64_to_string, usize_to_string};

#[test]
fn unit_conversion_one_inch_exact() {
    // 914,400 fixed-point units are one inch: 96 pixels at 96 DPI.
    let centipx = emu_to_centipx(914400);
    assert_eq!(centipx, 9600);
    assert!(((centipx as f64) / 100.0 - 96.0).abs() < 0.01);
    assert_eq!(emu_to_px(914400), 96);
}

#[test]
fn default_canvas_constants() {
    assert_eq!(DEFAULT_WIDTH_EMU, 9144000);
    assert_eq!(DEFAULT_HEIGHT_EMU, 5143500);
    let w = emu_to_centipx(DEFAULT_WIDTH_EMU);
    let h = emu_to_centipx(DEFAULT_HEIGHT_EMU);
    assert!(((w as f64) / 100.0 - 960.0).abs() < 1.0);
    assert!(((h as f64) / 100.0 - 540.0).abs() < 1.0);
    assert_eq!(w, 96000);
    assert_eq!(h, 54000);
}

#[test]
fn page_unit_conversions() {
    // 1920 px / 96 * 25.4 = 508 mm; 1 px = 0.75 pt.
    assert_eq!(px_to_centimm(1920), 50800);
    assert_eq!(px_to_centipt(800), 60000);
}

#[test]
fn decimal_rendering() {
    assert_eq!(u64_to_string(0), "0");
    assert_eq!(u64_to_string(907), "907");
    assert_eq!(usize_to_string(12), "12");
}

#[test]
fn decimal_parsing() {
    assert_eq!(parse_u64("0"), Some(0));
    assert_eq!(parse_u64("9144000"), Some(9144000));
    assert_eq!(parse_u64(""), None);
    assert_eq!(parse_u64("12x"), None);
    assert_eq!(parse_u64("-5"), None);
    assert_eq!(parse_u64("18446744073709551615"), Some(u64::MAX));
    assert_eq!(parse_u64("18446744073709551616"), None);
}

#[test]
fn string_scanning_helpers() {
    assert!(str_eq("abc", "abc"));
    assert!(!str_eq("abc", "abd"));
    assert!(starts_with("ppt/slides/slide1.xml", "ppt/slides/slide"));
    assert!(!starts_with("ppt/slides/_rels/slide1.xml.rels", "ppt/slides/slide"));
    assert!(ends_with("slide1.xml", ".xml"));
    assert!(!ends_with("slide1.xml.rels", ".xml"));
    assert!(contains("http/x/image-stuff", "image"));
    assert!(!contains("video", "image"));
    assert!(contains("abc", ""));
}
