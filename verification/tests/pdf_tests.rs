use lumen::errors::ConvError;
use lumen::pdf::{ImageQuality, PdfGenerator};
use lumen::renderer::{Canvas, Color};

fn count_occurrences(hay: &[u8], needle: &[u8]) -> usize {
    if needle.is_empty() || hay.len() < needle.len() {
        return 0;
    }
    hay.windows(needle.len()).filter(|w| *w == needle).count()
}

#[test]
fn test_pdf_generator_creation() {
    let generator = PdfGenerator::new(1920, 1080);
    // Standard 16:9 canvas at 96 DPI: 1920 px / 96 * 25.4 = 508 mm.
    assert!(((generator.width_mm_centi() as f64) / 100.0 - 508.0).abs() < 1.0);
}

#[test]
fn test_generate_empty_pdf() {
    let generator = PdfGenerator::new(1920, 1080);
    let result = generator.generate_pdf(Vec::new(), "Test");
    assert!(result.is_err());
    match result {
        Err(e) => {
            assert!(matches!(e, ConvError::EmptyInput));
            assert!(e.message().contains("No slides"));
        }
        Ok(_) => unreachable!(),
    }
}

#[test]
fn test_generate_pdf_with_single_slide() {
    let generator = PdfGenerator::new(800, 600);
    let img = Canvas::new_white(800, 600);
    assert!(img.data.iter().all(|&b| b == 255));
    let result = generator.generate_pdf(vec![img], "Test Presentation");
    assert!(result.is_ok());
    let pdf_bytes = result.unwrap();
    assert!(!pdf_bytes.is_empty());
    // Check PDF header
    assert_eq!(&pdf_bytes[0..4], b"%PDF");
}

#[test]
fn document_structure_one_page_per_raster() {
    let generator = PdfGenerator::new(960, 540);
    let pages = vec![
        Canvas::new_white(960, 540),
        Canvas::new_white(960, 540),
        Canvas::new_white(960, 540),
    ];
    let bytes = generator.generate_pdf(pages, "Triple").unwrap();
    assert_eq!(count_occurrences(&bytes, b"/Type /Page "), 3);
    assert_eq!(count_occurrences(&bytes, b"/Count 3"), 1);
    // 960 px and 540 px are 720 and 405 printer's points.
    assert_eq!(count_occurrences(&bytes, b"/MediaBox [0 0 720.00 405.00]"), 3);
    assert_eq!(count_occurrences(&bytes, b"/Title (Triple)"), 1);
    assert!(bytes.ends_with(b"%%EOF"));
}

#[test]
fn title_is_escaped() {
    let generator = PdfGenerator::new(8, 8);
    let bytes = generator
        .generate_pdf(vec![Canvas::new_white(8, 8)], "a(b)c\\d")
        .unwrap();
    assert_eq!(count_occurrences(&bytes, b"/Title (a\\(b\\)c\\\\d)"), 1);
}

#[test]
fn image_samples_are_uncompressed_rgb() {
    let mut canvas = Canvas::new_white(2, 1);
    canvas.fill_rect(0, 0, 1, 1, Color { r: 10, g: 20, b: 30, a: 255 });
    let generator = PdfGenerator::new(2, 1);
    let bytes = generator.generate_pdf(vec![canvas], "T").unwrap();
    // two pixels, three samples each: the filled one, then white
    assert_eq!(count_occurrences(&bytes, b"/Length 6 >>\nstream\n\x0a\x14\x1e\xff\xff\xff"), 1);
    assert_eq!(count_occurrences(&bytes, b"/BitsPerComponent 8"), 1);
}

#[test]
fn quality_levels_share_one_encoding() {
    let g = PdfGenerator::new(8, 8);
    let a = g.generate_pdf(vec![Canvas::new_white(8, 8)], "Q").unwrap();
    let b = g
        .generate_pdf_with_quality(vec![Canvas::new_white(8, 8)], "Q", ImageQuality::Low)
        .unwrap();
    let c = g
        .generate_pdf_with_quality(vec![Canvas::new_white(8, 8)], "Q", ImageQuality::default())
        .unwrap();
    assert_eq!(a, b);
    assert_eq!(a, c);
    assert!(matches!(ImageQuality::default(), ImageQuality::High));
}

fn find_all(hay: &[u8], needle: &[u8]) -> Vec<usize> {
    (0..hay.len().saturating_sub(needle.len()) + 1)
        .filter(|&i| &hay[i..i + needle.len()] == needle)
        .collect()
}

#[test]
fn cross_reference_offsets_point_at_objects() {
    let generator = PdfGenerator::new(3, 2);
    let bytes = generator
        .generate_pdf(vec![Canvas::new_white(3, 2), Canvas::new_white(3, 2)], "Offsets")
        .unwrap();

    // startxref names the byte position of the cross-reference table
    let xref_pos = find_all(&bytes, b"xref\n0 ")[0];
    let startxref_pos = find_all(&bytes, b"startxref\n")[0];
    let tail = &bytes[startxref_pos + b"startxref\n".len()..];
    let newline = tail.iter().position(|&b| b == b'\n').unwrap();
    let declared: usize = std::str::from_utf8(&tail[..newline]).unwrap().parse().unwrap();
    assert_eq!(declared, xref_pos);

    // each ten-digit entry names the position of its numbered object:
    // two pages make eight objects after the free entry
    let table = &bytes[xref_pos..];
    let first_entry = find_all(table, b"0000000000 65535 f \n")[0] + 20;
    for obj in 1..=8usize {
        let entry = &table[first_entry + 20 * (obj - 1)..first_entry + 20 * (obj - 1) + 10];
        let off: usize = std::str::from_utf8(entry).unwrap().parse().unwrap();
        let header = format!("{} 0 obj\n", obj);
        assert_eq!(&bytes[off..off + header.len()], header.as_bytes());
    }
}
