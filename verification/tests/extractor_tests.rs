use std::io::Cursor;
use std::io::Write;
use lumen::extractor::{dims_from_descriptor, image_refs_from_markup, parse_image_relationships, path_extension, title_from_core, PptxExtractor};
use lumen::errors::ConvError;
use zip::write::SimpleFileOptions;
use zip::ZipWriter;

fn build_zip(parts: &[(&str, &[u8])]) -> Vec<u8> {
    let mut writer = ZipWriter::new(Cursor::new(Vec::new()));
    for (name, bytes) in parts {
        writer.start_file(*name, SimpleFileOptions::default()).unwrap();
        writer.write_all(bytes).unwrap();
    }
    writer.finish().unwrap().into_inner()
}

const SLIDE_MARKUP: &str = "<p:sld><p:cSld><p:spTree>\
<p:pic><p:spPr><a:xfrm><a:off x=\"0\" y=\"0\"/><a:ext cx=\"914400\" cy=\"914400\"/></a:xfrm></p:spPr>\
<p:blipFill><a:blip r:embed=\"rId1\"/></p:blipFill></p:pic>\
</p:spTree></p:cSld></p:sld>";

const RELS_MARKUP: &str = "<Relationships>\
<Relationship Id=\"rId1\" Type=\"http://schemas.openxmlformats.org/officeDocument/2006/relationships/image\" Target=\"media/image1.png\"/>\
</Relationships>";

#[test]
fn test_invalid_extension() {
    let result = PptxExtractor::new("test.txt", Vec::new());
    assert!(result.is_err());
    match result {
        Err(e) => assert!(matches!(e, ConvError::InvalidExtension)),
        Ok(_) => unreachable!(),
    }
}

#[test]
fn corrupt_archive_is_rejected() {
    let result = PptxExtractor::new("deck.pptx", vec![1, 2, 3, 4]);
    match result {
        Err(e) => assert!(e.message().contains("Corrupted PPTX file")),
        Ok(_) => panic!("garbage bytes must not open"),
    }
}

#[test]
fn metadata_counts_slides() {
    let bytes = build_zip(&[
        ("ppt/slides/slide1.xml", b"<p:sld/>"),
        ("ppt/slides/slide2.xml", b"<p:sld/>"),
        ("ppt/slides/_rels/slide1.xml.rels", b"<Relationships/>"),
        ("docProps/core.xml", b"<cp:coreProperties><dc:title>Deck</dc:title></cp:coreProperties>"),
    ]);
    let mut extractor = PptxExtractor::new("deck.pptx", bytes).unwrap();
    let metadata = extractor.extract_metadata().unwrap();
    assert_eq!(metadata.slide_count, 2);
    assert!(metadata.slide_count >= 1);
    assert_eq!(metadata.title, Some(String::from("Deck")));
}

#[test]
fn zero_slides_fail_with_no_slides_found() {
    let bytes = build_zip(&[("docProps/core.xml", b"<x/>")]);
    let mut extractor = PptxExtractor::new("deck.pptx", bytes).unwrap();
    let result = extractor.extract_metadata();
    match result {
        Err(e) => {
            assert!(matches!(e, ConvError::NoSlidesFound));
            assert!(e.message().contains("No slides found"));
        }
        Ok(_) => panic!("an empty package must fail"),
    }
}

#[test]
fn missing_descriptor_yields_default_canvas() {
    let bytes = build_zip(&[("ppt/slides/slide1.xml", b"<p:sld/>")]);
    let mut extractor = PptxExtractor::new("deck.pptx", bytes).unwrap();
    let metadata = extractor.extract_metadata().unwrap();
    assert!(((metadata.slide_width as f64) / 100.0 - 960.0).abs() < 1.0);
    assert!(((metadata.slide_height as f64) / 100.0 - 540.0).abs() < 1.0);
    assert_eq!(metadata.title, None);
}

#[test]
fn declared_canvas_size_is_used() {
    let bytes = build_zip(&[
        ("ppt/slides/slide1.xml", b"<p:sld/>"),
        ("ppt/presentation.xml", b"<p:presentation><p:sldSz cx=\"12192000\" cy=\"6858000\"/></p:presentation>"),
    ]);
    let mut extractor = PptxExtractor::new("deck.pptx", bytes).unwrap();
    let metadata = extractor.extract_metadata().unwrap();
    assert_eq!(metadata.slide_width, 128000);
    assert_eq!(metadata.slide_height, 72000);
}

#[test]
fn descriptor_without_size_yields_default() {
    let (w, h) = dims_from_descriptor("<p:presentation></p:presentation>");
    assert_eq!((w, h), (96000, 54000));
    let (w2, h2) = dims_from_descriptor("not even markup <");
    assert_eq!((w2, h2), (96000, 54000));
    let (w3, h3) = dims_from_descriptor("<p:presentation><p:sldSz cx=\"junk\" cy=\"5143500\"/></p:presentation>");
    assert_eq!(w3, 96000);
    assert_eq!(h3, 54000);
}

#[test]
fn title_extraction_rules() {
    assert_eq!(title_from_core("<dc:title>Hello &amp; Co</dc:title>"), Some(String::from("Hello & Co")));
    assert_eq!(title_from_core("<dc:title></dc:title>"), None);
    assert_eq!(title_from_core("<other>t</other>"), None);
    assert_eq!(title_from_core("broken <"), None);
}

#[test]
fn one_reference_one_relationship_resolves_one_asset() {
    let bytes = build_zip(&[
        ("ppt/slides/slide1.xml", SLIDE_MARKUP.as_bytes()),
        ("ppt/slides/_rels/slide1.xml.rels", RELS_MARKUP.as_bytes()),
        ("ppt/slides/media/image1.png", &[137, 80, 78, 71]),
    ]);
    let mut extractor = PptxExtractor::new("deck.pptx", bytes).unwrap();
    let slide = extractor.extract_slide(0).unwrap();
    assert_eq!(slide.index, 0);
    assert_eq!(slide.images.len(), 1);
    assert_eq!(slide.images[0].id, "rId1");
    assert_eq!(slide.images[0].data, vec![137, 80, 78, 71]);
    assert_eq!(slide.images[0].extension, "png");
}

#[test]
fn missing_relationship_part_means_zero_assets() {
    let bytes = build_zip(&[("ppt/slides/slide1.xml", SLIDE_MARKUP.as_bytes())]);
    let mut extractor = PptxExtractor::new("deck.pptx", bytes).unwrap();
    let slide = extractor.extract_slide(0).unwrap();
    assert_eq!(slide.images.len(), 0);
}

#[test]
fn unreadable_media_target_is_dropped() {
    let bytes = build_zip(&[
        ("ppt/slides/slide1.xml", SLIDE_MARKUP.as_bytes()),
        ("ppt/slides/_rels/slide1.xml.rels", RELS_MARKUP.as_bytes()),
    ]);
    let mut extractor = PptxExtractor::new("deck.pptx", bytes).unwrap();
    let slide = extractor.extract_slide(0).unwrap();
    assert_eq!(slide.images.len(), 0);
}

#[test]
fn absent_slide_part_is_slide_not_found() {
    let bytes = build_zip(&[("ppt/slides/slide1.xml", b"<p:sld/>")]);
    let mut extractor = PptxExtractor::new("deck.pptx", bytes).unwrap();
    let result = extractor.extract_slide(5);
    match result {
        Err(e) => {
            assert!(matches!(e, ConvError::SlideNotFound(5)));
            assert_eq!(e.message(), "Slide 6 not found");
        }
        Ok(_) => panic!("slide six does not exist"),
    }
}

#[test]
fn malformed_slide_markup_is_fatal() {
    let bytes = build_zip(&[("ppt/slides/slide1.xml", b"<p:sld><unclosed")]);
    let mut extractor = PptxExtractor::new("deck.pptx", bytes).unwrap();
    let result = extractor.extract_slide(0);
    assert!(matches!(result, Err(ConvError::XmlParseError(_))));
}

#[test]
fn image_reference_collection() {
    let ids = image_refs_from_markup(SLIDE_MARKUP).unwrap();
    assert_eq!(ids, vec![String::from("rId1")]);
    assert!(image_refs_from_markup("<broken").is_err());
}

#[test]
fn relationship_filtering() {
    let ids = vec![String::from("rId1"), String::from("rId3")];
    let rels = "<Relationships>\
        <Relationship Id=\"rId1\" Type=\"x/image\" Target=\"media/a.png\"/>\
        <Relationship Id=\"rId2\" Type=\"x/image\" Target=\"media/b.png\"/>\
        <Relationship Id=\"rId3\" Type=\"x/video\" Target=\"media/c.mp4\"/>\
        </Relationships>";
    let mappings = parse_image_relationships(rels, &ids).unwrap();
    assert_eq!(mappings, vec![(String::from("rId1"), String::from("media/a.png"))]);
}

#[test]
fn extension_parsing() {
    assert_eq!(path_extension("dir/file.pptx"), Some(String::from("pptx")));
    assert_eq!(path_extension("file.PPTX"), Some(String::from("PPTX")));
    assert_eq!(path_extension("noext"), None);
    assert_eq!(path_extension(".hidden"), None);
    assert_eq!(path_extension("a/b.c/d"), None);
}

#[test]
fn extract_all_slides_in_order() {
    let bytes = build_zip(&[
        ("ppt/slides/slide1.xml", b"<p:sld/>"),
        ("ppt/slides/slide2.xml", b"<p:sld/>"),
        ("ppt/slides/slide3.xml", b"<p:sld/>"),
    ]);
    let mut extractor = PptxExtractor::new("deck.pptx", bytes).unwrap();
    let slides = extractor.extract_all_slides().unwrap();
    assert_eq!(slides.len(), 3);
    for (i, slide) in slides.iter().enumerate() {
        assert_eq!(slide.index, i);
    }
}
