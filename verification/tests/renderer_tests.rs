use std::io::Cursor;
use lumen::errors::ConvError;
use lumen::extractor::{ImageData, SlideData};
use lumen::renderer::{parse_slide_elements, Canvas, Color, SlideRenderer};

fn png_bytes(w: u32, h: u32, rgba: [u8; 4]) -> Vec<u8> {
    let img = image::RgbaImage::from_pixel(w, h, image::Rgba(rgba));
    let mut buf = Cursor::new(Vec::new());
    image::DynamicImage::ImageRgba8(img)
        .write_to(&mut buf, image::ImageFormat::Png)
        .unwrap();
    buf.into_inner()
}

fn pixel(canvas: &Canvas, x: u32, y: u32) -> [u8; 4] {
    let base = 4 * (y as usize * canvas.width as usize + x as usize);
    [
        canvas.data[base],
        canvas.data[base + 1],
        canvas.data[base + 2],
        canvas.data[base + 3],
    ]
}

#[test]
fn test_renderer_creation() {
    let renderer = SlideRenderer::new(1920, 1080);
    assert_eq!(renderer.width, 1920);
    assert_eq!(renderer.height, 1080);
}

#[test]
fn test_emu_to_pixels() {
    let renderer = SlideRenderer::new(1920, 1080);
    // 914400 fixed-point units are one inch: 96 pixels at 96 DPI.
    let centipx = renderer.emu_to_pixels(914400);
    assert!(((centipx as f64) / 100.0 - 96.0).abs() < 0.01);
}

#[test]
fn parse_scene_elements() {
    let markup = "<p:sld>\
        <p:sp><a:xfrm><a:off x=\"9525\" y=\"19050\"/><a:ext cx=\"95250\" cy=\"190500\"/></a:xfrm>\
        <a:t>Hello &amp; Co</a:t></p:sp>\
        <p:pic><a:xfrm><a:off x=\"0\" y=\"0\"/><a:ext cx=\"914400\" cy=\"914400\"/></a:xfrm>\
        <a:blip r:embed=\"rId1\"/></p:pic>\
        </p:sld>";
    let (texts, images, shapes) = parse_slide_elements(markup).unwrap();
    assert_eq!(shapes.len(), 0);
    assert_eq!(texts.len(), 1);
    assert_eq!(texts[0].text, "Hello & Co");
    assert_eq!((texts[0].x, texts[0].y), (1, 2));
    assert_eq!((texts[0].width, texts[0].height), (10, 20));
    assert_eq!(texts[0].font_size, 24);
    assert_eq!(texts[0].color, Color { r: 0, g: 0, b: 0, a: 255 });
    assert!(!texts[0].bold);
    assert_eq!(images.len(), 1);
    assert_eq!(images[0].image_id, "rId1");
    assert_eq!((images[0].width, images[0].height), (96, 96));
}

#[test]
fn malformed_markup_fails_parse() {
    assert!(matches!(
        parse_slide_elements("<p:sld><"),
        Err(ConvError::XmlParseError(_))
    ));
}

#[test]
fn render_blank_slide_is_white() {
    let renderer = SlideRenderer::new(8, 6);
    let slide = SlideData {
        index: 0,
        xml_content: String::from("<p:sld/>"),
        images: Vec::new(),
    };
    let canvas = renderer.render_slide(&slide).unwrap();
    assert_eq!((canvas.width, canvas.height), (8, 6));
    assert_eq!(canvas.data.len(), 4 * 8 * 6);
    assert!(canvas.data.iter().all(|&b| b == 255));
}

#[test]
fn render_composites_decoded_media() {
    // A 2x2 solid red image drawn into the top-left 2x2 pixels.
    let markup = "<p:sld><p:pic>\
        <a:xfrm><a:off x=\"0\" y=\"0\"/><a:ext cx=\"19050\" cy=\"19050\"/></a:xfrm>\
        <a:blip r:embed=\"rId1\"/></p:pic></p:sld>";
    let renderer = SlideRenderer::new(4, 4);
    let slide = SlideData {
        index: 0,
        xml_content: String::from(markup),
        images: vec![ImageData {
            id: String::from("rId1"),
            data: png_bytes(2, 2, [255, 0, 0, 255]),
            extension: String::from("png"),
        }],
    };
    let canvas = renderer.render_slide(&slide).unwrap();
    assert_eq!(pixel(&canvas, 0, 0), [255, 0, 0, 255]);
    assert_eq!(pixel(&canvas, 1, 1), [255, 0, 0, 255]);
    assert_eq!(pixel(&canvas, 2, 2), [255, 255, 255, 255]);
    assert_eq!(pixel(&canvas, 3, 0), [255, 255, 255, 255]);
}

#[test]
fn render_blends_translucent_media() {
    // Half-transparent black over white: each channel lands near 127.
    let markup = "<p:sld><p:pic>\
        <a:xfrm><a:off x=\"0\" y=\"0\"/><a:ext cx=\"9525\" cy=\"9525\"/></a:xfrm>\
        <a:blip r:embed=\"rId1\"/></p:pic></p:sld>";
    let renderer = SlideRenderer::new(2, 2);
    let slide = SlideData {
        index: 0,
        xml_content: String::from(markup),
        images: vec![ImageData {
            id: String::from("rId1"),
            data: png_bytes(1, 1, [0, 0, 0, 128]),
            extension: String::from("png"),
        }],
    };
    let canvas = renderer.render_slide(&slide).unwrap();
    let p = pixel(&canvas, 0, 0);
    assert_eq!(p[3], 255);
    assert!(p[0] < 130 && p[0] > 120);
    assert_eq!(pixel(&canvas, 1, 1), [255, 255, 255, 255]);
}

#[test]
fn unresolved_media_reference_is_dropped() {
    let markup = "<p:sld><p:pic>\
        <a:xfrm><a:off x=\"0\" y=\"0\"/><a:ext cx=\"19050\" cy=\"19050\"/></a:xfrm>\
        <a:blip r:embed=\"rIdMissing\"/></p:pic></p:sld>";
    let renderer = SlideRenderer::new(4, 4);
    let slide = SlideData {
        index: 0,
        xml_content: String::from(markup),
        images: Vec::new(),
    };
    let canvas = renderer.render_slide(&slide).unwrap();
    assert!(canvas.data.iter().all(|&b| b == 255));
}

#[test]
fn undecodable_media_fails_the_slide() {
    let markup = "<p:sld><p:pic>\
        <a:xfrm><a:off x=\"0\" y=\"0\"/><a:ext cx=\"19050\" cy=\"19050\"/></a:xfrm>\
        <a:blip r:embed=\"rId1\"/></p:pic></p:sld>";
    let renderer = SlideRenderer::new(4, 4);
    let slide = SlideData {
        index: 0,
        xml_content: String::from(markup),
        images: vec![ImageData {
            id: String::from("rId1"),
            data: vec![0, 1, 2, 3],
            extension: String::from("png"),
        }],
    };
    let result = renderer.render_slide(&slide);
    match result {
        Err(e) => {
            assert!(matches!(e, ConvError::ImageDecodeError(_)));
            assert!(e.message().contains("Failed to load image"));
        }
        Ok(_) => panic!("garbage bytes must not decode"),
    }
}

#[test]
fn text_placeholder_draws_border() {
    let markup = "<p:sld><p:sp>\
        <a:xfrm><a:off x=\"9525\" y=\"9525\"/><a:ext cx=\"38100\" cy=\"28575\"/></a:xfrm>\
        <a:t>T</a:t></p:sp></p:sld>";
    let renderer = SlideRenderer::new(8, 8);
    let slide = SlideData {
        index: 0,
        xml_content: String::from(markup),
        images: Vec::new(),
    };
    let canvas = renderer.render_slide(&slide).unwrap();
    // box at (1,1) of size 4x3: border pixels are light gray
    assert_eq!(pixel(&canvas, 1, 1), [200, 200, 200, 255]);
    assert_eq!(pixel(&canvas, 4, 1), [200, 200, 200, 255]);
    assert_eq!(pixel(&canvas, 1, 4), [200, 200, 200, 255]);
    // strictly inside stays white
    assert_eq!(pixel(&canvas, 2, 2), [255, 255, 255, 255]);
    // well outside stays white
    assert_eq!(pixel(&canvas, 7, 7), [255, 255, 255, 255]);
}

#[test]
fn fill_rect_paints_and_clips() {
    let mut canvas = Canvas::new_white(4, 4);
    canvas.fill_rect(2, 2, 10, 10, Color { r: 1, g: 2, b: 3, a: 255 });
    assert_eq!(pixel(&canvas, 2, 2), [1, 2, 3, 255]);
    assert_eq!(pixel(&canvas, 3, 3), [1, 2, 3, 255]);
    assert_eq!(pixel(&canvas, 1, 1), [255, 255, 255, 255]);
}

#[test]
fn render_decodes_bmp_media() {
    let img = image::RgbaImage::from_pixel(2, 2, image::Rgba([0, 0, 255, 255]));
    let mut buf = Cursor::new(Vec::new());
    image::DynamicImage::ImageRgba8(img)
        .write_to(&mut buf, image::ImageFormat::Bmp)
        .unwrap();
    let markup = "<p:sld><p:pic>\
        <a:xfrm><a:off x=\"0\" y=\"0\"/><a:ext cx=\"19050\" cy=\"19050\"/></a:xfrm>\
        <a:blip r:embed=\"rId1\"/></p:pic></p:sld>";
    let renderer = SlideRenderer::new(4, 4);
    let slide = SlideData {
        index: 0,
        xml_content: String::from(markup),
        images: vec![ImageData {
            id: String::from("rId1"),
            data: buf.into_inner(),
            extension: String::from("bmp"),
        }],
    };
    let canvas = renderer.render_slide(&slide).unwrap();
    assert_eq!(pixel(&canvas, 0, 0), [0, 0, 255, 255]);
}
