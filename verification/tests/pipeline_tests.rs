use std::io::Cursor;
use std::io::Write;
use lumen::extractor::PptxExtractor;
use lumen::pipeline::{
    convert_package, convert_with_retry, progress_event, retry_failure_message, retry_outcomes,
    ConversionJob, ConversionProgress, ProgressSink,
};
use zip::write::SimpleFileOptions;
use zip::ZipWriter;

struct Recorder {
    events: Vec<(String, usize, usize, u32)>,
}

impl ProgressSink for Recorder {
    fn notify(&mut self, p: &ConversionProgress) {
        self.events.push((p.stage.clone(), p.current, p.total, p.percentage));
    }
}

struct FailingJob {
    runs: usize,
}

impl ConversionJob for FailingJob {
    fn run(&mut self) -> Result<Vec<u8>, String> {
        self.runs += 1;
        Err(String::from("disk on fire"))
    }

    fn wait_before_retry(&mut self) {}
}

struct EventuallyOkJob {
    runs: usize,
    succeed_at: usize,
}

impl ConversionJob for EventuallyOkJob {
    fn run(&mut self) -> Result<Vec<u8>, String> {
        self.runs += 1;
        if self.runs >= self.succeed_at {
            Ok(vec![1, 2, 3])
        } else {
            Err(String::from("not yet"))
        }
    }

    fn wait_before_retry(&mut self) {}
}

fn build_zip(parts: &[(&str, &[u8])]) -> Vec<u8> {
    let mut writer = ZipWriter::new(Cursor::new(Vec::new()));
    for (name, bytes) in parts {
        writer.start_file(*name, SimpleFileOptions::default()).unwrap();
        writer.write_all(bytes).unwrap();
    }
    writer.finish().unwrap().into_inner()
}

fn three_slide_package() -> Vec<u8> {
    let slide = b"<p:sld><p:cSld><p:spTree><p:sp>\
        <a:xfrm><a:off x=\"914400\" y=\"914400\"/><a:ext cx=\"1828800\" cy=\"914400\"/></a:xfrm>\
        <a:t>Slide text</a:t></p:sp></p:spTree></p:cSld></p:sld>";
    build_zip(&[
        ("ppt/presentation.xml", b"<p:presentation><p:sldSz cx=\"9144000\" cy=\"5143500\"/></p:presentation>"),
        ("ppt/slides/slide1.xml", slide),
        ("ppt/slides/slide2.xml", slide),
        ("ppt/slides/slide3.xml", slide),
        ("docProps/core.xml", b"<cp:coreProperties><dc:title>Trio</dc:title></cp:coreProperties>"),
    ])
}

fn count_occurrences(hay: &[u8], needle: &[u8]) -> usize {
    hay.windows(needle.len()).filter(|w| *w == needle).count()
}

#[test]
fn end_to_end_three_slides_three_pages() {
    let mut extractor = PptxExtractor::new("trio.pptx", three_slide_package()).unwrap();
    let mut sink = Recorder { events: Vec::new() };
    let bytes = convert_package(&mut extractor, &mut sink).unwrap();
    assert_eq!(&bytes[0..4], b"%PDF");
    assert_eq!(count_occurrences(&bytes, b"/Type /Page "), 3);
    // every page gets the declared canvas's physical size: 960x540 px = 720x405 pt
    assert_eq!(count_occurrences(&bytes, b"/MediaBox [0 0 720.00 405.00]"), 3);
    assert_eq!(count_occurrences(&bytes, b"/Title (Trio)"), 1);

    // the stepped notifications: current 1..5 of 5, strictly increasing,
    // ending at exactly one hundred percent
    let steps: Vec<&(String, usize, usize, u32)> =
        sink.events.iter().filter(|e| e.2 == 5).collect();
    assert_eq!(steps.len(), 5);
    for (i, ev) in steps.iter().enumerate() {
        assert_eq!(ev.1, i + 1);
        if i > 0 {
            assert!(steps[i - 1].1 < ev.1);
            assert!(steps[i - 1].3 <= ev.3);
        }
    }
    assert_eq!(steps[4].1, steps[4].2);
    assert_eq!(steps[4].3, 10000);
    assert_eq!(steps[4].0, "Complete");
    assert_eq!(steps[0].0, "Extracting slides");
    assert_eq!(steps[1].0, "Rendering slide 1/3");
}

#[test]
fn conversion_of_empty_package_fails() {
    let bytes = build_zip(&[("docProps/core.xml", b"<x/>")]);
    let mut extractor = PptxExtractor::new("none.pptx", bytes).unwrap();
    let mut sink = Recorder { events: Vec::new() };
    let result = convert_package(&mut extractor, &mut sink);
    match result {
        Err(m) => assert!(m.contains("No slides found")),
        Ok(_) => panic!("a package without slides must fail"),
    }
}

#[test]
fn untitled_package_gets_default_title() {
    let bytes = build_zip(&[("ppt/slides/slide1.xml", b"<p:sld/>")]);
    let mut extractor = PptxExtractor::new("deck.pptx", bytes).unwrap();
    let mut sink = Recorder { events: Vec::new() };
    let pdf = convert_package(&mut extractor, &mut sink).unwrap();
    assert_eq!(count_occurrences(&pdf, b"/Title (Presentation)"), 1);
}

#[test]
fn progress_event_values() {
    let e1 = progress_event(1, 3);
    assert_eq!((e1.current, e1.total, e1.percentage), (1, 5, 2000));
    let e5 = progress_event(5, 3);
    assert_eq!((e5.current, e5.total, e5.percentage), (5, 5, 10000));
}

#[test]
fn retry_always_failing_makes_three_attempts() {
    let mut job = FailingJob { runs: 0 };
    let mut sink = Recorder { events: Vec::new() };
    let result = convert_with_retry(&mut job, 2, &mut sink);
    assert_eq!(job.runs, 3);
    match result {
        Err(m) => {
            assert!(m.contains("3 attempts"));
            assert!(m.contains("disk on fire"));
            assert_eq!(m, "Conversion failed after 3 attempts: disk on fire");
        }
        Ok(_) => panic!("an always-failing job cannot succeed"),
    }
    // one retry marker before each attempt beyond the first
    assert_eq!(sink.events.len(), 2);
    assert_eq!(sink.events[0].0, "Retry attempt 1/2");
    assert_eq!(sink.events[0].1, 0);
    assert_eq!(sink.events[0].2, 100);
    assert_eq!(sink.events[0].3, 0);
    assert_eq!(sink.events[1].0, "Retry attempt 2/2");
}

#[test]
fn retry_stops_at_first_success() {
    let mut job = EventuallyOkJob { runs: 0, succeed_at: 2 };
    let mut sink = Recorder { events: Vec::new() };
    let result = convert_with_retry(&mut job, 5, &mut sink);
    assert_eq!(result, Ok(vec![1, 2, 3]));
    assert_eq!(job.runs, 2);
}

#[test]
fn retry_outcome_fold_counts_attempts() {
    let outcomes: Vec<Result<Vec<u8>, String>> = vec![
        Err(String::from("first")),
        Err(String::from("second")),
        Err(String::from("last")),
    ];
    let (result, attempts) = retry_outcomes(outcomes, 2);
    assert_eq!(attempts, 3);
    assert_eq!(result, Err(String::from("Conversion failed after 3 attempts: last")));

    let outcomes2: Vec<Result<Vec<u8>, String>> =
        vec![Err(String::from("e")), Ok(vec![7]), Err(String::from("x"))];
    let (result2, attempts2) = retry_outcomes(outcomes2, 2);
    assert_eq!(attempts2, 2);
    assert_eq!(result2, Ok(vec![7]));
}

#[test]
fn retry_message_shape() {
    assert_eq!(
        retry_failure_message(3, "boom"),
        "Conversion failed after 3 attempts: boom"
    );
}

#[test]
fn end_to_end_with_embedded_media() {
    let img = image::RgbaImage::from_pixel(4, 4, image::Rgba([10, 200, 30, 255]));
    let mut buf = Cursor::new(Vec::new());
    image::DynamicImage::ImageRgba8(img)
        .write_to(&mut buf, image::ImageFormat::Png)
        .unwrap();
    let slide = "<p:sld><p:cSld><p:spTree><p:pic>\
        <a:xfrm><a:off x=\"0\" y=\"0\"/><a:ext cx=\"914400\" cy=\"914400\"/></a:xfrm>\
        <a:blip r:embed=\"rId1\"/></p:pic></p:spTree></p:cSld></p:sld>";
    let rels = "<Relationships>\
        <Relationship Id=\"rId1\" Type=\"x/image\" Target=\"media/image1.png\"/>\
        </Relationships>";
    let bytes = build_zip(&[
        ("ppt/presentation.xml", b"<p:presentation><p:sldSz cx=\"1905000\" cy=\"952500\"/></p:presentation>"),
        ("ppt/slides/slide1.xml", slide.as_bytes()),
        ("ppt/slides/_rels/slide1.xml.rels", rels.as_bytes()),
        ("ppt/slides/media/image1.png", &buf.into_inner()),
    ]);
    let mut extractor = PptxExtractor::new("media.pptx", bytes).unwrap();
    let mut sink = Recorder { events: Vec::new() };
    let pdf = convert_package(&mut extractor, &mut sink).unwrap();
    assert_eq!(&pdf[0..4], b"%PDF");
    assert_eq!(count_occurrences(&pdf, b"/Type /Page "), 1);
    // the composited green shows up in the page's raw RGB samples
    assert!(count_occurrences(&pdf, &[10, 200, 30]) > 0);
}
