use lumen::xml::{attr_last, scan_events, unescape, XmlEvent};

#[test]
fn scan_simple_markup() {
    let events = scan_events("<a x=\"1\"><b/>hi</a>").unwrap();
    assert_eq!(events.len(), 4);
    match &events[0] {
        XmlEvent::Start { name, attrs } => {
            assert_eq!(name, "a");
            assert_eq!(attrs.len(), 1);
            assert_eq!(attrs[0].key, "x");
            assert_eq!(attrs[0].value, "1");
        }
        _ => panic!("expected a start tag"),
    }
    assert!(matches!(&events[1], XmlEvent::Empty { name, .. } if name == "b"));
    assert!(matches!(&events[2], XmlEvent::Text { text } if text == "hi"));
    assert!(matches!(&events[3], XmlEvent::End { name } if name == "a"));
}

#[test]
fn scan_skips_declarations_and_trims_text() {
    let events = scan_events("<?xml version=\"1.0\"?>\n<t>  padded  </t>").unwrap();
    assert_eq!(events.len(), 3);
    assert!(matches!(&events[1], XmlEvent::Text { text } if text == "padded"));
}

#[test]
fn scan_rejects_malformed_markup() {
    assert!(scan_events("<unclosed").is_none());
    assert!(scan_events("<a b=nope>").is_none());
    assert!(scan_events("<a b=\"unterminated>").is_none());
    assert!(scan_events("<>").is_none());
}

#[test]
fn scan_single_quoted_and_spaced_attributes() {
    let events = scan_events("<p:sldSz cx = '9144000' cy='5143500' />").unwrap();
    assert_eq!(events.len(), 1);
    match &events[0] {
        XmlEvent::Empty { name, attrs } => {
            assert_eq!(name, "p:sldSz");
            assert_eq!(attr_last(attrs, "cx"), Some(String::from("9144000")));
            assert_eq!(attr_last(attrs, "cy"), Some(String::from("5143500")));
            assert_eq!(attr_last(attrs, "nope"), None);
        }
        _ => panic!("expected a self-closing tag"),
    }
}

#[test]
fn attr_last_keeps_last_assignment() {
    let events = scan_events("<a k=\"1\" k=\"2\"/>").unwrap();
    match &events[0] {
        XmlEvent::Empty { attrs, .. } => {
            assert_eq!(attr_last(attrs, "k"), Some(String::from("2")));
        }
        _ => panic!("expected a self-closing tag"),
    }
}

#[test]
fn unescape_known_entities() {
    assert_eq!(unescape("a&amp;b&lt;c&gt;d&quot;e&apos;f"), "a&b<c>d\"e'f");
    assert_eq!(unescape("no entities"), "no entities");
    assert_eq!(unescape("&unknown; stays"), "&unknown; stays");
    assert_eq!(unescape("trailing &"), "trailing &");
}
