use lumen::errors::ConvError;
use lumen::host::{
    database_version, default_media_database, eq_ignore_ascii_case, pptx_selection_outcome,
    route_audio_event, video_selection_outcome, AudioAction, FileSelectionResult,
};

#[test]
fn test_file_selection_cancelled() {
    let result = FileSelectionResult { path: None, cancelled: true };

    assert!(result.cancelled);
    assert!(result.path.is_none());
}

#[test]
fn test_database_version_constant() {
    assert_eq!(database_version(), "1.0.0");
}

#[test]
fn default_database_contents() {
    let db = default_media_database();
    assert!(db.contains("\"version\":\"1.0.0\""));
    assert!(db.contains("\"mediaItems\":[]"));
    assert!(db.contains("\"cacheDirectory\":\"/cache\""));
}

#[test]
fn presentation_selection_rules() {
    let ok = pptx_selection_outcome(Some(String::from("/path/to/file.pptx"))).unwrap();
    assert_eq!(ok.path, Some(String::from("/path/to/file.pptx")));
    assert!(!ok.cancelled);

    let upper = pptx_selection_outcome(Some(String::from("DECK.PPT"))).unwrap();
    assert!(!upper.cancelled);

    let cancelled = pptx_selection_outcome(None).unwrap();
    assert!(cancelled.cancelled);
    assert!(cancelled.path.is_none());

    let bad = pptx_selection_outcome(Some(String::from("notes.txt")));
    assert_eq!(bad.unwrap_err(), "Invalid file format. Please select a .pptx or .ppt file");
}

#[test]
fn video_selection_rules() {
    assert!(video_selection_outcome(Some(String::from("clip.mp4"))).is_ok());
    assert!(video_selection_outcome(Some(String::from("clip.WebM"))).is_ok());
    let bad = video_selection_outcome(Some(String::from("clip.pptx")));
    assert_eq!(bad.unwrap_err(), "Invalid file format. Please select a supported video file");
    assert!(video_selection_outcome(None).unwrap().cancelled);
}

#[test]
fn case_insensitive_comparison() {
    assert!(eq_ignore_ascii_case("PPTX", "pptx"));
    assert!(eq_ignore_ascii_case("WebM", "webm"));
    assert!(!eq_ignore_ascii_case("ppt", "pptx"));
}

#[test]
fn audio_event_routing() {
    assert_eq!(route_audio_event("set_volume", Some(50)), AudioAction::SetVolume(50));
    assert_eq!(route_audio_event("set_volume", Some(100)), AudioAction::SetVolume(100));
    assert_eq!(route_audio_event("set_volume", Some(101)), AudioAction::VolumeOutOfRange(101));
    assert_eq!(route_audio_event("set_volume", None), AudioAction::MissingVolume);
    assert_eq!(route_audio_event("mute", None), AudioAction::Mute);
    assert_eq!(route_audio_event("play_pause", None), AudioAction::PlayPause);
    assert_eq!(route_audio_event("stop", None), AudioAction::Stop);
    assert_eq!(route_audio_event("next", None), AudioAction::Next);
    assert_eq!(route_audio_event("previous", None), AudioAction::Previous);
    assert_eq!(route_audio_event("manual_pause", None), AudioAction::ManualPause);
    assert_eq!(route_audio_event("explode", None), AudioAction::Unknown);
}

#[test]
fn error_messages() {
    assert_eq!(
        ConvError::NotFound(String::from("nonexistent.pptx")).message(),
        "File not found: nonexistent.pptx"
    );
    assert_eq!(
        ConvError::InvalidExtension.message(),
        "Invalid file format. Only .pptx files are supported."
    );
    assert_eq!(
        ConvError::NoSlidesFound.message(),
        "No slides found in PPTX file. File may be corrupted."
    );
    assert_eq!(ConvError::SlideNotFound(2).message(), "Slide 3 not found");
    assert_eq!(ConvError::EmptyInput.message(), "No slides to generate PDF");
}
