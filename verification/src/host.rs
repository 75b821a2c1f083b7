//! Pure decision logic for the host application's edges: which picked
//! files are acceptable, the media catalog's format version and default
//! contents, and how incoming control events are routed.  The host does
//! the dialogs, the disk and the sockets; everything it decides with is
//! here.

use vstd::prelude::*;
use vstd::string::*;
use crate::extractor::spec_path_extension;
use crate::extractor::path_extension;
use crate::text;

verus! {

/// The media catalog format version the host persists.
pub fn database_version() -> (r: &'static str)
    ensures
        r@ == "1.0.0"@,
{
    "1.0.0"
}

/// The catalog contents used when no catalog file exists yet.
pub fn default_media_database() -> (r: String)
    ensures
        r@
            == "{\"version\":\"1.0.0\",\"mediaItems\":[],\"settings\":{\"defaultDisplay\":1,\"autoStartPresentation\":false,\"cacheDirectory\":\"/cache\"}}"@,
{
    String::from_str(
        "{\"version\":\"1.0.0\",\"mediaItems\":[],\"settings\":{\"defaultDisplay\":1,\"autoStartPresentation\":false,\"cacheDirectory\":\"/cache\"}}",
    )
}

/// The outcome of a file-selection dialog: the chosen path, or a record
/// that the user cancelled.
#[derive(Debug)]
pub struct FileSelectionResult {
    pub path: Option<String>,
    pub cancelled: bool,
}

/// A character lowered through the ASCII range, other characters kept.
pub open spec fn spec_lower_char(c: char) -> char {
    if 'A' <= c && c <= 'Z' {
        ((c as u8) + 32) as char
    } else {
        c
    }
}

/// Text lowered through the ASCII range.
pub open spec fn spec_ascii_lower(s: Seq<char>) -> Seq<char> {
    s.map_values(|c: char| spec_lower_char(c))
}

fn lower_char(c: char) -> (r: char)
    ensures
        r == spec_lower_char(c),
{
    if 'A' <= c && c <= 'Z' {
        ((c as u8) + 32) as char
    } else {
        c
    }
}

/// Whether two strings agree after lowering through the ASCII range.
pub fn eq_ignore_ascii_case(a: &str, b: &str) -> (r: bool)
    ensures
        r == (spec_ascii_lower(a@) == spec_ascii_lower(b@)),
{
    let na = a.unicode_len();
    let nb = b.unicode_len();
    if na != nb {
        return false;
    }
    let mut i: usize = 0;
    while i < na
        invariant
            i <= na,
            na == a@.len(),
            na == b@.len(),
            forall|j: int| 0 <= j < i ==> spec_lower_char(a@[j]) == spec_lower_char(b@[j]),
        decreases na - i,
    {
        if lower_char(a.get_char(i)) != lower_char(b.get_char(i)) {
            assert(spec_ascii_lower(a@)[i as int] != spec_ascii_lower(b@)[i as int]);
            return false;
        }
        i = i + 1;
    }
    proof {
        assert(spec_ascii_lower(a@) =~= spec_ascii_lower(b@));
    }
    true
}

/// Whether a path's extension, lowered through the ASCII range, is among
/// the given extensions.
pub open spec fn spec_ext_among(path: Seq<char>, exts: Seq<Seq<char>>) -> bool {
    match spec_path_extension(path) {
        Some(e) => exists|j: int|
            0 <= j < exts.len() && spec_ascii_lower(e) == #[trigger] exts[j],
        None => false,
    }
}

/// The two conventional presentation extensions.
pub open spec fn spec_presentation_exts() -> Seq<Seq<char>> {
    seq!["pptx"@, "ppt"@]
}

/// The supported video extensions.
pub open spec fn spec_video_exts() -> Seq<Seq<char>> {
    seq!["mp4"@, "avi"@, "mov"@, "webm"@, "mkv"@, "flv"@, "wmv"@]
}

/// The pure outcome of the presentation picker: a cancelled dialog is a
/// cancelled result, a path with a presentation extension is accepted,
/// and anything else is rejected with the picker's message.
pub fn pptx_selection_outcome(selected: Option<String>) -> (r: Result<FileSelectionResult, String>)
    ensures
        selected is None ==> (r matches Ok(f) && f.path is None && f.cancelled),
        selected matches Some(p) ==> if spec_ext_among(p@, spec_presentation_exts()) {
            r matches Ok(f) && (f.path matches Some(q) && q@ == p@ && !f.cancelled)
        } else {
            r matches Err(m) && m@ == "Invalid file format. Please select a .pptx or .ppt file"@
        },
{
    match selected {
        None => Ok(FileSelectionResult { path: None, cancelled: true }),
        Some(p) => {
            let ok = match path_extension(p.as_str()) {
                Some(e) => {
                    let hit = eq_ignore_ascii_case(e.as_str(), "pptx") || eq_ignore_ascii_case(
                        e.as_str(),
                        "ppt",
                    );
                    proof {
                        reveal_strlit("pptx");
                        reveal_strlit("ppt");
                        if hit {
                            lemma_lower_fixed("pptx"@);
                            lemma_lower_fixed("ppt"@);
                            assert(spec_ext_among(p@, spec_presentation_exts()));
                        } else {
                            lemma_lower_fixed("pptx"@);
                            lemma_lower_fixed("ppt"@);
                            assert(!spec_ext_among(p@, spec_presentation_exts()));
                        }
                    }
                    hit
                },
                None => false,
            };
            if ok {
                Ok(FileSelectionResult { path: Some(p), cancelled: false })
            } else {
                Err(String::from_str("Invalid file format. Please select a .pptx or .ppt file"))
            }
        },
    }
}

/// The pure outcome of the video picker, over the supported video
/// extensions.
pub fn video_selection_outcome(selected: Option<String>) -> (r: Result<FileSelectionResult, String>)
    ensures
        selected is None ==> (r matches Ok(f) && f.path is None && f.cancelled),
        selected matches Some(p) ==> if spec_ext_among(p@, spec_video_exts()) {
            r matches Ok(f) && (f.path matches Some(q) && q@ == p@ && !f.cancelled)
        } else {
            r matches Err(m) && m@ == "Invalid file format. Please select a supported video file"@
        },
{
    match selected {
        None => Ok(FileSelectionResult { path: None, cancelled: true }),
        Some(p) => {
            let ok = match path_extension(p.as_str()) {
                Some(e) => {
                    let hit = eq_ignore_ascii_case(e.as_str(), "mp4") || eq_ignore_ascii_case(
                        e.as_str(),
                        "avi",
                    ) || eq_ignore_ascii_case(e.as_str(), "mov") || eq_ignore_ascii_case(
                        e.as_str(),
                        "webm",
                    ) || eq_ignore_ascii_case(e.as_str(), "mkv") || eq_ignore_ascii_case(
                        e.as_str(),
                        "flv",
                    ) || eq_ignore_ascii_case(e.as_str(), "wmv");
                    proof {
                        reveal_strlit("mp4");
                        reveal_strlit("avi");
                        reveal_strlit("mov");
                        reveal_strlit("webm");
                        reveal_strlit("mkv");
                        reveal_strlit("flv");
                        reveal_strlit("wmv");
                        lemma_lower_fixed("mp4"@);
                        lemma_lower_fixed("avi"@);
                        lemma_lower_fixed("mov"@);
                        lemma_lower_fixed("webm"@);
                        lemma_lower_fixed("mkv"@);
                        lemma_lower_fixed("flv"@);
                        lemma_lower_fixed("wmv"@);
                        if hit {
                            assert(spec_ext_among(p@, spec_video_exts()));
                        } else {
                            assert(!spec_ext_among(p@, spec_video_exts()));
                        }
                    }
                    hit
                },
                None => false,
            };
            if ok {
                Ok(FileSelectionResult { path: Some(p), cancelled: false })
            } else {
                Err(String::from_str("Invalid file format. Please select a supported video file"))
            }
        },
    }
}

/// Lowering fixes text that is already lower-case.
proof fn lemma_lower_fixed(s: Seq<char>)
    requires
        forall|j: int| 0 <= j < s.len() ==> !('A' <= #[trigger] s[j] && s[j] <= 'Z'),
    ensures
        spec_ascii_lower(s) == s,
{
    assert(spec_ascii_lower(s) =~= s);
}

/// What the host should do with one incoming control event.
#[derive(Debug, PartialEq, Eq, Structural)]
pub enum AudioAction {
    /// Set the playback volume to the carried value.
    SetVolume(u8),
    /// The volume value lies outside the accepted range and is refused.
    VolumeOutOfRange(u8),
    /// A volume event arrived without a value and is refused.
    MissingVolume,
    Mute,
    PlayPause,
    Stop,
    Next,
    Previous,
    /// Acknowledged but deliberately not forwarded.
    ManualPause,
    /// An event this protocol does not know.
    Unknown,
}

/// The routing rule for one control event.
pub open spec fn spec_route_audio_event(event: Seq<char>, value: Option<u8>) -> AudioAction {
    if event == "set_volume"@ {
        match value {
            Some(v) => if v <= 100 {
                AudioAction::SetVolume(v)
            } else {
                AudioAction::VolumeOutOfRange(v)
            },
            None => AudioAction::MissingVolume,
        }
    } else if event == "mute"@ {
        AudioAction::Mute
    } else if event == "play_pause"@ {
        AudioAction::PlayPause
    } else if event == "stop"@ {
        AudioAction::Stop
    } else if event == "next"@ {
        AudioAction::Next
    } else if event == "previous"@ {
        AudioAction::Previous
    } else if event == "manual_pause"@ {
        AudioAction::ManualPause
    } else {
        AudioAction::Unknown
    }
}

/// Decide what to do with one incoming control event: a volume event
/// carries a value up to one hundred, the transport controls carry none,
/// and anything else is unknown.
pub fn route_audio_event(event: &str, value: Option<u8>) -> (r: AudioAction)
    ensures
        r == spec_route_audio_event(event@, value),
{
    if text::str_eq(event, "set_volume") {
        match value {
            Some(v) => {
                if v <= 100 {
                    AudioAction::SetVolume(v)
                } else {
                    AudioAction::VolumeOutOfRange(v)
                }
            },
            None => AudioAction::MissingVolume,
        }
    } else if text::str_eq(event, "mute") {
        AudioAction::Mute
    } else if text::str_eq(event, "play_pause") {
        AudioAction::PlayPause
    } else if text::str_eq(event, "stop") {
        AudioAction::Stop
    } else if text::str_eq(event, "next") {
        AudioAction::Next
    } else if text::str_eq(event, "previous") {
        AudioAction::Previous
    } else if text::str_eq(event, "manual_pause") {
        AudioAction::ManualPause
    } else {
        AudioAction::Unknown
    }
}

} // verus!
