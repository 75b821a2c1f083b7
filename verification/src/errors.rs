//! The conversion pipeline's error kinds and their user-facing messages.
//!
//! Structurally fatal conditions each get a distinct kind; anomalies with a
//! safe default (missing descriptor, missing title, missing relationship
//! part, unresolved media reference) are absorbed where they arise and never
//! reach this type.

use vstd::prelude::*;
use vstd::string::*;
use crate::text::{spec_dec_chars, usize_to_string};

verus! {

/// A structurally fatal conversion failure.
#[derive(Debug)]
pub enum ConvError {
    /// The input file does not exist; the detail is the path looked up.
    NotFound(String),
    /// The input path does not carry a recognized presentation extension.
    InvalidExtension,
    /// The container could not be opened or one of its parts could not be
    /// read; the detail is the full message.
    CorruptArchive(String),
    /// The package holds no slide parts at all.
    NoSlidesFound,
    /// The slide part of the given zero-based index is absent.
    SlideNotFound(usize),
    /// A slide's markup violates well-formedness; the detail is the full
    /// message.
    XmlParseError(String),
    /// An embedded media asset's bytes could not be decoded as an image;
    /// the detail is the full message.
    ImageDecodeError(String),
    /// The output document could not be encoded; the detail is the full
    /// message.
    PdfGenerationError(String),
    /// Document assembly was asked to build a document out of no pages.
    EmptyInput,
}

/// The user-facing message of each error kind.
pub open spec fn spec_message(e: ConvError) -> Seq<char> {
    match e {
        ConvError::NotFound(p) => "File not found: "@ + p@,
        ConvError::InvalidExtension => "Invalid file format. Only .pptx files are supported."@,
        ConvError::CorruptArchive(d) => d@,
        ConvError::NoSlidesFound => "No slides found in PPTX file. File may be corrupted."@,
        ConvError::SlideNotFound(i) => "Slide "@ + spec_dec_chars(i as nat + 1) + " not found"@,
        ConvError::XmlParseError(d) => d@,
        ConvError::ImageDecodeError(d) => d@,
        ConvError::PdfGenerationError(d) => d@,
        ConvError::EmptyInput => "No slides to generate PDF"@,
    }
}

impl ConvError {
    /// Render the error as its user-facing message.  A missing slide is
    /// reported under its one-based number, which must be representable.
    pub fn message(self) -> (r: String)
        requires
            self matches ConvError::SlideNotFound(i) ==> i < usize::MAX,
        ensures
            r@ == spec_message(self),
    {
        match self {
            ConvError::NotFound(p) => {
                let mut s = String::from_str("File not found: ");
                s.append(p.as_str());
                s
            },
            ConvError::InvalidExtension => String::from_str(
                "Invalid file format. Only .pptx files are supported.",
            ),
            ConvError::CorruptArchive(d) => d,
            ConvError::NoSlidesFound => String::from_str(
                "No slides found in PPTX file. File may be corrupted.",
            ),
            ConvError::SlideNotFound(i) => {
                let mut s = String::from_str("Slide ");
                let num = usize_to_string(i + 1);
                s.append(num.as_str());
                s.append(" not found");
                s
            },
            ConvError::XmlParseError(d) => d,
            ConvError::ImageDecodeError(d) => d,
            ConvError::PdfGenerationError(d) => d,
            ConvError::EmptyInput => String::from_str("No slides to generate PDF"),
        }
    }
}

} // verus!
