//! The container reader: opens the zip-based package, enumerates its parts
//! and extracts metadata, slide markup and embedded media.
//!
//! The archive itself is handled by the `zip` crate behind a small set of
//! trusted wrappers; everything read out of it is modelled by named
//! functions: the ordered part names, the map from part name to bytes,
//! which byte sequences open as archives, and which parts extract
//! cleanly.

use vstd::prelude::*;
use vstd::string::*;
use vstd::utf8::{decode_utf8, valid_utf8};
use std::io::Cursor;
use std::io::Read;
use crate::errors::ConvError;
use crate::text;
use crate::text::{spec_dec_chars, spec_parse_u64, spec_starts_with, spec_ends_with, spec_contains};
use crate::units;
use crate::units::spec_emu_to_centipx;
use crate::xml;
use crate::xml::{SpecAttr, SpecEvent, XmlAttr, XmlEvent, attrs_view, events_view, spec_scan, spec_unescape};

verus! {

#[verifier::external_type_specification]
#[verifier::external_body]
#[verifier::reject_recursive_types(R)]
pub struct ExZipArchive<R>(zip::ZipArchive<R>);

#[verifier::external_type_specification]
#[verifier::external_body]
#[verifier::reject_recursive_types(T)]
pub struct ExCursor<T>(Cursor<T>);

/// The part names of the archive, in central-directory order.
pub uninterp spec fn zip_part_names(a: zip::ZipArchive<Cursor<Vec<u8>>>) -> Seq<Seq<char>>;

/// The bytes of each part of the archive, keyed by the name a lookup
/// presents: a name is in the domain exactly when a lookup of it finds an
/// entry.
pub uninterp spec fn zip_part_data(a: zip::ZipArchive<Cursor<Vec<u8>>>) -> Map<Seq<char>, Seq<u8>>;

/// Whether the archive parser accepts these bytes as a well-formed
/// archive.  The bytes sit in memory, so opening is a function of them
/// alone.
pub uninterp spec fn zip_ok(bytes: Seq<u8>) -> bool;

/// Whether the named part extracts cleanly from the archive: present,
/// not of an unsupported or encrypted kind, and decompressing without
/// error.  The archive sits in memory, so extraction is a function of
/// the archive and the name alone.
pub uninterp spec fn zip_part_readable(a: zip::ZipArchive<Cursor<Vec<u8>>>, name: Seq<char>) -> bool;

/// Relies on zip::ZipArchive::new: parses the central directory of the
/// bytes and fails exactly on what is not a well-formed archive.  Entry
/// names are decoded for enumeration but looked up by their raw bytes, so
/// the enumerated names and the looked-up domain are promised to agree
/// only on ASCII names — both decodings fix ASCII, and no non-ASCII raw
/// name decodes to an ASCII string — which are the only names this
/// library ever looks up.
#[verifier::external_body]
fn zip_open(bytes: Vec<u8>) -> (r: Result<zip::ZipArchive<Cursor<Vec<u8>>>, String>)
    ensures
        (r is Ok) <==> zip_ok(bytes@),
        r matches Ok(a) ==> forall|n: Seq<char>|
            #![trigger zip_part_data(a).dom().contains(n)]
            #![trigger zip_part_names(a).contains(n)]
            vstd::utf8::is_ascii_chars(n) ==> (zip_part_data(a).dom().contains(n)
                <==> zip_part_names(a).contains(n)),
{
    zip::ZipArchive::new(Cursor::new(bytes)).map_err(|e| e.to_string())
}

/// Relies on zip::ZipArchive::len: the number of entries in the central
/// directory.
#[verifier::external_body]
fn zip_len(a: &zip::ZipArchive<Cursor<Vec<u8>>>) -> (r: usize)
    ensures
        r == zip_part_names(*a).len(),
{
    a.len()
}

/// Relies on zip::ZipArchive::name_for_index: the entry name at an index
/// below the entry count.
#[verifier::external_body]
fn zip_name_at(a: &zip::ZipArchive<Cursor<Vec<u8>>>, i: usize) -> (r: String)
    requires
        i < zip_part_names(*a).len(),
    ensures
        r@ == zip_part_names(*a)[i as int],
{
    match a.name_for_index(i) {
        Some(s) => s.to_owned(),
        None => String::new(),
    }
}

/// Relies on zip::ZipArchive::by_name and std::io::Read::read_to_end:
/// `by_name` fails with `FileNotFound` exactly when the name is not an
/// entry; reading a found entry yields its bytes, or fails exactly when
/// the entry does not extract cleanly — the archive is in memory, so
/// neither outcome depends on anything outside the archive and the name.
#[verifier::external_body]
fn zip_read(a: &mut zip::ZipArchive<Cursor<Vec<u8>>>, name: &str) -> (r: Result<
    Option<Vec<u8>>,
    String,
>)
    ensures
        zip_part_names(*final(a)) == zip_part_names(*old(a)),
        zip_part_data(*final(a)) == zip_part_data(*old(a)),
        forall|n: Seq<char>|
            #![trigger zip_part_readable(*final(a), n)]
            #![trigger zip_part_readable(*old(a), n)]
            zip_part_readable(*final(a), n) == zip_part_readable(*old(a), n),
        (r matches Ok(None)) <==> !zip_part_data(*old(a)).dom().contains(name@),
        (r is Err) <==> (zip_part_data(*old(a)).dom().contains(name@) && !zip_part_readable(
            *old(a),
            name@,
        )),
        r matches Ok(Some(b)) ==> b@ == zip_part_data(*old(a))[name@],
{
    match a.by_name(name) {
        Ok(mut f) => {
            let mut v = Vec::new();
            match f.read_to_end(&mut v) {
                Ok(_) => Ok(Some(v)),
                Err(e) => Err(e.to_string()),
            }
        },
        Err(zip::result::ZipError::FileNotFound) => Ok(None),
        Err(e) => Err(e.to_string()),
    }
}

/// Relies on String::from_utf8: accepts exactly the valid UTF-8 encodings
/// and decodes them.
#[verifier::external_body]
fn string_from_utf8(b: Vec<u8>) -> (r: Option<String>)
    ensures
        (r matches Some(s) && s@ == decode_utf8(b@)) <==> valid_utf8(b@),
        r is None <==> !valid_utf8(b@),
{
    match String::from_utf8(b) {
        Ok(s) => Some(s),
        Err(_) => None,
    }
}

/// Package-level metadata, produced once per package.
///
/// The canvas size is carried in hundredths of a pixel, derived from the
/// declared fixed-point size at 96 pixels per inch.
#[derive(Debug, Clone)]
pub struct PptxMetadata {
    pub slide_count: usize,
    pub slide_width: u64,
    pub slide_height: u64,
    pub title: Option<String>,
}

/// One embedded media asset: its relationship id, raw bytes and declared
/// format extension.
#[derive(Debug, Clone)]
pub struct ImageData {
    pub id: String,
    pub data: Vec<u8>,
    pub extension: String,
}

/// The specification-level image of a media asset.
pub ghost struct SpecImage {
    pub id: Seq<char>,
    pub data: Seq<u8>,
    pub extension: Seq<char>,
}

impl View for ImageData {
    type V = SpecImage;

    open spec fn view(&self) -> SpecImage {
        SpecImage { id: self.id@, data: self.data@, extension: self.extension@ }
    }
}

/// The specification-level image of a sequence of media assets.
pub open spec fn images_view(s: Seq<ImageData>) -> Seq<SpecImage> {
    s.map_values(|d: ImageData| d@)
}

/// One slide: its zero-based index, raw markup, and resolved media.
#[derive(Debug, Clone)]
pub struct SlideData {
    pub index: usize,
    pub xml_content: String,
    pub images: Vec<ImageData>,
}

/// The specification-level image of a sequence of strings.
pub open spec fn strings_view(s: Seq<String>) -> Seq<Seq<char>> {
    s.map_values(|x: String| x@)
}

/// Whether a part name is a slide part: it sits in the slides directory
/// under the conventional `slide<n>.xml` pattern.
pub open spec fn spec_is_slide_part(name: Seq<char>) -> bool {
    spec_starts_with(name, "ppt/slides/slide"@) && spec_ends_with(name, ".xml"@)
}

/// The number of slide parts among the given part names.
pub open spec fn spec_slide_count(names: Seq<Seq<char>>) -> nat
    decreases names.len(),
{
    if names.len() == 0 {
        0
    } else {
        spec_slide_count(names.drop_last()) + if spec_is_slide_part(names.last()) {
            1nat
        } else {
            0nat
        }
    }
}

proof fn lemma_slide_count_le_len(names: Seq<Seq<char>>)
    ensures
        spec_slide_count(names) <= names.len(),
    decreases names.len(),
{
    if names.len() > 0 {
        lemma_slide_count_le_len(names.drop_last());
    }
}

/// The name of the slide part at a zero-based slide index.
pub open spec fn spec_slide_part_name(i: int) -> Seq<char> {
    "ppt/slides/slide"@ + spec_dec_chars((i + 1) as nat) + ".xml"@
}

/// The name of a slide's companion relationship part.
pub open spec fn spec_rels_part_name(i: int) -> Seq<char> {
    "ppt/slides/_rels/slide"@ + spec_dec_chars((i + 1) as nat) + ".xml.rels"@
}

/// The decoded text of a part: present and valid UTF-8, or nothing.
pub open spec fn spec_part_text(data: Map<Seq<char>, Seq<u8>>, name: Seq<char>) -> Option<
    Seq<char>,
> {
    if data.dom().contains(name) && valid_utf8(data[name]) {
        Some(decode_utf8(data[name]))
    } else {
        None
    }
}

/// Reading never changes the package: the same parts, bytes and
/// readability before and after.
pub open spec fn spec_model_preserved(post: PptxExtractor, pre: PptxExtractor) -> bool {
    &&& post.names() == pre.names()
    &&& post.data() == pre.data()
    &&& (forall|n: Seq<char>|
        #![trigger post.readable(n)]
        #![trigger pre.readable(n)]
        post.readable(n) == pre.readable(n))
}

/// Two readers with the same parts, bytes and readability agree on what
/// is extractable.
pub proof fn lemma_extractable_congruent(a: PptxExtractor, b: PptxExtractor, j: int)
    requires
        spec_model_preserved(a, b),
    ensures
        a.spec_slide_extractable(j) == b.spec_slide_extractable(j),
{
    assert(a.data() == b.data());
    let sname = spec_slide_part_name(j);
    let rname = spec_rels_part_name(j);
    assert(a.readable(sname) == b.readable(sname));
    assert(a.readable(rname) == b.readable(rname));
    let ids = spec_image_refs(spec_scan(spec_part_text(a.data(), sname)->Some_0)->Some_0);
    if a.data().dom().contains(rname) && spec_part_text(a.data(), rname) is Some && spec_scan(
        spec_part_text(a.data(), rname)->Some_0,
    ) is Some {
        let maps = spec_rel_mappings(
            spec_scan(spec_part_text(a.data(), rname)->Some_0)->Some_0,
            ids,
        );
        assert(forall|t: int|
            0 <= t < maps.len() ==> a.readable(spec_media_path(#[trigger] maps[t].1))
                == b.readable(spec_media_path(maps[t].1)));
    }
}

/// The container reader.  It owns sequential access to the archive; one
/// reader serves one conversion job.
pub struct PptxExtractor {
    archive: zip::ZipArchive<Cursor<Vec<u8>>>,
}

impl PptxExtractor {
    /// The ordered part names of the package.
    pub closed spec fn names(&self) -> Seq<Seq<char>> {
        zip_part_names(self.archive)
    }

    /// The part bytes of the package, by name.
    pub closed spec fn data(&self) -> Map<Seq<char>, Seq<u8>> {
        zip_part_data(self.archive)
    }

    /// Whether the named part extracts cleanly from the package.
    pub closed spec fn readable(&self, name: Seq<char>) -> bool {
        zip_part_readable(self.archive, name)
    }

    /// The enumerated names and the looked-up parts agree on every ASCII
    /// name.
    pub open spec fn ascii_parts_agree(&self) -> bool {
        forall|n: Seq<char>|
            #![trigger self.data().dom().contains(n)]
            #![trigger self.names().contains(n)]
            vstd::utf8::is_ascii_chars(n) ==> (self.data().dom().contains(n)
                <==> self.names().contains(n))
    }

    /// The canvas size the package declares, in hundredths of a pixel:
    /// the descriptor part's declared size when that part is present,
    /// readable and valid text, the standard 16:9 default otherwise.
    pub open spec fn spec_canvas_centipx(&self) -> (nat, nat) {
        match spec_part_text(self.data(), "ppt/presentation.xml"@) {
            Some(t) => if self.readable("ppt/presentation.xml"@) {
                spec_dims_centipx(t)
            } else {
                (96000nat, 54000nat)
            },
            None => (96000nat, 54000nat),
        }
    }

    /// The package's title: the core-properties part's non-empty title
    /// when that part is present, readable and well-formed, nothing
    /// otherwise.
    pub open spec fn spec_package_title(&self) -> Option<Seq<char>> {
        match spec_part_text(self.data(), "docProps/core.xml"@) {
            Some(c) => if self.readable("docProps/core.xml"@) {
                spec_title_of(c)
            } else {
                None
            },
            None => None,
        }
    }

    /// Whether a slide's media can all be resolved and loaded: an absent
    /// relationship part is fine; a present one must be readable,
    /// well-formed text, and every mapped target that is a part of the
    /// package must extract cleanly.
    pub open spec fn spec_rels_loadable(&self, i: int, ids: Seq<Seq<char>>) -> bool {
        let rname = spec_rels_part_name(i);
        self.data().dom().contains(rname) ==> {
            &&& self.readable(rname)
            &&& spec_part_text(self.data(), rname) is Some
            &&& spec_scan(spec_part_text(self.data(), rname)->Some_0) is Some
            &&& (forall|j: int|
                0 <= j < spec_rel_mappings(
                    spec_scan(spec_part_text(self.data(), rname)->Some_0)->Some_0,
                    ids,
                ).len() ==> {
                    let path = spec_media_path(
                        (#[trigger] spec_rel_mappings(
                            spec_scan(spec_part_text(self.data(), rname)->Some_0)->Some_0,
                            ids,
                        )[j]).1,
                    );
                    self.data().dom().contains(path) ==> self.readable(path)
                })
        }
    }

    /// Whether one slide can be extracted in full: its part is present,
    /// readable and valid text, its markup scans, and its media loads.
    pub open spec fn spec_slide_extractable(&self, i: int) -> bool {
        let sname = spec_slide_part_name(i);
        &&& spec_part_text(self.data(), sname) is Some
        &&& self.readable(sname)
        &&& spec_scan(spec_part_text(self.data(), sname)->Some_0) is Some
        &&& self.spec_rels_loadable(
            i,
            spec_image_refs(spec_scan(spec_part_text(self.data(), sname)->Some_0)->Some_0),
        )
    }

    /// Open a package from its file name and raw bytes.  The name must
    /// carry one of the two conventional presentation extensions; the
    /// bytes must form a well-formed archive.
    pub fn new(file_name: &str, bytes: Vec<u8>) -> (r: Result<Self, ConvError>)
        ensures
            r matches Err(e) ==> (e is InvalidExtension || e is CorruptArchive),
            (match spec_path_extension(file_name@) {
                Some(ext) => ext != "pptx"@ && ext != "ppt"@,
                None => true,
            }) <==> (r matches Err(e) && e is InvalidExtension),
            (match spec_path_extension(file_name@) {
                Some(ext) => ext == "pptx"@ || ext == "ppt"@,
                None => false,
            }) ==> ((r is Ok) <==> zip_ok(bytes@)),
            r matches Err(e) ==> (e matches ConvError::CorruptArchive(m) ==> spec_starts_with(
                m@,
                "Corrupted PPTX file: Unable to read ZIP structure. "@,
            )),
            r matches Ok(x) ==> x.ascii_parts_agree(),
    {
        let ext_ok = match path_extension(file_name) {
            Some(ext) => {
                proof {
                    reveal_strlit("pptx");
                    reveal_strlit("ppt");
                }
                text::str_eq(ext.as_str(), "pptx") || text::str_eq(ext.as_str(), "ppt")
            },
            None => false,
        };
        if !ext_ok {
            return Err(ConvError::InvalidExtension);
        }
        match zip_open(bytes) {
            Ok(archive) => Ok(PptxExtractor { archive }),
            Err(detail) => {
                let mut m = String::from_str("Corrupted PPTX file: Unable to read ZIP structure. ");
                m.append(detail.as_str());
                proof {
                    text::lemma_concat_starts_with(
                        "Corrupted PPTX file: Unable to read ZIP structure. "@,
                        detail@,
                    );
                }
                Err(ConvError::CorruptArchive(m))
            },
        }
    }

    /// Count the slide parts of the package.
    pub fn count_slides(&self) -> (r: usize)
        ensures
            r == spec_slide_count(self.names()),
    {
        let n = zip_len(&self.archive);
        let mut count: usize = 0;
        let mut i: usize = 0;
        proof {
            assert(self.names().take(0) =~= Seq::<Seq<char>>::empty());
        }
        while i < n
            invariant
                i <= n,
                count <= i,
                n == self.names().len(),
                count == spec_slide_count(self.names().take(i as int)),
            decreases n - i,
        {
            let name = zip_name_at(&self.archive, i);
            proof {
                assert(self.names().take(i as int + 1).drop_last() =~= self.names().take(i as int));
                assert(self.names().take(i as int + 1).last() == self.names()[i as int]);
                lemma_slide_count_le_len(self.names().take(i as int));
            }
            if text::starts_with(name.as_str(), "ppt/slides/slide") && text::ends_with(
                name.as_str(),
                ".xml",
            ) {
                count = count + 1;
            }
            i = i + 1;
        }
        proof {
            assert(self.names().take(n as int) =~= self.names());
        }
        count
    }

    /// Read a part's text: `Ok(None)` exactly when the part is absent,
    /// `Ok(Some(s))` exactly when it is present, extracts cleanly and
    /// decodes, an error otherwise.
    fn read_part_string(&mut self, name: &str) -> (r: Result<Option<String>, String>)
        ensures
            spec_model_preserved(*final(self), *old(self)),
            r matches Ok(Some(s)) ==> spec_part_text(old(self).data(), name@) == Some(s@),
            (r matches Ok(None)) <==> !old(self).data().dom().contains(name@),
            (r is Ok && spec_part_text(old(self).data(), name@) is Some && old(self).readable(
                name@,
            )) ==> r is Ok && (r matches Ok(o) && o is Some),
            (r is Err) <==> (old(self).data().dom().contains(name@) && (!old(self).readable(name@)
                || !valid_utf8(old(self).data()[name@]))),
    {
        match zip_read(&mut self.archive, name) {
            Ok(Some(bytes)) => match string_from_utf8(bytes) {
                Some(s) => Ok(Some(s)),
                None => Err(String::from_str("stream did not contain valid UTF-8")),
            },
            Ok(None) => Ok(None),
            Err(e) => Err(e),
        }
    }

    /// Extract the canvas size from the package's descriptor part, in
    /// hundredths of a pixel: exactly the declared size when the part is
    /// present, extracts cleanly and is valid text, and the standard 16:9
    /// default otherwise — a policy decision, not an error.
    pub fn extract_slide_dimensions(&mut self) -> (r: (u64, u64))
        ensures
            spec_model_preserved(*final(self), *old(self)),
            (r.0 as nat, r.1 as nat) == old(self).spec_canvas_centipx(),
    {
        match self.read_part_string("ppt/presentation.xml") {
            Ok(Some(content)) => dims_from_descriptor(content.as_str()),
            _ => {
                proof {
                    lemma_default_dims_value();
                }
                (
                    crate::units::emu_to_centipx(crate::units::DEFAULT_WIDTH_EMU),
                    crate::units::emu_to_centipx(crate::units::DEFAULT_HEIGHT_EMU),
                )
            },
        }
    }

    /// Extract the package title from the core-properties part: exactly
    /// the part's non-empty title when it is present, extracts cleanly
    /// and is well-formed.  An absent part, unreadable or malformed text,
    /// and an empty title all mean "no title", never an error.
    pub fn extract_title(&mut self) -> (r: Option<String>)
        ensures
            spec_model_preserved(*final(self), *old(self)),
            opt_string_view(r) == old(self).spec_package_title(),
    {
        match self.read_part_string("docProps/core.xml") {
            Ok(Some(content)) => title_from_core(content.as_str()),
            _ => None,
        }
    }

    /// Extract the package metadata: the slide count, the canvas size in
    /// hundredths of a pixel, and the title if one is declared.  A package
    /// without slide parts is the one metadata error.
    pub fn extract_metadata(&mut self) -> (r: Result<PptxMetadata, ConvError>)
        ensures
            spec_model_preserved(*final(self), *old(self)),
            (r is Err) <==> spec_slide_count(old(self).names()) == 0,
            r matches Err(e) ==> e is NoSlidesFound,
            r matches Ok(m) ==> {
                &&& m.slide_count == spec_slide_count(old(self).names())
                &&& m.slide_count >= 1
                &&& (m.slide_width as nat, m.slide_height as nat) == old(
                    self,
                ).spec_canvas_centipx()
                &&& opt_string_view(m.title) == old(self).spec_package_title()
            },
    {
        let slide_count = self.count_slides();
        if slide_count == 0 {
            return Err(ConvError::NoSlidesFound);
        }
        let dims = self.extract_slide_dimensions();
        let title = self.extract_title();
        Ok(
            PptxMetadata {
                slide_count,
                slide_width: dims.0,
                slide_height: dims.1,
                title,
            },
        )
    }

    /// Extract one slide: its markup and its resolved media assets.  The
    /// slide part must exist, extract cleanly and hold well-formed
    /// markup; a missing relationship part means zero media, and a media
    /// target that is not a part of the package is dropped.
    pub fn extract_slide(&mut self, slide_index: usize) -> (r: Result<SlideData, ConvError>)
        requires
            slide_index < usize::MAX,
        ensures
            spec_model_preserved(*final(self), *old(self)),
            !old(self).data().dom().contains(spec_slide_part_name(slide_index as int)) <==> (
            r matches Err(e) && e == ConvError::SlideNotFound(slide_index)),
            r matches Err(e) ==> (e matches ConvError::SlideNotFound(j) ==> j == slide_index),
            r matches Ok(sd) ==> spec_slide_ok(old(self).data(), slide_index as int, sd),
            old(self).spec_slide_extractable(slide_index as int) ==> r is Ok,
    {
        let name = slide_part_name(slide_index);
        let xml_content = match self.read_part_string(name.as_str()) {
            Ok(Some(s)) => s,
            Ok(None) => {
                return Err(ConvError::SlideNotFound(slide_index));
            },
            Err(detail) => {
                let mut m = String::from_str("Failed to read slide content: ");
                m.append(detail.as_str());
                return Err(ConvError::CorruptArchive(m));
            },
        };
        let image_ids = match image_refs_from_markup(xml_content.as_str()) {
            Ok(ids) => ids,
            Err(e) => {
                return Err(e);
            },
        };
        let images = match self.load_slide_images(slide_index, &image_ids) {
            Ok(imgs) => imgs,
            Err(e) => {
                return Err(e);
            },
        };
        Ok(SlideData { index: slide_index, xml_content, images })
    }

    /// Resolve and load a slide's media assets: relationships whose type
    /// denotes an image and whose id is referenced, read from the archive;
    /// an absent relationship part means zero media.
    fn load_slide_images(&mut self, slide_index: usize, image_ids: &Vec<String>) -> (r: Result<
        Vec<ImageData>,
        ConvError,
    >)
        requires
            slide_index < usize::MAX,
        ensures
            spec_model_preserved(*final(self), *old(self)),
            old(self).spec_rels_loadable(slide_index as int, strings_view(image_ids@)) ==> r is Ok,
            r matches Ok(v) ==> match spec_part_text(
                old(self).data(),
                spec_rels_part_name(slide_index as int),
            ) {
                None => images_view(v@).len() == 0,
                Some(rc) => spec_scan(rc) matches Some(revs) && images_view(v@)
                    == spec_loaded_images(
                    old(self).data(),
                    spec_rel_mappings(revs, strings_view(image_ids@)),
                ),
            },
            r matches Err(e) ==> !(e is SlideNotFound),
    {
        let rels_name = rels_part_name(slide_index);
        let content = match self.read_part_string(rels_name.as_str()) {
            Ok(Some(s)) => s,
            Ok(None) => {
                return Ok(Vec::new());
            },
            Err(detail) => {
                let mut m = String::from_str("Failed to read relationships: ");
                m.append(detail.as_str());
                return Err(ConvError::CorruptArchive(m));
            },
        };
        let mappings = match parse_image_relationships(content.as_str(), image_ids) {
            Ok(m) => m,
            Err(e) => {
                return Err(e);
            },
        };
        let ghost maps_v = pairs_view(mappings@);
        let ghost data_v = self.data();
        let ghost loadable = old(self).spec_rels_loadable(
            slide_index as int,
            strings_view(image_ids@),
        );
        let ghost rname_v = spec_rels_part_name(slide_index as int);
        let n = mappings.len();
        let mut images: Vec<ImageData> = Vec::new();
        let mut i: usize = 0;
        proof {
            assert(maps_v.take(0) =~= Seq::<(Seq<char>, Seq<char>)>::empty());
            assert(images_view(images@) =~= Seq::<SpecImage>::empty());
        }
        while i < n
            invariant
                i <= n,
                n == mappings@.len(),
                maps_v == pairs_view(mappings@),
                data_v == self.data(),
                spec_model_preserved(*self, *old(self)),
                loadable == old(self).spec_rels_loadable(
                    slide_index as int,
                    strings_view(image_ids@),
                ),
                loadable ==> maps_v == spec_rel_mappings(
                    spec_scan(spec_part_text(old(self).data(), rname_v)->Some_0)->Some_0,
                    strings_view(image_ids@),
                ),
                rname_v == spec_rels_part_name(slide_index as int),
                old(self).data().dom().contains(rname_v),
                images_view(images@) == spec_loaded_images(data_v, maps_v.take(i as int)),
            decreases n - i,
        {
            proof {
                assert(maps_v.take(i as int + 1).drop_last() =~= maps_v.take(i as int));
                assert(maps_v.take(i as int + 1).last() == (
                    mappings@[i as int].0@,
                    mappings@[i as int].1@,
                ));
            }
            let mut image_path = String::from_str("ppt/slides/");
            image_path.append(mappings[i].1.as_str());
            let ghost prev = *self;
            let read_result = zip_read(&mut self.archive, image_path.as_str());
            proof {
                assert forall|nm: Seq<char>| #[trigger] self.readable(nm) == prev.readable(
                    nm,
                ) by {
                    assert(zip_part_readable(self.archive, nm) == zip_part_readable(
                        prev.archive,
                        nm,
                    ));
                }
                assert(spec_model_preserved(*self, *old(self)));
                assert(image_path@ == spec_media_path(maps_v[i as int].1));
            }
            match read_result {
                Ok(Some(bytes)) => {
                    let extension = match path_extension(image_path.as_str()) {
                        Some(e) => e,
                        None => String::from_str("png"),
                    };
                    let id = mappings[i].0.clone();
                    let img = ImageData { id, data: bytes, extension };
                    proof {
                        assert(images_view(images@.push(img)) =~= images_view(images@).push(img@));
                        assert(spec_loaded_images(data_v, maps_v.take(i as int + 1))
                            =~= images_view(images@).push(img@));
                    }
                    images.push(img);
                },
                Ok(None) => {
                    proof {
                        assert(images_view(images@) + Seq::<SpecImage>::empty() =~= images_view(
                            images@,
                        ));
                    }
                },
                Err(detail) => {
                    proof {
                        if loadable {
                            assert(old(self).data().dom().contains(
                                spec_media_path(maps_v[i as int].1),
                            ) && !old(self).readable(spec_media_path(maps_v[i as int].1)));
                        }
                    }
                    let mut m = String::from_str("Failed to read image data: ");
                    m.append(detail.as_str());
                    return Err(ConvError::CorruptArchive(m));
                },
            }
            i = i + 1;
        }
        proof {
            assert(maps_v.take(n as int) =~= maps_v);
        }
        Ok(images)
    }

    /// Extract every slide of the package, in slide order.  A package
    /// with at least one slide part, each of them extractable, always
    /// succeeds.
    pub fn extract_all_slides(&mut self) -> (r: Result<Vec<SlideData>, ConvError>)
        ensures
            spec_model_preserved(*final(self), *old(self)),
            spec_slide_count(old(self).names()) == 0 ==> r is Err,
            r matches Err(e) ==> (e matches ConvError::SlideNotFound(j) ==> j < usize::MAX),
            r matches Ok(v) ==> {
                &&& v@.len() == spec_slide_count(old(self).names())
                &&& v@.len() >= 1
                &&& forall|j: int|
                    0 <= j < v@.len() ==> spec_slide_ok(old(self).data(), j, #[trigger] v@[j])
            },
            (spec_slide_count(old(self).names()) >= 1 && (forall|j: int|
                0 <= j < spec_slide_count(old(self).names()) ==> old(
                    self,
                ).spec_slide_extractable(j))) ==> r is Ok,
    {
        let metadata = match self.extract_metadata() {
            Ok(m) => m,
            Err(e) => {
                return Err(e);
            },
        };
        let count = metadata.slide_count;
        let mut slides: Vec<SlideData> = Vec::new();
        let mut i: usize = 0;
        while i < count
            invariant
                i <= count,
                count == spec_slide_count(old(self).names()),
                count >= 1,
                spec_model_preserved(*self, *old(self)),
                slides@.len() == i,
                forall|j: int|
                    0 <= j < i ==> spec_slide_ok(old(self).data(), j, #[trigger] slides@[j]),
            decreases count - i,
        {
            let ghost prev = *self;
            let slide = match self.extract_slide(i) {
                Ok(s) => s,
                Err(e) => {
                    proof {
                        assert(!prev.spec_slide_extractable(i as int));
                        assert(!old(self).spec_slide_extractable(i as int));
                    }
                    return Err(e);
                },
            };
            slides.push(slide);
            i = i + 1;
        }
        Ok(slides)
    }
}

/// The default canvas in hundredths of a pixel: the 16:9 default size is
/// exactly 960 by 540 pixels.
proof fn lemma_default_dims_value()
    ensures
        spec_emu_to_centipx(units::DEFAULT_WIDTH_EMU as nat) == 96000,
        spec_emu_to_centipx(units::DEFAULT_HEIGHT_EMU as nat) == 54000,
{
}


/// The attribute list of the first self-closing descriptor-size element.
pub open spec fn spec_find_sldsz(evs: Seq<SpecEvent>) -> Option<Seq<SpecAttr>>
    decreases evs.len(),
{
    if evs.len() == 0 {
        None
    } else {
        match evs.first() {
            SpecEvent::Empty { name, attrs } => if name == "p:sldSz"@ {
                Some(attrs)
            } else {
                spec_find_sldsz(evs.drop_first())
            },
            _ => spec_find_sldsz(evs.drop_first()),
        }
    }
}

/// The fixed-point length held by an attribute, or the default when the
/// attribute is absent or not a numeral.
pub open spec fn spec_attr_emu(attrs: Seq<SpecAttr>, key: Seq<char>, default: u64) -> u64 {
    match xml::spec_attr_last(attrs, key) {
        Some(v) => match spec_parse_u64(v) {
            Some(x) => x,
            None => default,
        },
        None => default,
    }
}

/// The canvas size, in hundredths of a pixel, declared by a descriptor
/// part's text: the first self-closing size element's `cx`/`cy`, each
/// falling back to the standard 16:9 default when absent or unparsable,
/// and the defaults outright when the text is malformed or has no size
/// element.
pub open spec fn spec_dims_centipx(content: Seq<char>) -> (nat, nat) {
    match spec_scan(content) {
        None => (
            spec_emu_to_centipx(units::DEFAULT_WIDTH_EMU as nat),
            spec_emu_to_centipx(units::DEFAULT_HEIGHT_EMU as nat),
        ),
        Some(evs) => match spec_find_sldsz(evs) {
            None => (
                spec_emu_to_centipx(units::DEFAULT_WIDTH_EMU as nat),
                spec_emu_to_centipx(units::DEFAULT_HEIGHT_EMU as nat),
            ),
            Some(attrs) => (
                spec_emu_to_centipx(spec_attr_emu(attrs, "cx"@, units::DEFAULT_WIDTH_EMU) as nat),
                spec_emu_to_centipx(spec_attr_emu(attrs, "cy"@, units::DEFAULT_HEIGHT_EMU) as nat),
            ),
        },
    }
}

/// A package with no descriptor text, malformed descriptor text, or a
/// descriptor without a size element yields the default canvas: the
/// standard 16:9 size, 960 by 540 pixels exactly.
pub proof fn lemma_default_canvas(content: Seq<char>)
    requires
        spec_scan(content) matches Some(evs) ==> spec_find_sldsz(evs) is None,
    ensures
        spec_dims_centipx(content) == (96000nat, 54000nat),
{
}

/// Compute the canvas size declared by descriptor text.
pub fn dims_from_descriptor(content: &str) -> (r: (u64, u64))
    ensures
        (r.0 as nat, r.1 as nat) == spec_dims_centipx(content@),
{
    let default_w = units::emu_to_centipx(units::DEFAULT_WIDTH_EMU);
    let default_h = units::emu_to_centipx(units::DEFAULT_HEIGHT_EMU);
    match xml::scan_events(content) {
        None => (default_w, default_h),
        Some(evs) => {
            let ghost evs_v = events_view(evs@);
            let n = evs.len();
            let mut i: usize = 0;
            proof {
                assert(evs_v.skip(0) =~= evs_v);
            }
            while i < n
                invariant
                    i <= n,
                    n == evs@.len(),
                    evs_v == events_view(evs@),
                    spec_scan(content@) == Some(evs_v),
                    spec_find_sldsz(evs_v) == spec_find_sldsz(evs_v.skip(i as int)),
                decreases n - i,
            {
                proof {
                    assert(evs_v.skip(i as int).first() == evs_v[i as int]);
                    assert(evs_v.skip(i as int).drop_first() =~= evs_v.skip(i as int + 1));
                }
                match &evs[i] {
                    XmlEvent::Empty { name, attrs } => {
                        if text::str_eq(name.as_str(), "p:sldSz") {
                            let w_emu = match xml::attr_last(attrs, "cx") {
                                Some(v) => match text::parse_u64(v.as_str()) {
                                    Some(x) => x,
                                    None => units::DEFAULT_WIDTH_EMU,
                                },
                                None => units::DEFAULT_WIDTH_EMU,
                            };
                            let h_emu = match xml::attr_last(attrs, "cy") {
                                Some(v) => match text::parse_u64(v.as_str()) {
                                    Some(x) => x,
                                    None => units::DEFAULT_HEIGHT_EMU,
                                },
                                None => units::DEFAULT_HEIGHT_EMU,
                            };
                            return (units::emu_to_centipx(w_emu), units::emu_to_centipx(h_emu));
                        }
                    },
                    _ => {},
                }
                i = i + 1;
            }
            proof {
                assert(evs_v.skip(n as int) =~= Seq::<SpecEvent>::empty());
            }
            (default_w, default_h)
        },
    }
}

/// The title carried by core-properties text: the last text run seen
/// inside the title element, entities resolved, or nothing when the text
/// is malformed or the title is absent or empty.
pub open spec fn spec_title_walk(
    evs: Seq<SpecEvent>,
    i: int,
    in_title: bool,
    cur: Option<Seq<char>>,
) -> Option<Seq<char>>
    decreases evs.len() - i,
{
    if !(0 <= i < evs.len()) {
        cur
    } else {
        match evs[i] {
            SpecEvent::Start { name, attrs } => spec_title_walk(
                evs,
                i + 1,
                if name == "dc:title"@ {
                    true
                } else {
                    in_title
                },
                cur,
            ),
            SpecEvent::Text { text } => if in_title {
                spec_title_walk(evs, i + 1, in_title, Some(spec_unescape(text)))
            } else {
                spec_title_walk(evs, i + 1, in_title, cur)
            },
            SpecEvent::End { name } => if name == "dc:title"@ {
                cur
            } else {
                spec_title_walk(evs, i + 1, in_title, cur)
            },
            _ => spec_title_walk(evs, i + 1, in_title, cur),
        }
    }
}

/// The title of core-properties text, or nothing.
pub open spec fn spec_title_of(content: Seq<char>) -> Option<Seq<char>> {
    match spec_scan(content) {
        None => None,
        Some(evs) => match spec_title_walk(evs, 0, false, None) {
            Some(t) => if t.len() > 0 {
                Some(t)
            } else {
                None
            },
            None => None,
        },
    }
}

/// The specification-level image of an optional string.
pub open spec fn opt_string_view(o: Option<String>) -> Option<Seq<char>> {
    match o {
        Some(s) => Some(s@),
        None => None,
    }
}

/// Extract the title from core-properties text.
pub fn title_from_core(content: &str) -> (r: Option<String>)
    ensures
        opt_string_view(r) == spec_title_of(content@),
{
    match xml::scan_events(content) {
        None => None,
        Some(evs) => {
            let ghost evs_v = events_view(evs@);
            let n = evs.len();
            let mut i: usize = 0;
            let mut in_title = false;
            let mut cur: Option<String> = None;
            while i < n
                invariant
                    i <= n,
                    n == evs@.len(),
                    evs_v == events_view(evs@),
                    spec_scan(content@) == Some(evs_v),
                    spec_title_walk(evs_v, 0, false, None) == spec_title_walk(
                        evs_v,
                        i as int,
                        in_title,
                        opt_string_view(cur),
                    ),
                decreases n - i,
            {
                proof {
                    assert(evs_v[i as int] == evs@[i as int]@);
                }
                match &evs[i] {
                    XmlEvent::Start { name, attrs } => {
                        if text::str_eq(name.as_str(), "dc:title") {
                            in_title = true;
                        }
                    },
                    XmlEvent::Text { text } => {
                        if in_title {
                            cur = Some(xml::unescape(text.as_str()));
                        }
                    },
                    XmlEvent::End { name } => {
                        if text::str_eq(name.as_str(), "dc:title") {
                            return match cur {
                                Some(t) => {
                                    if t.as_str().unicode_len() > 0 {
                                        Some(t)
                                    } else {
                                        None
                                    }
                                },
                                None => None,
                            };
                        }
                    },
                    _ => {},
                }
                i = i + 1;
            }
            match cur {
                Some(t) => {
                    if t.as_str().unicode_len() > 0 {
                        Some(t)
                    } else {
                        None
                    }
                },
                None => None,
            }
        },
    }
}


/// The embed-reference values among a tag's attributes, in order.
pub open spec fn spec_embed_vals(attrs: Seq<SpecAttr>) -> Seq<Seq<char>>
    decreases attrs.len(),
{
    if attrs.len() == 0 {
        Seq::empty()
    } else {
        spec_embed_vals(attrs.drop_last()) + if attrs.last().key == "r:embed"@ {
            seq![attrs.last().value]
        } else {
            Seq::empty()
        }
    }
}

/// The embedded-image references of slide markup: every embed attribute of
/// an image-reference element, in document order.
pub open spec fn spec_image_refs(evs: Seq<SpecEvent>) -> Seq<Seq<char>>
    decreases evs.len(),
{
    if evs.len() == 0 {
        Seq::empty()
    } else {
        spec_image_refs(evs.drop_last()) + match evs.last() {
            SpecEvent::Start { name, attrs } => if name == "a:blip"@ {
                spec_embed_vals(attrs)
            } else {
                Seq::empty()
            },
            SpecEvent::Empty { name, attrs } => if name == "a:blip"@ {
                spec_embed_vals(attrs)
            } else {
                Seq::empty()
            },
            _ => Seq::empty(),
        }
    }
}

fn push_embeds(attrs: &Vec<XmlAttr>, out: &mut Vec<String>)
    ensures
        strings_view(final(out)@) == strings_view(old(out)@) + spec_embed_vals(attrs_view(attrs@)),
{
    let n = attrs.len();
    let mut j: usize = 0;
    proof {
        assert(attrs_view(attrs@).take(0) =~= Seq::<SpecAttr>::empty());
        assert(strings_view(out@) + Seq::<Seq<char>>::empty() =~= strings_view(out@));
    }
    while j < n
        invariant
            j <= n,
            n == attrs@.len(),
            strings_view(out@) == strings_view(old(out)@) + spec_embed_vals(
                attrs_view(attrs@).take(j as int),
            ),
        decreases n - j,
    {
        proof {
            assert(attrs_view(attrs@).take(j as int + 1).drop_last() =~= attrs_view(
                attrs@,
            ).take(j as int));
            assert(attrs_view(attrs@).take(j as int + 1).last() == attrs@[j as int]@);
        }
        if crate::text::str_eq(attrs[j].key.as_str(), "r:embed") {
            let v = attrs[j].value.clone();
            proof {
                assert(strings_view(out@.push(v)) =~= strings_view(out@).push(v@));
                assert(strings_view(old(out)@) + spec_embed_vals(
                    attrs_view(attrs@).take(j as int + 1),
                ) =~= strings_view(out@).push(v@));
            }
            out.push(v);
        } else {
            proof {
                assert(strings_view(old(out)@) + spec_embed_vals(
                    attrs_view(attrs@).take(j as int + 1),
                ) =~= strings_view(out@));
            }
        }
        j = j + 1;
    }
    proof {
        assert(attrs_view(attrs@).take(n as int) =~= attrs_view(attrs@));
    }
}

/// Collect the embedded-image references of slide markup.
pub fn image_refs_from_markup(content: &str) -> (r: Result<Vec<String>, ConvError>)
    ensures
        (r is Ok) <==> spec_scan(content@) is Some,
        r matches Ok(v) ==> Some(strings_view(v@)) == match spec_scan(content@) {
            Some(evs) => Some(spec_image_refs(evs)),
            None => None,
        },
        r matches Err(e) ==> e is XmlParseError,
{
    match xml::scan_events(content) {
        None => Err(ConvError::XmlParseError(String::from_str("XML parsing error"))),
        Some(evs) => {
            let ghost evs_v = events_view(evs@);
            let n = evs.len();
            let mut out: Vec<String> = Vec::new();
            let mut i: usize = 0;
            proof {
                assert(evs_v.take(0) =~= Seq::<SpecEvent>::empty());
                assert(strings_view(out@) =~= Seq::<Seq<char>>::empty());
            }
            while i < n
                invariant
                    i <= n,
                    n == evs@.len(),
                    evs_v == events_view(evs@),
                    strings_view(out@) == spec_image_refs(evs_v.take(i as int)),
                decreases n - i,
            {
                proof {
                    assert(evs_v.take(i as int + 1).drop_last() =~= evs_v.take(i as int));
                    assert(evs_v.take(i as int + 1).last() == evs@[i as int]@);
                }
                match &evs[i] {
                    XmlEvent::Start { name, attrs } => {
                        if crate::text::str_eq(name.as_str(), "a:blip") {
                            push_embeds(attrs, &mut out);
                        } else {
                            proof {
                                assert(strings_view(out@) + Seq::<Seq<char>>::empty()
                                    =~= strings_view(out@));
                            }
                        }
                    },
                    XmlEvent::Empty { name, attrs } => {
                        if crate::text::str_eq(name.as_str(), "a:blip") {
                            push_embeds(attrs, &mut out);
                        } else {
                            proof {
                                assert(strings_view(out@) + Seq::<Seq<char>>::empty()
                                    =~= strings_view(out@));
                            }
                        }
                    },
                    _ => {
                        proof {
                            assert(strings_view(out@) + Seq::<Seq<char>>::empty() =~= strings_view(
                                out@,
                            ));
                        }
                    },
                }
                i = i + 1;
            }
            proof {
                assert(evs_v.take(n as int) =~= evs_v);
            }
            Ok(out)
        },
    }
}

/// The relationship mappings of relationship text: for each self-closing
/// relationship whose declared type denotes an image and whose id is among
/// the referenced ids, the id and target, in document order.
pub open spec fn spec_rel_mappings(evs: Seq<SpecEvent>, ids: Seq<Seq<char>>) -> Seq<
    (Seq<char>, Seq<char>),
>
    decreases evs.len(),
{
    if evs.len() == 0 {
        Seq::empty()
    } else {
        spec_rel_mappings(evs.drop_last(), ids) + match evs.last() {
            SpecEvent::Empty { name, attrs } => if name == "Relationship"@ {
                match (
                    xml::spec_attr_last(attrs, "Id"@),
                    xml::spec_attr_last(attrs, "Target"@),
                    xml::spec_attr_last(attrs, "Type"@),
                ) {
                    (Some(id), Some(target), Some(ty)) => if spec_contains(ty, "image"@)
                        && ids.contains(id) {
                        seq![(id, target)]
                    } else {
                        Seq::empty()
                    },
                    _ => Seq::empty(),
                }
            } else {
                Seq::empty()
            },
            _ => Seq::empty(),
        }
    }
}

/// The specification-level image of a sequence of string pairs.
pub open spec fn pairs_view(s: Seq<(String, String)>) -> Seq<(Seq<char>, Seq<char>)> {
    s.map_values(|p: (String, String)| (p.0@, p.1@))
}

fn ids_contain(ids: &Vec<String>, id: &str) -> (r: bool)
    ensures
        r == strings_view(ids@).contains(id@),
{
    let n = ids.len();
    let mut i: usize = 0;
    while i < n
        invariant
            i <= n,
            n == ids@.len(),
            forall|j: int| 0 <= j < i ==> strings_view(ids@)[j] != id@,
        decreases n - i,
    {
        if crate::text::str_eq(ids[i].as_str(), id) {
            assert(strings_view(ids@)[i as int] == id@);
            return true;
        }
        i = i + 1;
    }
    proof {
        assert(forall|j: int| 0 <= j < strings_view(ids@).len() ==> strings_view(ids@)[j] != id@);
    }
    false
}

/// Map referenced image ids to their target paths using relationship text.
pub fn parse_image_relationships(content: &str, ids: &Vec<String>) -> (r: Result<
    Vec<(String, String)>,
    ConvError,
>)
    ensures
        (r is Ok) <==> spec_scan(content@) is Some,
        r matches Ok(v) ==> Some(pairs_view(v@)) == match spec_scan(content@) {
            Some(evs) => Some(spec_rel_mappings(evs, strings_view(ids@))),
            None => None,
        },
        r matches Err(e) ==> e is XmlParseError,
{
    match xml::scan_events(content) {
        None => Err(ConvError::XmlParseError(String::from_str("XML parsing error"))),
        Some(evs) => {
            let ghost evs_v = events_view(evs@);
            let ghost ids_v = strings_view(ids@);
            let n = evs.len();
            let mut out: Vec<(String, String)> = Vec::new();
            let mut i: usize = 0;
            proof {
                assert(evs_v.take(0) =~= Seq::<SpecEvent>::empty());
                assert(pairs_view(out@) =~= Seq::<(Seq<char>, Seq<char>)>::empty());
            }
            while i < n
                invariant
                    i <= n,
                    n == evs@.len(),
                    evs_v == events_view(evs@),
                    ids_v == strings_view(ids@),
                    pairs_view(out@) == spec_rel_mappings(evs_v.take(i as int), ids_v),
                decreases n - i,
            {
                proof {
                    assert(evs_v.take(i as int + 1).drop_last() =~= evs_v.take(i as int));
                    assert(evs_v.take(i as int + 1).last() == evs@[i as int]@);
                }
                let mut pushed = false;
                match &evs[i] {
                    XmlEvent::Empty { name, attrs } => {
                        if crate::text::str_eq(name.as_str(), "Relationship") {
                            let id = xml::attr_last(attrs, "Id");
                            let target = xml::attr_last(attrs, "Target");
                            let ty = xml::attr_last(attrs, "Type");
                            match (id, target, ty) {
                                (Some(id), Some(target), Some(ty)) => {
                                    if crate::text::contains(ty.as_str(), "image") && ids_contain(
                                        ids,
                                        id.as_str(),
                                    ) {
                                        proof {
                                            assert(pairs_view(out@.push((id, target)))
                                                =~= pairs_view(out@).push((id@, target@)));
                                            assert(spec_rel_mappings(
                                                evs_v.take(i as int + 1),
                                                ids_v,
                                            ) =~= pairs_view(out@).push((id@, target@)));
                                        }
                                        out.push((id, target));
                                        pushed = true;
                                    }
                                },
                                _ => {},
                            }
                        }
                    },
                    _ => {},
                }
                if !pushed {
                    proof {
                        assert(pairs_view(out@) + Seq::<(Seq<char>, Seq<char>)>::empty()
                            =~= pairs_view(out@));
                    }
                }
                i = i + 1;
            }
            proof {
                assert(evs_v.take(n as int) =~= evs_v);
            }
            Ok(out)
        },
    }
}


/// The archive path of a media target, joined relative to the slides
/// directory.
pub open spec fn spec_media_path(target: Seq<char>) -> Seq<char> {
    "ppt/slides/"@ + target
}

/// The declared format of a media path: its extension, or `png` when it
/// has none.
pub open spec fn spec_ext_or_png(path: Seq<char>) -> Seq<char> {
    match spec_path_extension(path) {
        Some(e) => e,
        None => "png"@,
    }
}

/// The media assets resolved from relationship mappings: each target that
/// is a readable part, with its bytes and declared format, in mapping
/// order; an unreadable target is dropped.
pub open spec fn spec_loaded_images(
    data: Map<Seq<char>, Seq<u8>>,
    maps: Seq<(Seq<char>, Seq<char>)>,
) -> Seq<SpecImage>
    decreases maps.len(),
{
    if maps.len() == 0 {
        Seq::empty()
    } else {
        spec_loaded_images(data, maps.drop_last()) + {
            let path = spec_media_path(maps.last().1);
            if data.dom().contains(path) {
                seq![
                    SpecImage {
                        id: maps.last().0,
                        data: data[path],
                        extension: spec_ext_or_png(path),
                    },
                ]
            } else {
                Seq::empty()
            }
        }
    }
}

/// Everything [`PptxExtractor::extract_slide`] promises of a returned
/// slide: its index, its markup being the decoded slide part scanned
/// without a violation, and its media being exactly the resolution of the
/// relationship part against the markup's references — empty when that
/// part is absent.
pub open spec fn spec_slide_ok(data: Map<Seq<char>, Seq<u8>>, i: int, sd: SlideData) -> bool {
    &&& sd.index == i
    &&& spec_part_text(data, spec_slide_part_name(i)) == Some(sd.xml_content@)
    &&& spec_scan(sd.xml_content@) is Some
    &&& match spec_part_text(data, spec_rels_part_name(i)) {
        None => images_view(sd.images@).len() == 0,
        Some(rc) => spec_scan(rc) matches Some(revs) && images_view(sd.images@)
            == spec_loaded_images(
            data,
            spec_rel_mappings(revs, spec_image_refs(spec_scan(sd.xml_content@)->Some_0)),
        ),
    }
}

fn slide_part_name(i: usize) -> (r: String)
    requires
        i < usize::MAX,
    ensures
        r@ == spec_slide_part_name(i as int),
{
    let mut s = String::from_str("ppt/slides/slide");
    let num = crate::text::usize_to_string(i + 1);
    s.append(num.as_str());
    s.append(".xml");
    s
}

fn rels_part_name(i: usize) -> (r: String)
    requires
        i < usize::MAX,
    ensures
        r@ == spec_rels_part_name(i as int),
{
    let mut s = String::from_str("ppt/slides/_rels/slide");
    let num = crate::text::usize_to_string(i + 1);
    s.append(num.as_str());
    s.append(".xml.rels");
    s
}

/// The extension of a path: the part of its last component after the last
/// dot, unless the component has no dot or only its leading dot.
pub open spec fn spec_path_extension(path: Seq<char>) -> Option<Seq<char>> {
    let comp_start = spec_last_index_after(path, '/');
    let comp = path.subrange(comp_start, path.len() as int);
    let dot = spec_last_index_after(comp, '.');
    if dot <= 1 {
        None
    } else {
        Some(comp.subrange(dot, comp.len() as int))
    }
}

/// One past the last occurrence of `c`, or zero if it does not occur.
pub open spec fn spec_last_index_after(s: Seq<char>, c: char) -> int
    decreases s.len(),
{
    if s.len() == 0 {
        0
    } else if s.last() == c {
        s.len() as int
    } else {
        spec_last_index_after(s.drop_last(), c)
    }
}

fn last_index_after(s: &str, n: usize, from_len: usize, c: char) -> (r: usize)
    requires
        n == s@.len(),
        from_len <= n,
    ensures
        r == spec_last_index_after(s@.take(from_len as int), c),
        r <= from_len,
{
    let mut i = from_len;
    while i > 0
        invariant
            i <= from_len <= n,
            n == s@.len(),
            spec_last_index_after(s@.take(from_len as int), c) == spec_last_index_after(
                s@.take(i as int),
                c,
            ),
        decreases i,
    {
        proof {
            assert(s@.take(i as int).drop_last() =~= s@.take(i as int - 1));
            assert(s@.take(i as int).last() == s@[i as int - 1]);
        }
        if s.get_char(i - 1) == c {
            return i;
        }
        i = i - 1;
    }
    proof {
        assert(s@.take(0) =~= Seq::<char>::empty());
    }
    0
}

/// The extension of a path, as [`spec_path_extension`] defines it.
pub fn path_extension(path: &str) -> (r: Option<String>)
    ensures
        match spec_path_extension(path@) {
            Some(e) => r matches Some(s) && s@ == e,
            None => r is None,
        },
{
    let n = path.unicode_len();
    proof {
        assert(path@.take(n as int) =~= path@);
    }
    let comp_start = last_index_after(path, n, n, '/');
    let comp = path.substring_char(comp_start, n);
    let m = n - comp_start;
    proof {
        assert(comp@.take(m as int) =~= comp@);
    }
    let dot = last_index_after(comp, m, m, '.');
    if dot <= 1 {
        None
    } else {
        Some(String::from_str(comp.substring_char(dot, m)))
    }
}

} // verus!
