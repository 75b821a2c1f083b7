//! The page assembler: turns an ordered sequence of rasters into one
//! paginated binary document, one page per raster, every page of the same
//! physical size.
//!
//! The document layout is fixed: a catalog, a page tree, and for each
//! raster a page, a content stream that draws the page's image across the
//! whole page box, and an uncompressed RGB image object; then a title
//! record, the cross-reference table and the trailer.  The whole output is
//! specified byte for byte by [`spec_pdf_bytes`].

use vstd::prelude::*;
use vstd::string::*;
use crate::errors::ConvError;
use crate::renderer::Canvas;
use crate::text::{spec_dec_chars, u64_to_string};
use crate::units;

verus! {

/// The specification-level image of a raster page.
pub ghost struct CanvasView {
    pub width: u32,
    pub height: u32,
    pub data: Seq<u8>,
}

impl View for Canvas {
    type V = CanvasView;

    open spec fn view(&self) -> CanvasView {
        CanvasView { width: self.width, height: self.height, data: self.data@ }
    }
}

/// The specification-level image of a sequence of rasters.
pub open spec fn pages_view(s: Seq<Canvas>) -> Seq<CanvasView> {
    s.map_values(|c: Canvas| c@)
}

/// Characters taken as their code points truncated to bytes; exact for
/// the layout text, which is ASCII.
pub open spec fn ascii_bytes(s: Seq<char>) -> Seq<u8> {
    s.map_values(|c: char| c as u8)
}

/// The decimal numeral of `n`, as bytes.
pub open spec fn dec_bytes(n: nat) -> Seq<u8> {
    ascii_bytes(spec_dec_chars(n))
}

/// Append the characters of `s`, each truncated to a byte.
fn push_ascii(v: &mut Vec<u8>, s: &str)
    ensures
        final(v)@ == old(v)@ + ascii_bytes(s@),
{
    let n = s.unicode_len();
    let mut i: usize = 0;
    proof {
        assert(old(v)@ + ascii_bytes(s@).take(0) =~= old(v)@);
    }
    while i < n
        invariant
            i <= n,
            n == s@.len(),
            v@ == old(v)@ + ascii_bytes(s@).take(i as int),
        decreases n - i,
    {
        let c = s.get_char(i);
        proof {
            assert((old(v)@ + ascii_bytes(s@).take(i as int)).push(s@[i as int] as u8) =~= old(v)@
                + ascii_bytes(s@).take(i as int + 1));
        }
        v.push(c as u8);
        i = i + 1;
    }
    proof {
        assert(ascii_bytes(s@).take(n as int) =~= ascii_bytes(s@));
    }
}

/// Append the decimal numeral of `n`.
fn push_dec(v: &mut Vec<u8>, n: u64)
    ensures
        final(v)@ == old(v)@ + dec_bytes(n as nat),
{
    let s = u64_to_string(n);
    push_ascii(v, s.as_str());
}

/// The page box length for a size in hundredths of a printer's point:
/// the whole points, a dot, and exactly two fraction digits.
pub open spec fn centipt_bytes(v: nat) -> Seq<u8> {
    dec_bytes(v / 100) + seq![46u8, (48 + ((v % 100) / 10)) as u8, (48 + (v % 10)) as u8]
}

/// Append a length in hundredths of a point as a decimal with two
/// fraction digits.
fn push_centipt(v: &mut Vec<u8>, c: u64)
    ensures
        final(v)@ == old(v)@ + centipt_bytes(c as nat),
{
    push_dec(v, c / 100);
    v.push(46);
    v.push(48 + ((c % 100) / 10) as u8);
    v.push(48 + (c % 10) as u8);
    proof {
        assert(v@ =~= old(v)@ + centipt_bytes(c as nat));
    }
}

/// Powers of ten.
pub open spec fn pow10(e: nat) -> nat
    decreases e,
{
    if e == 0 {
        1
    } else {
        10 * pow10((e - 1) as nat)
    }
}

/// A cross-reference offset: ten digits, zero padded.
pub open spec fn pad10_bytes(n: nat) -> Seq<u8> {
    Seq::new(10, |i: int| (48 + (n / pow10((9 - i) as nat)) % 10) as u8)
}

/// Append a cross-reference offset as ten zero-padded digits.
fn push_pad10(v: &mut Vec<u8>, n: u64)
    requires
        n < 10000000000,
    ensures
        final(v)@ == old(v)@ + pad10_bytes(n as nat),
{
    let mut ds: Vec<u8> = Vec::new();
    let mut cur: u64 = n;
    let mut j: usize = 0;
    proof {
        assert(pow10(0) == 1);
    }
    while j < 10
        invariant
            j <= 10,
            ds@.len() == j,
            cur as nat == n as nat / pow10(j as nat),
            forall|t: int| 0 <= t < j ==> ds@[t] == (48 + (n as nat / pow10(t as nat)) % 10) as u8,
        decreases 10 - j,
    {
        ds.push(48 + (cur % 10) as u8);
        proof {
            lemma_pow10_pos(j as nat);
            lemma_pow10_pos(j as nat + 1);
            assert(pow10(j as nat + 1) == 10 * pow10(j as nat));
            assert(n as nat / pow10(j as nat) / 10 == n as nat / (pow10(j as nat) * 10))
                by (nonlinear_arith)
                requires
                    pow10(j as nat) > 0,
            ;
            assert(pow10(j as nat) * 10 == pow10(j as nat + 1)) by (nonlinear_arith)
                requires
                    pow10(j as nat + 1) == 10 * pow10(j as nat),
            ;
        }
        cur = cur / 10;
        j = j + 1;
    }
    let mut t: usize = 0;
    while t < 10
        invariant
            t <= 10,
            ds@.len() == 10,
            forall|q: int| 0 <= q < 10 ==> ds@[q] == (48 + (n as nat / pow10(q as nat)) % 10) as u8,
            v@ == old(v)@ + pad10_bytes(n as nat).take(t as int),
        decreases 10 - t,
    {
        proof {
            assert((old(v)@ + pad10_bytes(n as nat).take(t as int)).push(
                pad10_bytes(n as nat)[t as int],
            ) =~= old(v)@ + pad10_bytes(n as nat).take(t as int + 1));
        }
        v.push(ds[9 - t]);
        t = t + 1;
    }
    proof {
        assert(pad10_bytes(n as nat).take(10) =~= pad10_bytes(n as nat));
    }
}

proof fn lemma_pow10_pos(e: nat)
    ensures
        pow10(e) >= 1,
    decreases e,
{
    if e > 0 {
        lemma_pow10_pos((e - 1) as nat);
    }
}

/// A title's bytes inside the document's string delimiters: its UTF-8
/// encoding with parentheses and backslashes escaped.
pub open spec fn spec_escape_from(s: Seq<u8>, i: int) -> Seq<u8>
    decreases s.len() - i,
{
    if !(0 <= i < s.len()) {
        Seq::empty()
    } else if s[i] == 40 || s[i] == 41 || s[i] == 92 {
        seq![92u8, s[i]] + spec_escape_from(s, i + 1)
    } else {
        seq![s[i]] + spec_escape_from(s, i + 1)
    }
}

/// A title's bytes with the document string escapes applied.
pub open spec fn spec_escape(s: Seq<u8>) -> Seq<u8> {
    spec_escape_from(s, 0)
}

fn push_escaped(v: &mut Vec<u8>, s: &Vec<u8>)
    ensures
        final(v)@ == old(v)@ + spec_escape(s@),
{
    let n = s.len();
    let mut i: usize = 0;
    while i < n
        invariant
            i <= n,
            n == s@.len(),
            v@ + spec_escape_from(s@, i as int) == old(v)@ + spec_escape(s@),
        decreases n - i,
    {
        let b = s[i];
        if b == 40 || b == 41 || b == 92 {
            proof {
                assert(v@.push(92u8).push(b) + spec_escape_from(s@, i as int + 1) =~= v@ + (seq![
                    92u8,
                    b,
                ] + spec_escape_from(s@, i as int + 1)));
            }
            v.push(92);
            v.push(b);
        } else {
            proof {
                assert(v@.push(b) + spec_escape_from(s@, i as int + 1) =~= v@ + (seq![b]
                    + spec_escape_from(s@, i as int + 1)));
            }
            v.push(b);
        }
        i = i + 1;
    }
    proof {
        assert(v@ + Seq::<u8>::empty() =~= v@);
    }
}

/// The RGB samples of an RGBA buffer: three bytes per pixel, alpha
/// dropped.
pub open spec fn rgb_of(rgba: Seq<u8>) -> Seq<u8> {
    Seq::new(3 * (rgba.len() / 4), |k: int| rgba[(k / 3) * 4 + (k % 3)])
}

fn push_rgb(v: &mut Vec<u8>, rgba: &Vec<u8>)
    ensures
        final(v)@ == old(v)@ + rgb_of(rgba@),
{
    let m = rgba.len();
    let npix = m / 4;
    let mut p: usize = 0;
    while p < npix
        invariant
            p <= npix,
            m == rgba@.len(),
            npix == rgba@.len() / 4,
            v@.len() == old(v)@.len() + 3 * p,
            forall|k: int|
                0 <= k < 3 * p ==> #[trigger] v@[old(v)@.len() + k] == rgba@[(k / 3) * 4 + (k
                    % 3)],
            forall|k: int| 0 <= k < old(v)@.len() ==> v@[k] == old(v)@[k],
        decreases npix - p,
    {
        proof {
            assert(4 * p + 3 < rgba@.len() && 3 * p + 3 <= 3 * npix) by (nonlinear_arith)
                requires
                    p < npix,
                    npix == rgba@.len() / 4,
            ;
        }
        let b0 = rgba[4 * p];
        let b1 = rgba[4 * p + 1];
        let b2 = rgba[4 * p + 2];
        v.push(b0);
        v.push(b1);
        v.push(b2);
        proof {
            assert forall|k: int| 0 <= k < 3 * (p + 1) implies #[trigger] v@[old(v)@.len() + k]
                == rgba@[(k / 3) * 4 + (k % 3)] by {
                if k >= 3 * p {
                    assert(k / 3 == p && (k == 3 * p || k == 3 * p + 1 || k == 3 * p + 2))
                        by (nonlinear_arith)
                        requires
                            3 * p <= k < 3 * (p + 1),
                    ;
                }
            }
        }
        p = p + 1;
    }
    proof {
        assert forall|k: int| 0 <= k < v@.len() implies v@[k] == (old(v)@ + rgb_of(rgba@))[k] by {
            if k >= old(v)@.len() {
                let k2 = k - old(v)@.len();
                assert(v@[old(v)@.len() + k2] == rgba@[(k2 / 3) * 4 + (k2 % 3)]);
            }
        }
        assert(v@ =~= old(v)@ + rgb_of(rgba@));
    }
}

/// The content stream drawn on every page: the page's image scaled across
/// the whole page box.
pub open spec fn spec_content_stream(wc: nat, hc: nat) -> Seq<u8> {
    ascii_bytes("q\n"@) + centipt_bytes(wc) + ascii_bytes(" 0 0 "@) + centipt_bytes(hc)
        + ascii_bytes(" 0 0 cm\n/I Do\nQ"@)
}

/// The document catalog object.
pub open spec fn spec_catalog_obj() -> Seq<u8> {
    ascii_bytes("1 0 obj\n<< /Type /Catalog /Pages 2 0 R >>\nendobj\n"@)
}

/// The page-tree kid references for `n` pages, in page order.
pub open spec fn spec_kids(n: nat) -> Seq<u8>
    decreases n,
{
    if n == 0 {
        Seq::empty()
    } else {
        spec_kids((n - 1) as nat) + dec_bytes(3 + 3 * ((n - 1) as nat)) + ascii_bytes(" 0 R "@)
    }
}

/// The page-tree object for `n` pages.
pub open spec fn spec_pages_obj(n: nat) -> Seq<u8> {
    ascii_bytes("2 0 obj\n<< /Type /Pages /Kids [ "@) + spec_kids(n) + ascii_bytes(
        "] /Count "@,
    ) + dec_bytes(n) + ascii_bytes(" >>\nendobj\n"@)
}

/// The page object of the zero-based page `i`: the shared page box, its
/// image resource and its content stream.
pub open spec fn spec_page_obj(i: nat, wc: nat, hc: nat) -> Seq<u8> {
    dec_bytes(3 + 3 * i) + ascii_bytes(" 0 obj\n<< /Type /Page /Parent 2 0 R /MediaBox [0 0 "@)
        + centipt_bytes(wc) + ascii_bytes(" "@) + centipt_bytes(hc) + ascii_bytes(
        "] /Resources << /XObject << /I "@,
    ) + dec_bytes(5 + 3 * i) + ascii_bytes(" 0 R >> >> /Contents "@) + dec_bytes(4 + 3 * i)
        + ascii_bytes(" 0 R >>\nendobj\n"@)
}

/// The content-stream object of page `i`.
pub open spec fn spec_contents_obj(i: nat, wc: nat, hc: nat) -> Seq<u8> {
    dec_bytes(4 + 3 * i) + ascii_bytes(" 0 obj\n<< /Length "@) + dec_bytes(
        spec_content_stream(wc, hc).len(),
    ) + ascii_bytes(" >>\nstream\n"@) + spec_content_stream(wc, hc) + ascii_bytes(
        "\nendstream\nendobj\n"@,
    )
}

/// The image object of page `i`: the raster's RGB samples, uncompressed.
pub open spec fn spec_image_obj(i: nat, page: CanvasView) -> Seq<u8> {
    dec_bytes(5 + 3 * i) + ascii_bytes(" 0 obj\n<< /Type /XObject /Subtype /Image /Width "@)
        + dec_bytes(page.width as nat) + ascii_bytes(" /Height "@) + dec_bytes(page.height as nat)
        + ascii_bytes(" /ColorSpace /DeviceRGB /BitsPerComponent 8 /Length "@) + dec_bytes(
        rgb_of(page.data).len(),
    ) + ascii_bytes(" >>\nstream\n"@) + rgb_of(page.data) + ascii_bytes(
        "\nendstream\nendobj\n"@,
    )
}

/// The information object: the document title, escaped.
pub open spec fn spec_info_obj(n: nat, title: Seq<char>) -> Seq<u8> {
    dec_bytes(3 + 3 * n) + ascii_bytes(" 0 obj\n<< /Title ("@) + spec_escape(
        vstd::utf8::encode_utf8(title),
    ) + ascii_bytes(") >>\nendobj\n"@)
}

/// The three objects of each page, in page order.
pub open spec fn spec_page_objs(pages: Seq<CanvasView>, wc: nat, hc: nat) -> Seq<Seq<u8>>
    decreases pages.len(),
{
    if pages.len() == 0 {
        Seq::empty()
    } else {
        spec_page_objs(pages.drop_last(), wc, hc) + seq![
            spec_page_obj((pages.len() - 1) as nat, wc, hc),
            spec_contents_obj((pages.len() - 1) as nat, wc, hc),
            spec_image_obj((pages.len() - 1) as nat, pages.last()),
        ]
    }
}

/// Every object of the document, in file order.
pub open spec fn spec_objects(
    pages: Seq<CanvasView>,
    title: Seq<char>,
    wc: nat,
    hc: nat,
) -> Seq<Seq<u8>> {
    seq![spec_catalog_obj(), spec_pages_obj(pages.len())] + spec_page_objs(pages, wc, hc) + seq![
        spec_info_obj(pages.len(), title),
    ]
}

/// The concatenation of a sequence of byte strings.
pub open spec fn spec_concat(objs: Seq<Seq<u8>>) -> Seq<u8>
    decreases objs.len(),
{
    if objs.len() == 0 {
        Seq::empty()
    } else {
        spec_concat(objs.drop_last()) + objs.last()
    }
}

/// The byte offset of each object when laid out after `base` header
/// bytes.
pub open spec fn spec_offsets(objs: Seq<Seq<u8>>, base: nat) -> Seq<int>
    decreases objs.len(),
{
    if objs.len() == 0 {
        Seq::empty()
    } else {
        spec_offsets(objs.drop_last(), base).push(
            base + spec_concat(objs.drop_last()).len() as int,
        )
    }
}

/// The cross-reference entries for the given offsets, in order.
pub open spec fn spec_xref_entries(offs: Seq<int>) -> Seq<u8>
    decreases offs.len(),
{
    if offs.len() == 0 {
        Seq::empty()
    } else {
        spec_xref_entries(offs.drop_last()) + pad10_bytes(offs.last() as nat) + ascii_bytes(
            " 00000 n \n"@,
        )
    }
}

/// The cross-reference table for the given offsets.
pub open spec fn spec_xref(offs: Seq<int>) -> Seq<u8> {
    ascii_bytes("xref\n0 "@) + dec_bytes(offs.len() + 1) + ascii_bytes(
        "\n0000000000 65535 f \n"@,
    ) + spec_xref_entries(offs)
}

/// The trailer: the object count, the catalog and title references, and
/// where the cross-reference table starts.
pub open spec fn spec_trailer(size: nat, info_id: nat, startxref: nat) -> Seq<u8> {
    ascii_bytes("trailer\n<< /Size "@) + dec_bytes(size) + ascii_bytes(" /Root 1 0 R /Info "@)
        + dec_bytes(info_id) + ascii_bytes(" 0 R >>\nstartxref\n"@) + dec_bytes(startxref)
        + ascii_bytes("\n%%EOF"@)
}

/// Whether the document body is small enough for every cross-reference
/// offset to fit in its ten digits.
pub open spec fn spec_pdf_fits(pages: Seq<CanvasView>, title: Seq<char>, wc: nat, hc: nat) -> bool {
    9 + spec_concat(spec_objects(pages, title, wc, hc)).len() < 10000000000
}

/// The whole document, byte for byte: the header, every object, the
/// cross-reference table and the trailer.
pub open spec fn spec_pdf_bytes(
    pages: Seq<CanvasView>,
    title: Seq<char>,
    wc: nat,
    hc: nat,
) -> Seq<u8> {
    let objs = spec_objects(pages, title, wc, hc);
    let body = spec_concat(objs);
    ascii_bytes("%PDF-1.4\n"@) + body + spec_xref(spec_offsets(objs, 9)) + spec_trailer(
        objs.len() + 1,
        3 + 3 * pages.len(),
        9 + body.len(),
    )
}

/// Every document this assembler produces begins with the format's
/// four-byte magic signature.
pub proof fn lemma_pdf_magic(pages: Seq<CanvasView>, title: Seq<char>, wc: nat, hc: nat)
    ensures
        spec_pdf_bytes(pages, title, wc, hc).len() >= 4,
        spec_pdf_bytes(pages, title, wc, hc).subrange(0, 4) == ascii_bytes("%PDF"@),
{
    reveal_strlit("%PDF-1.4\n");
    reveal_strlit("%PDF");
    assert(spec_pdf_bytes(pages, title, wc, hc).subrange(0, 4) =~= ascii_bytes("%PDF"@));
}

fn push_bytes(v: &mut Vec<u8>, s: &Vec<u8>)
    ensures
        final(v)@ == old(v)@ + s@,
{
    let n = s.len();
    let mut i: usize = 0;
    proof {
        assert(old(v)@ + s@.take(0) =~= old(v)@);
    }
    while i < n
        invariant
            i <= n,
            n == s@.len(),
            v@ == old(v)@ + s@.take(i as int),
        decreases n - i,
    {
        proof {
            assert((old(v)@ + s@.take(i as int)).push(s@[i as int]) =~= old(v)@ + s@.take(
                i as int + 1,
            ));
        }
        v.push(s[i]);
        i = i + 1;
    }
    proof {
        assert(s@.take(n as int) =~= s@);
    }
}

proof fn lemma_offsets_len(objs: Seq<Seq<u8>>, base: nat)
    ensures
        spec_offsets(objs, base).len() == objs.len(),
    decreases objs.len(),
{
    if objs.len() > 0 {
        lemma_offsets_len(objs.drop_last(), base);
    }
}

proof fn lemma_page_objs_len(pages: Seq<CanvasView>, wc: nat, hc: nat)
    ensures
        spec_page_objs(pages, wc, hc).len() == 3 * pages.len(),
    decreases pages.len(),
{
    if pages.len() > 0 {
        lemma_page_objs_len(pages.drop_last(), wc, hc);
    }
}

proof fn lemma_obj_step(objs: Seq<Seq<u8>>, o: Seq<u8>)
    ensures
        spec_concat(objs.push(o)) == spec_concat(objs) + o,
        spec_offsets(objs.push(o), 9) == spec_offsets(objs, 9).push(
            9 + spec_concat(objs).len() as int,
        ),
{
    assert(objs.push(o).drop_last() =~= objs);
    assert(objs.push(o).last() == o);
}

fn emit_obj(
    out: &mut Vec<u8>,
    offs: &mut Vec<u64>,
    obj: Vec<u8>,
    objs: Ghost<Seq<Seq<u8>>>,
) -> (r: Ghost<Seq<Seq<u8>>>)
    requires
        old(out)@ == ascii_bytes("%PDF-1.4\n"@) + spec_concat(objs@),
        old(offs)@.len() == objs@.len(),
        forall|j: int|
            0 <= j < old(offs)@.len() ==> old(offs)@[j] as int == spec_offsets(objs@, 9)[j],
        forall|j: int| 0 <= j < old(offs)@.len() ==> #[trigger] old(offs)@[j] <= old(out)@.len(),
    ensures
        r@ == objs@.push(obj@),
        final(out)@ == ascii_bytes("%PDF-1.4\n"@) + spec_concat(r@),
        final(offs)@.len() == r@.len(),
        forall|j: int| 0 <= j < final(offs)@.len() ==> final(offs)@[j] as int == spec_offsets(r@, 9)[j],
        forall|j: int| 0 <= j < final(offs)@.len() ==> #[trigger] final(offs)@[j] <= final(out)@.len(),
{
    proof {
        reveal_strlit("%PDF-1.4\n");
        lemma_obj_step(objs@, obj@);
        lemma_offsets_len(objs@, 9);
        lemma_offsets_len(objs@.push(obj@), 9);
    }
    offs.push(out.len() as u64);
    let ghost obj_v = obj@;
    let mut moved = obj;
    out.append(&mut moved);
    proof {
        assert(spec_offsets(objs@.push(obj_v), 9) == spec_offsets(objs@, 9).push(
            9 + spec_concat(objs@).len() as int,
        ));
        assert(ascii_bytes("%PDF-1.4\n"@).len() == 9);
    }
    Ghost(objs@.push(obj_v))
}

/// Output fidelity levels for the assembled document.  Every level
/// currently assembles the same uncompressed document; the levels are an
/// extension point for compressed image encodings.
#[derive(Debug, Clone, Copy)]
pub enum ImageQuality {
    Low,
    Medium,
    High,
}

impl Default for ImageQuality {
    fn default() -> (r: Self)
        ensures
            r is High,
    {
        ImageQuality::High
    }
}

/// The page assembler for one physical page size, derived from the canvas
/// pixel size at 96 pixels per inch.
pub struct PdfGenerator {
    pub width_px: u32,
    pub height_px: u32,
}

impl PdfGenerator {
    /// An assembler for pages of the given canvas size, in whole pixels.
    pub fn new(width_px: u32, height_px: u32) -> (r: Self)
        ensures
            r.width_px == width_px,
            r.height_px == height_px,
    {
        PdfGenerator { width_px, height_px }
    }

    /// The physical page width in hundredths of a millimetre.
    pub fn width_mm_centi(&self) -> (r: u64)
        ensures
            r == units::spec_px_to_centimm(self.width_px as nat),
    {
        units::px_to_centimm(self.width_px)
    }

    /// The physical page height in hundredths of a millimetre.
    pub fn height_mm_centi(&self) -> (r: u64)
        ensures
            r == units::spec_px_to_centimm(self.height_px as nat),
    {
        units::px_to_centimm(self.height_px)
    }

    /// Assemble an ordered sequence of rasters into one document, one page
    /// per raster, every page of this assembler's physical size, the first
    /// raster becoming the first page.  Zero rasters are refused; a body
    /// too large for its cross-reference offsets (or more than a billion
    /// pages) is an encoding failure.
    #[verifier::rlimit(100)]
    pub fn generate_pdf(&self, slides: Vec<Canvas>, title: &str) -> (r: Result<Vec<u8>, ConvError>)
        ensures
            (slides@.len() == 0) <==> (r matches Err(e) && e is EmptyInput),
            r matches Ok(b) ==> b@ == spec_pdf_bytes(
                pages_view(slides@),
                title@,
                units::spec_px_to_centipt(self.width_px as nat),
                units::spec_px_to_centipt(self.height_px as nat),
            ),
            r matches Ok(b) ==> b@.len() >= 4 && b@.subrange(0, 4) == ascii_bytes("%PDF"@),
            r matches Err(e) ==> e is EmptyInput || e is PdfGenerationError,
            r matches Err(e) ==> (e matches ConvError::PdfGenerationError(m) ==> m@
                == "Failed to save PDF: too many pages to index"@ || m@
                == "Failed to save PDF: cross-reference offset too large"@),
            slides@.len() >= 1 && slides@.len() <= 1000000000 && spec_pdf_fits(
                pages_view(slides@),
                title@,
                units::spec_px_to_centipt(self.width_px as nat),
                units::spec_px_to_centipt(self.height_px as nat),
            ) ==> r is Ok,
    {
        if slides.len() == 0 {
            return Err(ConvError::EmptyInput);
        }
        if slides.len() > 1000000000 {
            return Err(
                ConvError::PdfGenerationError(
                    String::from_str("Failed to save PDF: too many pages to index"),
                ),
            );
        }
        let n = slides.len();
        let wc = units::px_to_centipt(self.width_px);
        let hc = units::px_to_centipt(self.height_px);
        let ghost wcn = wc as nat;
        let ghost hcn = hc as nat;
        let ghost pages_v = pages_view(slides@);
        let ghost all_objs = spec_objects(pages_v, title@, wcn, hcn);

        // the shared content stream
        let mut cs: Vec<u8> = Vec::new();
        push_ascii(&mut cs, "q\n");
        push_centipt(&mut cs, wc);
        push_ascii(&mut cs, " 0 0 ");
        push_centipt(&mut cs, hc);
        push_ascii(&mut cs, " 0 0 cm\n/I Do\nQ");
        proof {
            assert(cs@ =~= spec_content_stream(wcn, hcn));
        }

        let mut out: Vec<u8> = Vec::new();
        push_ascii(&mut out, "%PDF-1.4\n");
        let ghost header = ascii_bytes("%PDF-1.4\n"@);
        let mut offs: Vec<u64> = Vec::new();
        let ghost mut objs: Seq<Seq<u8>> = Seq::empty();
        proof {
            assert(out@ =~= header + spec_concat(objs));
        }

        // catalog
        let mut obj: Vec<u8> = Vec::new();
        push_ascii(&mut obj, "1 0 obj\n<< /Type /Catalog /Pages 2 0 R >>\nendobj\n");
        proof {
            assert(obj@ =~= spec_catalog_obj());
        }
        let g = emit_obj(&mut out, &mut offs, obj, Ghost(objs));
        proof {
            objs = g@;
        }

        // page tree
        let mut obj: Vec<u8> = Vec::new();
        push_ascii(&mut obj, "2 0 obj\n<< /Type /Pages /Kids [ ");
        let mut ki: usize = 0;
        proof {
            assert(obj@ =~= ascii_bytes("2 0 obj\n<< /Type /Pages /Kids [ "@) + spec_kids(0));
        }
        while ki < n
            invariant
                ki <= n,
                1 <= n <= 1000000000,
                obj@ == ascii_bytes("2 0 obj\n<< /Type /Pages /Kids [ "@) + spec_kids(ki as nat),
            decreases n - ki,
        {
            push_dec(&mut obj, 3 + 3 * (ki as u64));
            push_ascii(&mut obj, " 0 R ");
            proof {
                assert(obj@ =~= ascii_bytes("2 0 obj\n<< /Type /Pages /Kids [ "@) + spec_kids(
                    ki as nat + 1,
                ));
            }
            ki = ki + 1;
        }
        push_ascii(&mut obj, "] /Count ");
        push_dec(&mut obj, n as u64);
        push_ascii(&mut obj, " >>\nendobj\n");
        proof {
            assert(obj@ =~= spec_pages_obj(pages_v.len()));
        }
        let g = emit_obj(&mut out, &mut offs, obj, Ghost(objs));
        proof {
            objs = g@;
        }

        // one page, its content stream and its image per raster
        let mut i: usize = 0;
        proof {
            assert(pages_v.take(0) =~= Seq::<CanvasView>::empty());
            assert(objs =~= seq![spec_catalog_obj(), spec_pages_obj(pages_v.len())]
                + spec_page_objs(pages_v.take(0), wcn, hcn));
        }
        while i < n
            invariant
                i <= n,
                1 <= n <= 1000000000,
                n == slides@.len(),
                wcn == wc as nat,
                hcn == hc as nat,
                pages_v == pages_view(slides@),
                cs@ == spec_content_stream(wcn, hcn),
                objs == seq![spec_catalog_obj(), spec_pages_obj(pages_v.len())] + spec_page_objs(
                    pages_v.take(i as int),
                    wcn,
                    hcn,
                ),
                header == ascii_bytes("%PDF-1.4\n"@),
                out@ == header + spec_concat(objs),
                offs@.len() == objs.len(),
                forall|j: int| 0 <= j < offs@.len() ==> offs@[j] as int == spec_offsets(objs, 9)[j],
                forall|j: int| 0 <= j < offs@.len() ==> #[trigger] offs@[j] <= out@.len(),
            decreases n - i,
        {
            let iu = i as u64;
            // page object
            let mut obj: Vec<u8> = Vec::new();
            push_dec(&mut obj, 3 + 3 * iu);
            push_ascii(&mut obj, " 0 obj\n<< /Type /Page /Parent 2 0 R /MediaBox [0 0 ");
            push_centipt(&mut obj, wc);
            push_ascii(&mut obj, " ");
            push_centipt(&mut obj, hc);
            push_ascii(&mut obj, "] /Resources << /XObject << /I ");
            push_dec(&mut obj, 5 + 3 * iu);
            push_ascii(&mut obj, " 0 R >> >> /Contents ");
            push_dec(&mut obj, 4 + 3 * iu);
            push_ascii(&mut obj, " 0 R >>\nendobj\n");
            proof {
                assert(obj@ =~= spec_page_obj(i as nat, wcn, hcn));
            }
            let g = emit_obj(&mut out, &mut offs, obj, Ghost(objs));
            proof {
                objs = g@;
            }

            // content-stream object
            let mut obj: Vec<u8> = Vec::new();
            push_dec(&mut obj, 4 + 3 * iu);
            push_ascii(&mut obj, " 0 obj\n<< /Length ");
            push_dec(&mut obj, cs.len() as u64);
            push_ascii(&mut obj, " >>\nstream\n");
            push_bytes(&mut obj, &cs);
            push_ascii(&mut obj, "\nendstream\nendobj\n");
            proof {
                assert(obj@ =~= spec_contents_obj(i as nat, wcn, hcn));
            }
            let g = emit_obj(&mut out, &mut offs, obj, Ghost(objs));
            proof {
                objs = g@;
            }

            // image object
            let mut obj: Vec<u8> = Vec::new();
            push_dec(&mut obj, 5 + 3 * iu);
            push_ascii(&mut obj, " 0 obj\n<< /Type /XObject /Subtype /Image /Width ");
            push_dec(&mut obj, slides[i].width as u64);
            push_ascii(&mut obj, " /Height ");
            push_dec(&mut obj, slides[i].height as u64);
            push_ascii(&mut obj, " /ColorSpace /DeviceRGB /BitsPerComponent 8 /Length ");
            let ghost rgb_v = rgb_of(slides@[i as int].data@);
            let rgb_len: usize = 3 * (slides[i].data.len() / 4);
            push_dec(&mut obj, rgb_len as u64);
            push_ascii(&mut obj, " >>\nstream\n");
            push_rgb(&mut obj, &slides[i].data);
            push_ascii(&mut obj, "\nendstream\nendobj\n");
            proof {
                assert(pages_v[i as int] == slides@[i as int]@);
                assert(obj@ =~= spec_image_obj(i as nat, pages_v[i as int]));
            }
            let g = emit_obj(&mut out, &mut offs, obj, Ghost(objs));
            proof {
                objs = g@;
                assert(pages_v.take(i as int + 1).drop_last() =~= pages_v.take(i as int));
                assert(pages_v.take(i as int + 1).last() == pages_v[i as int]);
                assert(objs =~= seq![spec_catalog_obj(), spec_pages_obj(pages_v.len())]
                    + spec_page_objs(pages_v.take(i as int + 1), wcn, hcn));
            }
            i = i + 1;
        }
        proof {
            assert(pages_v.take(n as int) =~= pages_v);
        }

        // the title record
        let mut obj: Vec<u8> = Vec::new();
        push_dec(&mut obj, 3 + 3 * (n as u64));
        push_ascii(&mut obj, " 0 obj\n<< /Title (");
        let title_bytes = title.as_bytes_vec();
        push_escaped(&mut obj, &title_bytes);
        push_ascii(&mut obj, ") >>\nendobj\n");
        proof {
            assert(obj@ =~= spec_info_obj(pages_v.len(), title@));
        }
        let g = emit_obj(&mut out, &mut offs, obj, Ghost(objs));
        proof {
            objs = g@;
            assert(objs =~= spec_objects(pages_v, title@, wcn, hcn));
            lemma_page_objs_len(pages_v, wcn, hcn);
            lemma_offsets_len(objs, 9);
        }

        // every recorded offset must fit its ten digits
        proof {
            reveal_strlit("%PDF-1.4\n");
            assert(out@.len() == 9 + spec_concat(spec_objects(pages_v, title@, wcn, hcn)).len());
        }
        let body_end = out.len();
        if body_end as u64 >= 10000000000 {
            return Err(
                ConvError::PdfGenerationError(
                    String::from_str("Failed to save PDF: cross-reference offset too large"),
                ),
            );
        }

        // cross-reference table
        let ghost offs_v = spec_offsets(objs, 9);
        let ghost pre_xref = out@;
        push_ascii(&mut out, "xref\n0 ");
        push_dec(&mut out, offs.len() as u64 + 1);
        push_ascii(&mut out, "\n0000000000 65535 f \n");
        let ghost xref_head = ascii_bytes("xref\n0 "@) + dec_bytes(offs_v.len() + 1)
            + ascii_bytes("\n0000000000 65535 f \n"@);
        let mut j: usize = 0;
        proof {
            assert(offs_v.take(0) =~= Seq::<int>::empty());
            assert(out@ =~= pre_xref + xref_head + spec_xref_entries(offs_v.take(0)));
        }
        while j < offs.len()
            invariant
                j <= offs@.len(),
                offs@.len() == offs_v.len(),
                forall|q: int| 0 <= q < offs@.len() ==> offs@[q] as int == offs_v[q],
                forall|q: int| 0 <= q < offs@.len() ==> 0 <= #[trigger] offs@[q] <= pre_xref.len(),
                pre_xref.len() < 10000000000,
                xref_head == ascii_bytes("xref\n0 "@) + dec_bytes(offs_v.len() + 1) + ascii_bytes(
                    "\n0000000000 65535 f \n"@,
                ),
                out@ == pre_xref + xref_head + spec_xref_entries(offs_v.take(j as int)),
            decreases offs@.len() - j,
        {
            push_pad10(&mut out, offs[j]);
            push_ascii(&mut out, " 00000 n \n");
            proof {
                assert(offs_v.take(j as int + 1).drop_last() =~= offs_v.take(j as int));
                assert(offs_v.take(j as int + 1).last() == offs_v[j as int]);
                assert(out@ =~= pre_xref + xref_head + spec_xref_entries(offs_v.take(j as int + 1)));
            }
            j = j + 1;
        }
        proof {
            assert(offs_v.take(offs@.len() as int) =~= offs_v);
        }

        // trailer
        push_ascii(&mut out, "trailer\n<< /Size ");
        push_dec(&mut out, offs.len() as u64 + 1);
        push_ascii(&mut out, " /Root 1 0 R /Info ");
        push_dec(&mut out, 3 + 3 * (n as u64));
        push_ascii(&mut out, " 0 R >>\nstartxref\n");
        push_dec(&mut out, body_end as u64);
        push_ascii(&mut out, "\n%%EOF");
        proof {
            lemma_pdf_magic(pages_v, title@, wcn, hcn);
            reveal_strlit("%PDF-1.4\n");
            let objs_f = spec_objects(pages_v, title@, wcn, hcn);
            let body = spec_concat(objs_f);
            assert(objs == objs_f);
            assert(pre_xref =~= ascii_bytes("%PDF-1.4\n"@) + body);
            assert(body_end as int == 9 + body.len());
            assert(pages_v.len() == slides@.len());
            assert(xref_head + spec_xref_entries(offs_v) =~= spec_xref(offs_v));
            assert(pre_xref + xref_head + spec_xref_entries(offs_v) =~= pre_xref + spec_xref(
                offs_v,
            ));
            assert(out@ =~= spec_pdf_bytes(pages_v, title@, wcn, hcn));
        }
        Ok(out)
    }

    /// Assemble a document at a requested fidelity level.  Every level
    /// currently assembles the same uncompressed document.
    pub fn generate_pdf_with_quality(
        &self,
        slides: Vec<Canvas>,
        title: &str,
        _quality: ImageQuality,
    ) -> (r: Result<Vec<u8>, ConvError>)
        ensures
            (slides@.len() == 0) <==> (r matches Err(e) && e is EmptyInput),
            r matches Ok(b) ==> b@ == spec_pdf_bytes(
                pages_view(slides@),
                title@,
                units::spec_px_to_centipt(self.width_px as nat),
                units::spec_px_to_centipt(self.height_px as nat),
            ),
            r matches Ok(b) ==> b@.len() >= 4 && b@.subrange(0, 4) == ascii_bytes("%PDF"@),
            r matches Err(e) ==> e is EmptyInput || e is PdfGenerationError,
            slides@.len() >= 1 && slides@.len() <= 1000000000 && spec_pdf_fits(
                pages_view(slides@),
                title@,
                units::spec_px_to_centipt(self.width_px as nat),
                units::spec_px_to_centipt(self.height_px as nat),
            ) ==> r is Ok,
    {
        self.generate_pdf(slides, title)
    }
}

} // verus!
