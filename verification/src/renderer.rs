//! The rasterizer: turns one slide's markup into an ordered scene of
//! positioned elements, and paints that scene onto a fixed-size pixel
//! canvas in three layers — shapes, then media, then text placeholders.

use vstd::prelude::*;
use vstd::string::*;
use crate::errors::ConvError;
use crate::extractor::{ImageData, SlideData, SpecImage, images_view};
use crate::text;
use crate::units;
use crate::xml;
use crate::xml::{SpecAttr, SpecEvent, XmlAttr, XmlEvent, attrs_view, events_view, spec_scan};

verus! {

/// An RGBA color.
#[derive(Clone, Copy, Debug, PartialEq, Eq, Structural)]
pub struct Color {
    pub r: u8,
    pub g: u8,
    pub b: u8,
    pub a: u8,
}

/// A positioned text placeholder, in whole pixels.
pub struct TextElement {
    pub text: String,
    pub x: u64,
    pub y: u64,
    pub width: u64,
    pub height: u64,
    pub font_size: u64,
    pub color: Color,
    pub bold: bool,
}

/// A positioned media region, in whole pixels.
pub struct ImageElement {
    pub image_id: String,
    pub x: u64,
    pub y: u64,
    pub width: u64,
    pub height: u64,
}

/// A positioned solid-filled rectangle, in whole pixels.
pub struct ShapeElement {
    pub x: u64,
    pub y: u64,
    pub width: u64,
    pub height: u64,
    pub fill_color: Color,
}

/// The specification-level image of a text placeholder.
pub ghost struct SpecText {
    pub text: Seq<char>,
    pub x: u64,
    pub y: u64,
    pub width: u64,
    pub height: u64,
    pub font_size: u64,
    pub color: Color,
    pub bold: bool,
}

impl View for TextElement {
    type V = SpecText;

    open spec fn view(&self) -> SpecText {
        SpecText {
            text: self.text@,
            x: self.x,
            y: self.y,
            width: self.width,
            height: self.height,
            font_size: self.font_size,
            color: self.color,
            bold: self.bold,
        }
    }
}

/// The specification-level image of a media region.
pub ghost struct SpecImageEl {
    pub image_id: Seq<char>,
    pub x: u64,
    pub y: u64,
    pub width: u64,
    pub height: u64,
}

impl View for ImageElement {
    type V = SpecImageEl;

    open spec fn view(&self) -> SpecImageEl {
        SpecImageEl {
            image_id: self.image_id@,
            x: self.x,
            y: self.y,
            width: self.width,
            height: self.height,
        }
    }
}

/// The specification-level image of a sequence of text placeholders.
pub open spec fn texts_view(s: Seq<TextElement>) -> Seq<SpecText> {
    s.map_values(|t: TextElement| t@)
}

/// The specification-level image of a sequence of media regions.
pub open spec fn image_els_view(s: Seq<ImageElement>) -> Seq<SpecImageEl> {
    s.map_values(|t: ImageElement| t@)
}

/// The parser's running state: the current transform in fixed-point
/// units, the text accumulator, and the elements emitted so far.
pub ghost struct SpecSceneState {
    pub tx: u64,
    pub ty: u64,
    pub tw: u64,
    pub th: u64,
    pub in_text: bool,
    pub cur_text: Seq<char>,
    pub texts: Seq<SpecText>,
    pub images: Seq<SpecImageEl>,
}

/// The parser's initial state: a zero transform and nothing emitted.
pub open spec fn spec_scene_init() -> SpecSceneState {
    SpecSceneState {
        tx: 0,
        ty: 0,
        tw: 0,
        th: 0,
        in_text: false,
        cur_text: Seq::empty(),
        texts: Seq::empty(),
        images: Seq::empty(),
    }
}

/// A numeric attribute in fixed-point units; anything malformed falls
/// back to zero.
pub open spec fn spec_attr_emu_or_zero(attrs: Seq<SpecAttr>, key: Seq<char>) -> u64 {
    match xml::spec_attr_last(attrs, key) {
        Some(v) => match text::spec_parse_u64(v) {
            Some(x) => x,
            None => 0,
        },
        None => 0,
    }
}

/// The media regions emitted by one image-reference tag: one per embed
/// attribute, at the current transform converted to pixels.
pub open spec fn spec_blip_images(st: SpecSceneState, attrs: Seq<SpecAttr>) -> Seq<SpecImageEl>
    decreases attrs.len(),
{
    if attrs.len() == 0 {
        Seq::empty()
    } else {
        spec_blip_images(st, attrs.drop_last()) + if attrs.last().key == "r:embed"@ {
            seq![
                SpecImageEl {
                    image_id: attrs.last().value,
                    x: (st.tx / 9525) as u64,
                    y: (st.ty / 9525) as u64,
                    width: (st.tw / 9525) as u64,
                    height: (st.th / 9525) as u64,
                },
            ]
        } else {
            Seq::empty()
        }
    }
}

/// One step of the scene state machine, mirroring the forward streaming
/// pass: shape and picture openings reset the transform, offset and
/// extent elements populate it, image references emit media regions at
/// it, text accumulates between text markers, and a closing shape with
/// accumulated text emits a text placeholder with fixed default styling.
pub open spec fn spec_scene_step(st: SpecSceneState, ev: SpecEvent) -> SpecSceneState {
    match ev {
        SpecEvent::Start { name, attrs } => {
            if name == "p:sp"@ || name == "p:pic"@ {
                SpecSceneState { tx: 0, ty: 0, tw: 0, th: 0, ..st }
            } else if name == "a:t"@ {
                SpecSceneState { in_text: true, cur_text: Seq::empty(), ..st }
            } else {
                st
            }
        },
        SpecEvent::Empty { name, attrs } => {
            if name == "a:off"@ {
                SpecSceneState {
                    tx: spec_attr_emu_or_zero(attrs, "x"@),
                    ty: spec_attr_emu_or_zero(attrs, "y"@),
                    ..st
                }
            } else if name == "a:ext"@ {
                SpecSceneState {
                    tw: spec_attr_emu_or_zero(attrs, "cx"@),
                    th: spec_attr_emu_or_zero(attrs, "cy"@),
                    ..st
                }
            } else if name == "a:blip"@ {
                SpecSceneState { images: st.images + spec_blip_images(st, attrs), ..st }
            } else {
                st
            }
        },
        SpecEvent::Text { text } => {
            if st.in_text {
                SpecSceneState { cur_text: st.cur_text + xml::spec_unescape(text), ..st }
            } else {
                st
            }
        },
        SpecEvent::End { name } => {
            if name == "a:t"@ {
                SpecSceneState { in_text: false, ..st }
            } else if name == "p:sp"@ {
                if st.cur_text.len() > 0 {
                    SpecSceneState {
                        cur_text: Seq::empty(),
                        texts: st.texts.push(
                            SpecText {
                                text: st.cur_text,
                                x: (st.tx / 9525) as u64,
                                y: (st.ty / 9525) as u64,
                                width: (st.tw / 9525) as u64,
                                height: (st.th / 9525) as u64,
                                font_size: 24,
                                color: Color { r: 0, g: 0, b: 0, a: 255 },
                                bold: false,
                            },
                        ),
                        ..st
                    }
                } else {
                    st
                }
            } else {
                st
            }
        },
    }
}

/// The state after consuming a whole event sequence.
pub open spec fn spec_scene_fold(evs: Seq<SpecEvent>) -> SpecSceneState
    decreases evs.len(),
{
    if evs.len() == 0 {
        spec_scene_init()
    } else {
        spec_scene_step(spec_scene_fold(evs.drop_last()), evs.last())
    }
}

/// The scene of a slide's markup: its text placeholders and media
/// regions in document order, or nothing on a well-formedness violation.
pub open spec fn spec_scene_of(content: Seq<char>) -> Option<(Seq<SpecText>, Seq<SpecImageEl>)> {
    match spec_scan(content) {
        None => None,
        Some(evs) => Some((spec_scene_fold(evs).texts, spec_scene_fold(evs).images)),
    }
}

fn attr_emu_or_zero(attrs: &Vec<XmlAttr>, key: &str) -> (r: u64)
    ensures
        r == spec_attr_emu_or_zero(attrs_view(attrs@), key@),
{
    match xml::attr_last(attrs, key) {
        Some(v) => match text::parse_u64(v.as_str()) {
            Some(x) => x,
            None => 0,
        },
        None => 0,
    }
}

struct SceneState {
    tx: u64,
    ty: u64,
    tw: u64,
    th: u64,
    in_text: bool,
    cur_text: String,
    texts: Vec<TextElement>,
    images: Vec<ImageElement>,
}

impl SceneState {
    spec fn matches(&self, st: SpecSceneState) -> bool {
        &&& self.tx == st.tx
        &&& self.ty == st.ty
        &&& self.tw == st.tw
        &&& self.th == st.th
        &&& self.in_text == st.in_text
        &&& self.cur_text@ == st.cur_text
        &&& texts_view(self.texts@) == st.texts
        &&& image_els_view(self.images@) == st.images
    }
}

fn push_blip_images(st: &mut SceneState, attrs: &Vec<XmlAttr>, ghost_st: Ghost<SpecSceneState>)
    requires
        old(st).matches(ghost_st@),
    ensures
        final(st).tx == old(st).tx,
        final(st).ty == old(st).ty,
        final(st).tw == old(st).tw,
        final(st).th == old(st).th,
        final(st).in_text == old(st).in_text,
        final(st).cur_text@ == old(st).cur_text@,
        texts_view(final(st).texts@) == texts_view(old(st).texts@),
        image_els_view(final(st).images@) == image_els_view(old(st).images@) + spec_blip_images(
            ghost_st@,
            attrs_view(attrs@),
        ),
{
    let n = attrs.len();
    let mut j: usize = 0;
    proof {
        assert(attrs_view(attrs@).take(0) =~= Seq::<SpecAttr>::empty());
        assert(image_els_view(st.images@) + Seq::<SpecImageEl>::empty() =~= image_els_view(
            st.images@,
        ));
    }
    while j < n
        invariant
            j <= n,
            n == attrs@.len(),
            st.tx == old(st).tx,
            st.ty == old(st).ty,
            st.tw == old(st).tw,
            st.th == old(st).th,
            st.in_text == old(st).in_text,
            st.cur_text@ == old(st).cur_text@,
            st.tx == ghost_st@.tx && st.ty == ghost_st@.ty && st.tw == ghost_st@.tw && st.th
                == ghost_st@.th,
            texts_view(st.texts@) == texts_view(old(st).texts@),
            image_els_view(st.images@) == image_els_view(old(st).images@) + spec_blip_images(
                ghost_st@,
                attrs_view(attrs@).take(j as int),
            ),
        decreases n - j,
    {
        proof {
            assert(attrs_view(attrs@).take(j as int + 1).drop_last() =~= attrs_view(attrs@).take(
                j as int,
            ));
            assert(attrs_view(attrs@).take(j as int + 1).last() == attrs@[j as int]@);
        }
        if text::str_eq(attrs[j].key.as_str(), "r:embed") {
            let el = ImageElement {
                image_id: attrs[j].value.clone(),
                x: st.tx / 9525,
                y: st.ty / 9525,
                width: st.tw / 9525,
                height: st.th / 9525,
            };
            proof {
                assert(image_els_view(st.images@.push(el)) =~= image_els_view(st.images@).push(
                    el@,
                ));
                assert(image_els_view(old(st).images@) + spec_blip_images(
                    ghost_st@,
                    attrs_view(attrs@).take(j as int + 1),
                ) =~= image_els_view(st.images@).push(el@));
            }
            st.images.push(el);
        } else {
            proof {
                assert(image_els_view(st.images@) + Seq::<SpecImageEl>::empty() =~= image_els_view(
                    st.images@,
                ));
            }
        }
        j = j + 1;
    }
    proof {
        assert(attrs_view(attrs@).take(n as int) =~= attrs_view(attrs@));
    }
}

/// Parse slide markup into its scene: text placeholders, media regions
/// and solid shapes, in document order.  The only fatal condition is a
/// well-formedness violation of the markup.
pub fn parse_slide_elements(content: &str) -> (r: Result<
    (Vec<TextElement>, Vec<ImageElement>, Vec<ShapeElement>),
    ConvError,
>)
    ensures
        (r is Ok) <==> spec_scene_of(content@) is Some,
        r matches Ok(v) ==> Some((texts_view(v.0@), image_els_view(v.1@))) == spec_scene_of(
            content@,
        ) && v.2@.len() == 0,
        r matches Err(e) ==> e is XmlParseError,
{
    let events = match xml::scan_events(content) {
        None => {
            return Err(ConvError::XmlParseError(String::from_str("XML parsing error")));
        },
        Some(evs) => evs,
    };
    let ghost evs_v = events_view(events@);
    let n = events.len();
    let mut st = SceneState {
        tx: 0,
        ty: 0,
        tw: 0,
        th: 0,
        in_text: false,
        cur_text: String::new(),
        texts: Vec::new(),
        images: Vec::new(),
    };
    let mut i: usize = 0;
    proof {
        assert(evs_v.take(0) =~= Seq::<SpecEvent>::empty());
        assert(texts_view(st.texts@) =~= Seq::<SpecText>::empty());
        assert(image_els_view(st.images@) =~= Seq::<SpecImageEl>::empty());
    }
    while i < n
        invariant
            i <= n,
            n == events@.len(),
            evs_v == events_view(events@),
            spec_scan(content@) == Some(evs_v),
            st.matches(spec_scene_fold(evs_v.take(i as int))),
        decreases n - i,
    {
        proof {
            assert(evs_v.take(i as int + 1).drop_last() =~= evs_v.take(i as int));
            assert(evs_v.take(i as int + 1).last() == events@[i as int]@);
        }
        let ghost st_before = spec_scene_fold(evs_v.take(i as int));
        match &events[i] {
            XmlEvent::Start { name, attrs } => {
                if text::str_eq(name.as_str(), "p:sp") || text::str_eq(name.as_str(), "p:pic") {
                    st.tx = 0;
                    st.ty = 0;
                    st.tw = 0;
                    st.th = 0;
                } else if text::str_eq(name.as_str(), "a:t") {
                    st.in_text = true;
                    st.cur_text = String::new();
                }
            },
            XmlEvent::Empty { name, attrs } => {
                if text::str_eq(name.as_str(), "a:off") {
                    st.tx = attr_emu_or_zero(attrs, "x");
                    st.ty = attr_emu_or_zero(attrs, "y");
                } else if text::str_eq(name.as_str(), "a:ext") {
                    st.tw = attr_emu_or_zero(attrs, "cx");
                    st.th = attr_emu_or_zero(attrs, "cy");
                } else if text::str_eq(name.as_str(), "a:blip") {
                    push_blip_images(&mut st, attrs, Ghost(st_before));
                }
            },
            XmlEvent::Text { text: t } => {
                if st.in_text {
                    let unescaped = xml::unescape(t.as_str());
                    st.cur_text.append(unescaped.as_str());
                }
            },
            XmlEvent::End { name } => {
                if text::str_eq(name.as_str(), "a:t") {
                    st.in_text = false;
                } else if text::str_eq(name.as_str(), "p:sp") {
                    if st.cur_text.as_str().unicode_len() > 0 {
                        let el = TextElement {
                            text: st.cur_text.clone(),
                            x: st.tx / 9525,
                            y: st.ty / 9525,
                            width: st.tw / 9525,
                            height: st.th / 9525,
                            font_size: 24,
                            color: Color { r: 0, g: 0, b: 0, a: 255 },
                            bold: false,
                        };
                        proof {
                            assert(texts_view(st.texts@.push(el)) =~= texts_view(st.texts@).push(
                                el@,
                            ));
                        }
                        st.texts.push(el);
                        st.cur_text = String::new();
                    }
                }
            },
        }
        i = i + 1;
    }
    proof {
        assert(evs_v.take(n as int) =~= evs_v);
    }
    let SceneState { texts, images, .. } = st;
    Ok((texts, images, Vec::new()))
}


/// A fixed-size RGBA pixel buffer, rows top to bottom, four bytes per
/// pixel.
pub struct Canvas {
    pub width: u32,
    pub height: u32,
    pub data: Vec<u8>,
}

impl Canvas {
    /// The buffer holds exactly four bytes for each pixel of the canvas.
    pub open spec fn wf(&self) -> bool {
        self.data@.len() == 4 * (self.width as nat) * (self.height as nat)
    }
}

/// A pixel length saturated to the canvas coordinate range.
pub open spec fn spec_sat32(v: u64) -> int {
    if v > u32::MAX as u64 {
        u32::MAX as int
    } else {
        v as int
    }
}

fn sat32(v: u64) -> (r: u32)
    ensures
        r as int == spec_sat32(v),
{
    if v > u32::MAX as u64 {
        u32::MAX
    } else {
        v as u32
    }
}

/// An opaque white buffer of the given pixel size.
pub open spec fn spec_white_canvas(w: nat, h: nat) -> Seq<u8> {
    Seq::new(4 * w * h, |k: int| 255u8)
}

/// The channel of a color by flat byte offset.
pub open spec fn spec_channel(c: Color, ch: int) -> u8 {
    if ch == 0 {
        c.r
    } else if ch == 1 {
        c.g
    } else if ch == 2 {
        c.b
    } else {
        c.a
    }
}

/// The column of a flat byte index on a canvas of width `w`.
pub open spec fn spec_col(k: int, w: nat) -> int {
    (k / 4) % (w as int)
}

/// The row of a flat byte index on a canvas of width `w`.
pub open spec fn spec_row(k: int, w: nat) -> int {
    (k / 4) / (w as int)
}

proof fn lemma_flat_coords(w: nat, h: nat, px: int, py: int, ch: int)
    requires
        w > 0,
        0 <= px < w,
        0 <= py < h,
        0 <= ch < 4,
    ensures
        0 <= 4 * (py * w + px) + ch < 4 * w * h,
        spec_col(4 * (py * w + px) + ch, w) == px,
        spec_row(4 * (py * w + px) + ch, w) == py,
        (4 * (py * w + px) + ch) % 4 == ch,
{
    assert(0 <= 4 * (py * w + px) + ch < 4 * w * h && (4 * (py * w + px) + ch) / 4 == py * w + px
        && (4 * (py * w + px) + ch) % 4 == ch && (py * w + px) % (w as int) == px && (py * w + px)
        / (w as int) == py) by (nonlinear_arith)
        requires
            w > 0,
            0 <= px < w,
            0 <= py < h,
            0 <= ch < 4,
    ;
}

proof fn lemma_flat_decomp(w: nat, h: nat, k: int)
    requires
        w > 0,
        0 <= k < 4 * w * h,
    ensures
        0 <= spec_col(k, w) < w,
        0 <= spec_row(k, w) < h,
        0 <= k % 4 < 4,
        k == 4 * (spec_row(k, w) * w + spec_col(k, w)) + k % 4,
{
    assert(0 <= (k / 4) % (w as int) < w && 0 <= (k / 4) / (w as int) < h && k == 4 * (((k / 4) / (
    w as int)) * w + (k / 4) % (w as int)) + k % 4) by (nonlinear_arith)
        requires
            w > 0,
            0 <= k < 4 * w * h,
    ;
}

impl Canvas {
    /// A canvas of the given size with every pixel opaque white.
    pub fn new_white(width: u32, height: u32) -> (r: Canvas)
        requires
            4 * (width as nat) * (height as nat) <= usize::MAX,
        ensures
            r.width == width,
            r.height == height,
            r.wf(),
            r.data@ == spec_white_canvas(width as nat, height as nat),
    {
        proof {
            assert(4 * (width as nat) * (height as nat) == (4 as u128) * (width as u128) * (
            height as u128)) by (nonlinear_arith);
        }
        let n128: u128 = 4 * (width as u128) * (height as u128);
        let n: usize = n128 as usize;
        let mut data: Vec<u8> = Vec::new();
        let mut i: usize = 0;
        while i < n
            invariant
                i <= n,
                data@.len() == i,
                forall|k: int| 0 <= k < i ==> data@[k] == 255u8,
            decreases n - i,
        {
            data.push(255);
            i = i + 1;
        }
        proof {
            assert(data@ =~= spec_white_canvas(width as nat, height as nat));
        }
        Canvas { width, height, data }
    }

    /// Write one pixel.
    fn put_pixel(&mut self, x: u32, y: u32, c: Color)
        requires
            old(self).wf(),
            x < old(self).width,
            y < old(self).height,
        ensures
            final(self).wf(),
            final(self).width == old(self).width,
            final(self).height == old(self).height,
            final(self).data@.len() == old(self).data@.len(),
            forall|k: int|
                0 <= k < old(self).data@.len() ==> final(self).data@[k] == {
                    let base = 4 * (y * old(self).width + x);
                    if base <= k < base + 4 {
                        spec_channel(c, k - base)
                    } else {
                        old(self).data@[k]
                    }
                },
    {
        proof {
            lemma_flat_coords(
                self.width as nat,
                self.height as nat,
                x as int,
                y as int,
                0,
            );
            lemma_flat_coords(
                self.width as nat,
                self.height as nat,
                x as int,
                y as int,
                3,
            );
        }
        let l = self.data.len();
        proof {
            assert((y as int) * (self.width as int) + (x as int) <= 4 * ((y as int) * (
            self.width as int) + (x as int)) + 3);
            assert(4 * ((y as int) * (self.width as int) + (x as int)) + 3 < l as int);
        }
        let base: usize = 4 * ((y as usize) * (self.width as usize) + (x as usize));
        self.data.set(base, c.r);
        self.data.set(base + 1, c.g);
        self.data.set(base + 2, c.b);
        self.data.set(base + 3, c.a);
    }
}

/// The buffer after filling an axis-aligned rectangle with a solid color,
/// clipped to the canvas.
pub open spec fn spec_fill_rect(
    data: Seq<u8>,
    w: nat,
    h: nat,
    ex: int,
    ey: int,
    ew: int,
    eh: int,
    color: Color,
) -> Seq<u8> {
    Seq::new(
        data.len(),
        |k: int|
            {
                let px = spec_col(k, w);
                let py = spec_row(k, w);
                if ex <= px && px < ex + ew && px < w && ey <= py && py < ey + eh && py < h {
                    spec_channel(color, k % 4)
                } else {
                    data[k]
                }
            },
    )
}

impl Canvas {
    /// Paint a solid axis-aligned rectangle, clipped to the canvas.
    pub fn fill_rect(&mut self, x: u64, y: u64, width: u64, height: u64, color: Color)
        requires
            old(self).wf(),
        ensures
            final(self).wf(),
            final(self).width == old(self).width,
            final(self).height == old(self).height,
            final(self).data@ == spec_fill_rect(
                old(self).data@,
                old(self).width as nat,
                old(self).height as nat,
                spec_sat32(x),
                spec_sat32(y),
                spec_sat32(width),
                spec_sat32(height),
                color,
            ),
    {
        let ghost w = self.width as nat;
        let ghost h = self.height as nat;
        let ghost dst = spec_fill_rect(
            old(self).data@,
            w,
            h,
            spec_sat32(x),
            spec_sat32(y),
            spec_sat32(width),
            spec_sat32(height),
            color,
        );
        let x0 = sat32(x);
        let y0 = sat32(y);
        let rw = sat32(width);
        let rh = sat32(height);
        let x1 = if x0 >= self.width || rw > self.width - x0 {
            self.width
        } else {
            x0 + rw
        };
        let y1 = if y0 >= self.height || rh > self.height - y0 {
            self.height
        } else {
            y0 + rh
        };
        let mut py = y0;
        while py < y1
            invariant
                old(self).wf(),
                self.wf(),
                self.width == old(self).width,
                self.height == old(self).height,
                w == self.width as nat,
                h == self.height as nat,
                y0 <= py,
                py <= y1 || py == y0,
                x1 as int == if spec_sat32(x) + spec_sat32(width) < w as int {
                    spec_sat32(x) + spec_sat32(width)
                } else {
                    w as int
                } || x1 as int == w as int && spec_sat32(x) >= w as int,
                y1 as int == if spec_sat32(y) + spec_sat32(height) < h as int {
                    spec_sat32(y) + spec_sat32(height)
                } else {
                    h as int
                } || y1 as int == h as int && spec_sat32(y) >= h as int,
                x0 as int == spec_sat32(x),
                y0 as int == spec_sat32(y),
                dst == spec_fill_rect(
                    old(self).data@,
                    w,
                    h,
                    spec_sat32(x),
                    spec_sat32(y),
                    spec_sat32(width),
                    spec_sat32(height),
                    color,
                ),
                self.data@.len() == old(self).data@.len(),
                forall|k: int|
                    0 <= k < self.data@.len() ==> self.data@[k] == (if spec_row(k, w) < py {
                        dst[k]
                    } else {
                        old(self).data@[k]
                    }),
            decreases y1 - py,
        {
            let mut px = x0;
            while px < x1
                invariant
                    old(self).wf(),
                    self.wf(),
                    self.width == old(self).width,
                    self.height == old(self).height,
                    w == self.width as nat,
                    h == self.height as nat,
                    y0 <= py < y1 <= h,
                    x0 <= px,
                    px <= x1 || px == x0,
                    x1 as int == if spec_sat32(x) + spec_sat32(width) < w as int {
                        spec_sat32(x) + spec_sat32(width)
                    } else {
                        w as int
                    } || x1 as int == w as int && spec_sat32(x) >= w as int,
                    y1 as int == if spec_sat32(y) + spec_sat32(height) < h as int {
                        spec_sat32(y) + spec_sat32(height)
                    } else {
                        h as int
                    } || y1 as int == h as int && spec_sat32(y) >= h as int,
                    x0 as int == spec_sat32(x),
                    y0 as int == spec_sat32(y),
                    dst == spec_fill_rect(
                        old(self).data@,
                        w,
                        h,
                        spec_sat32(x),
                        spec_sat32(y),
                        spec_sat32(width),
                        spec_sat32(height),
                        color,
                    ),
                    self.data@.len() == old(self).data@.len(),
                    forall|k: int|
                        0 <= k < self.data@.len() ==> self.data@[k] == (if spec_row(k, w) < py || (
                        spec_row(k, w) == py && spec_col(k, w) < px) {
                            dst[k]
                        } else {
                            old(self).data@[k]
                        }),
                decreases x1 - px,
            {
                proof {
                    lemma_flat_coords(w, h, px as int, py as int, 0);
                }
                self.put_pixel(px, py, color);
                proof {
                    assert forall|k: int| 0 <= k < self.data@.len() implies self.data@[k] == (
                    if spec_row(k, w) < py || (spec_row(k, w) == py && spec_col(k, w) < px + 1) {
                        dst[k]
                    } else {
                        old(self).data@[k]
                    }) by {
                        lemma_flat_decomp(w, h, k);
                        let base = 4 * (py * w + px);
                        if base <= k < base + 4 {
                            lemma_flat_coords(w, h, px as int, py as int, k - base);
                        } else {
                            if spec_row(k, w) == py && spec_col(k, w) == px as int {
                                lemma_flat_coords(w, h, px as int, py as int, k % 4);
                            }
                        }
                    }
                }
                px = px + 1;
            }
            proof {
                assert forall|k: int| 0 <= k < self.data@.len() implies self.data@[k] == (
                if spec_row(k, w) < py + 1 {
                    dst[k]
                } else {
                    old(self).data@[k]
                }) by {
                    assert(w > 0) by (nonlinear_arith)
                        requires
                            0 <= k,
                            k < 4 * w * (h as nat),
                    ;
                    lemma_flat_decomp(w, h, k);
                    if spec_row(k, w) == py as int && !(spec_col(k, w) < px as int) {
                        assert(dst[k] == old(self).data@[k]);
                    }
                }
            }
            py = py + 1;
        }
        proof {
            assert forall|k: int| 0 <= k < self.data@.len() implies self.data@[k] == dst[k] by {
                assert(w > 0) by (nonlinear_arith)
                    requires
                        0 <= k,
                        k < 4 * w * (h as nat),
                ;
                lemma_flat_decomp(w, h, k);
                if !(spec_row(k, w) < py as int) {
                    assert(dst[k] == old(self).data@[k]);
                }
            }
            assert(self.data@ =~= dst);
        }
    }
}

/// The standard "over" blend of one source channel onto a destination
/// channel, with the source's alpha.
pub open spec fn spec_blend(srcv: u8, alpha: u8, dstv: u8) -> u8 {
    (((srcv as int) * (alpha as int) + (dstv as int) * (255 - alpha as int)) / 255) as u8
}

fn blend_channel(srcv: u8, alpha: u8, dstv: u8) -> (r: u8)
    ensures
        r == spec_blend(srcv, alpha, dstv),
{
    proof {
        assert((srcv as int) * (alpha as int) + (dstv as int) * (255 - alpha as int) <= 255 * 255)
            by (nonlinear_arith)
            requires
                srcv <= 255 && alpha <= 255 && dstv <= 255,
        ;
        assert((srcv as int) * (alpha as int) >= 0 && (dstv as int) * (255 - alpha as int) >= 0)
            by (nonlinear_arith);
    }
    let num: u32 = (srcv as u32) * (alpha as u32) + (dstv as u32) * (255 - alpha as u32);
    (num / 255) as u8
}

/// The buffer after alpha-compositing a decoded source of `rw` by `rh`
/// pixels at the given position, clipped to the canvas; composited pixels
/// become fully opaque.
pub open spec fn spec_composite(
    data: Seq<u8>,
    w: nat,
    h: nat,
    x0: int,
    y0: int,
    rw: int,
    rh: int,
    src: Seq<u8>,
) -> Seq<u8> {
    Seq::new(
        data.len(),
        |k: int|
            {
                let px = spec_col(k, w);
                let py = spec_row(k, w);
                let ch = k % 4;
                if x0 <= px && px < x0 + rw && y0 <= py && py < y0 + rh {
                    let sbase = 4 * ((py - y0) * rw + (px - x0));
                    if ch == 3 {
                        255u8
                    } else {
                        spec_blend(src[sbase + ch], src[sbase + 3], data[k])
                    }
                } else {
                    data[k]
                }
            },
    )
}

impl Canvas {
    /// Alpha-composite a decoded source buffer onto the canvas at the
    /// given position, clipped to the canvas bounds.
    pub fn composite(&mut self, x0: u32, y0: u32, rw: u32, rh: u32, src: &Vec<u8>)
        requires
            old(self).wf(),
            src@.len() == 4 * (rw as nat) * (rh as nat),
        ensures
            final(self).wf(),
            final(self).width == old(self).width,
            final(self).height == old(self).height,
            final(self).data@ == spec_composite(
                old(self).data@,
                old(self).width as nat,
                old(self).height as nat,
                x0 as int,
                y0 as int,
                rw as int,
                rh as int,
                src@,
            ),
    {
        let ghost w = self.width as nat;
        let ghost h = self.height as nat;
        let ghost dst = spec_composite(
            old(self).data@,
            w,
            h,
            x0 as int,
            y0 as int,
            rw as int,
            rh as int,
            src@,
        );
        let mut sy: u32 = 0;
        while sy < rh
            invariant
                old(self).wf(),
                self.wf(),
                self.width == old(self).width,
                self.height == old(self).height,
                w == self.width as nat,
                h == self.height as nat,
                sy <= rh,
                src@.len() == 4 * (rw as nat) * (rh as nat),
                dst == spec_composite(
                    old(self).data@,
                    w,
                    h,
                    x0 as int,
                    y0 as int,
                    rw as int,
                    rh as int,
                    src@,
                ),
                self.data@.len() == old(self).data@.len(),
                forall|k: int|
                    0 <= k < self.data@.len() ==> self.data@[k] == (if spec_row(k, w) - y0 < sy
                        && y0 <= spec_row(k, w) && x0 <= spec_col(k, w) && spec_col(k, w) < x0 + rw {
                        dst[k]
                    } else {
                        old(self).data@[k]
                    }),
            decreases rh - sy,
        {
            let mut sx: u32 = 0;
            while sx < rw
                invariant
                    old(self).wf(),
                    self.wf(),
                    self.width == old(self).width,
                    self.height == old(self).height,
                    w == self.width as nat,
                    h == self.height as nat,
                    sy < rh,
                    sx <= rw,
                    src@.len() == 4 * (rw as nat) * (rh as nat),
                    dst == spec_composite(
                        old(self).data@,
                        w,
                        h,
                        x0 as int,
                        y0 as int,
                        rw as int,
                        rh as int,
                        src@,
                    ),
                    self.data@.len() == old(self).data@.len(),
                    forall|k: int|
                        0 <= k < self.data@.len() ==> self.data@[k] == (if (spec_row(k, w) - y0 < sy
                            && y0 <= spec_row(k, w) && x0 <= spec_col(k, w) && spec_col(k, w) < x0
                            + rw) || (spec_row(k, w) == y0 + sy && x0 <= spec_col(k, w) && spec_col(
                            k,
                            w,
                        ) < x0 + sx) {
                            dst[k]
                        } else {
                            old(self).data@[k]
                        }),
                decreases rw - sx,
            {
                let tx64: u64 = x0 as u64 + sx as u64;
                let ty64: u64 = y0 as u64 + sy as u64;
                if tx64 < self.width as u64 && ty64 < self.height as u64 {
                    let tx: u32 = tx64 as u32;
                    let ty: u32 = ty64 as u32;
                    proof {
                        assert(0 <= 4 * ((sy as int) * (rw as int) + (sx as int)) + 3 < 4 * (
                        rw as nat) * (rh as nat)) by (nonlinear_arith)
                            requires
                                sx < rw,
                                sy < rh,
                        ;
                    }
                    let src_len = src.len();
                    let sbase: usize = 4 * ((sy as usize) * (rw as usize) + (sx as usize));
                    let sr = src[sbase];
                    let sg = src[sbase + 1];
                    let sb = src[sbase + 2];
                    let sa = src[sbase + 3];
                    proof {
                        lemma_flat_coords(w, h, tx as int, ty as int, 0);
                        lemma_flat_coords(w, h, tx as int, ty as int, 3);
                    }
                    let dst_len = self.data.len();
                    let dbase: usize = 4 * ((ty as usize) * (self.width as usize) + (tx as usize));
                    let dr = self.data[dbase];
                    let dg = self.data[dbase + 1];
                    let db = self.data[dbase + 2];
                    let c = Color {
                        r: blend_channel(sr, sa, dr),
                        g: blend_channel(sg, sa, dg),
                        b: blend_channel(sb, sa, db),
                        a: 255,
                    };
                    let ghost before = self.data@;
                    proof {
                        assert(before[4 * ((ty as int) * (w as int) + (tx as int))] == old(
                            self,
                        ).data@[4 * ((ty as int) * (w as int) + (tx as int))] && before[4 * ((
                        ty as int) * (w as int) + (tx as int)) + 1] == old(self).data@[4 * ((
                        ty as int) * (w as int) + (tx as int)) + 1] && before[4 * ((ty as int) * (
                        w as int) + (tx as int)) + 2] == old(self).data@[4 * ((ty as int) * (
                        w as int) + (tx as int)) + 2]) by {
                            lemma_flat_coords(w, h, tx as int, ty as int, 0);
                            lemma_flat_coords(w, h, tx as int, ty as int, 1);
                            lemma_flat_coords(w, h, tx as int, ty as int, 2);
                        }
                    }
                    self.put_pixel(tx, ty, c);
                    proof {
                        assert forall|k: int| 0 <= k < self.data@.len() implies self.data@[k] == (
                        if (spec_row(k, w) - y0 < sy && y0 <= spec_row(k, w) && x0 <= spec_col(k, w)
                            && spec_col(k, w) < x0 + rw) || (spec_row(k, w) == y0 + sy && x0
                            <= spec_col(k, w) && spec_col(k, w) < x0 + sx + 1) {
                            dst[k]
                        } else {
                            old(self).data@[k]
                        }) by {
                            lemma_flat_decomp(w, h, k);
                            let base = 4 * ((ty as int) * (w as int) + (tx as int));
                            lemma_flat_coords(w, h, tx as int, ty as int, 0);
                            if base <= k < base + 4 {
                                lemma_flat_coords(w, h, tx as int, ty as int, k - base);
                                assert(spec_col(k, w) == tx as int && spec_row(k, w) == ty as int);
                                assert((spec_row(k, w) - y0) * rw + (spec_col(k, w) - x0) == (
                                sy as int) * (rw as int) + (sx as int));
                            } else {
                                if spec_row(k, w) == ty as int && spec_col(k, w) == tx as int {
                                    lemma_flat_coords(w, h, tx as int, ty as int, k % 4);
                                }
                            }
                        }
                    }
                } else {
                    proof {
                        assert forall|k: int| 0 <= k < self.data@.len() implies self.data@[k] == (
                        if (spec_row(k, w) - y0 < sy && y0 <= spec_row(k, w) && x0 <= spec_col(k, w)
                            && spec_col(k, w) < x0 + rw) || (spec_row(k, w) == y0 + sy && x0
                            <= spec_col(k, w) && spec_col(k, w) < x0 + sx + 1) {
                            dst[k]
                        } else {
                            old(self).data@[k]
                        }) by {
                            assert(w > 0) by (nonlinear_arith)
                                requires
                                    0 <= k,
                                    k < 4 * w * (h as nat),
                            ;
                            lemma_flat_decomp(w, h, k);
                        }
                    }
                }
                sx = sx + 1;
            }
            proof {
                assert forall|k: int| 0 <= k < self.data@.len() implies self.data@[k] == (
                if spec_row(k, w) - y0 < sy + 1 && y0 <= spec_row(k, w) && x0 <= spec_col(k, w)
                    && spec_col(k, w) < x0 + rw {
                    dst[k]
                } else {
                    old(self).data@[k]
                }) by {
                    assert(w > 0) by (nonlinear_arith)
                        requires
                            0 <= k,
                            k < 4 * w * (h as nat),
                    ;
                    lemma_flat_decomp(w, h, k);
                    if spec_row(k, w) == y0 + sy && !(x0 <= spec_col(k, w) && spec_col(k, w) < x0
                        + rw) {
                        assert(dst[k] == old(self).data@[k]);
                    }
                }
            }
            sy = sy + 1;
        }
        proof {
            assert forall|k: int| 0 <= k < self.data@.len() implies self.data@[k] == dst[k] by {
                assert(w > 0) by (nonlinear_arith)
                    requires
                        0 <= k,
                        k < 4 * w * (h as nat),
                ;
                lemma_flat_decomp(w, h, k);
                if !(spec_row(k, w) - y0 < rh && y0 <= spec_row(k, w) && x0 <= spec_col(k, w)
                    && spec_col(k, w) < x0 + rw) {
                    assert(dst[k] == old(self).data@[k]);
                }
            }
            assert(self.data@ =~= dst);
        }
    }
}

/// Whether a pixel lies on the placeholder border of a text region: the
/// top edge row, the bottom edge row (clamped to the last canvas row),
/// the left edge column, or the right edge column (clamped to the last
/// canvas column), each clipped to the canvas.
pub open spec fn spec_border_px(
    w: nat,
    h: nat,
    ex: int,
    ey: int,
    ew: int,
    eh: int,
    px: int,
    py: int,
) -> bool {
    let xend = if ex + ew < w { ex + ew } else { w as int };
    let yend = if ey + eh < h { ey + eh } else { h as int };
    let bottom = if ey + eh < h - 1 { ey + eh } else { h - 1 };
    let right = if ex + ew < w - 1 { ex + ew } else { w - 1 };
    ||| (py == ey && ey < h && ex <= px && px < xend)
    ||| (py == bottom && ex <= px && px < xend)
    ||| (px == ex && ex < w && ey <= py && py < yend)
    ||| (px == right && ey <= py && py < yend)
}

/// The buffer after drawing a text placeholder: a one-pixel light-gray
/// border at the region's edges, clipped to the canvas.
pub open spec fn spec_text_border(
    data: Seq<u8>,
    w: nat,
    h: nat,
    ex: int,
    ey: int,
    ew: int,
    eh: int,
) -> Seq<u8> {
    Seq::new(
        data.len(),
        |k: int|
            if spec_border_px(w, h, ex, ey, ew, eh, spec_col(k, w), spec_row(k, w)) {
                if k % 4 == 3 {
                    255u8
                } else {
                    200u8
                }
            } else {
                data[k]
            },
    )
}

/// The placeholder border color: light gray, fully opaque.
pub open spec fn spec_border_color() -> Color {
    Color { r: 200, g: 200, b: 200, a: 255 }
}

impl Canvas {
    /// Draw a text placeholder: a one-pixel light-gray border at the
    /// region's edges, clipped to the canvas.
    #[verifier::rlimit(100)]
    pub fn text_border(&mut self, x: u64, y: u64, width: u64, height: u64)
        requires
            old(self).wf(),
        ensures
            final(self).wf(),
            final(self).width == old(self).width,
            final(self).height == old(self).height,
            final(self).data@ == spec_text_border(
                old(self).data@,
                old(self).width as nat,
                old(self).height as nat,
                spec_sat32(x),
                spec_sat32(y),
                spec_sat32(width),
                spec_sat32(height),
            ),
    {
        let ghost w = self.width as nat;
        let ghost h = self.height as nat;
        let ghost ex = spec_sat32(x);
        let ghost ey = spec_sat32(y);
        let ghost ew = spec_sat32(width);
        let ghost eh = spec_sat32(height);
        let ghost dst = spec_text_border(old(self).data@, w, h, ex, ey, ew, eh);
        if self.width == 0 || self.height == 0 {
            proof {
                assert(4 * w * h == 0) by (nonlinear_arith)
                    requires
                        w == 0 || h == 0,
                ;
                assert(self.data@ =~= dst);
            }
            return ;
        }
        let x0 = sat32(x);
        let y0 = sat32(y);
        let rw = sat32(width);
        let rh = sat32(height);
        let xend = if x0 >= self.width || rw > self.width - x0 {
            self.width
        } else {
            x0 + rw
        };
        let yend = if y0 >= self.height || rh > self.height - y0 {
            self.height
        } else {
            y0 + rh
        };
        let bottom = if y0 >= self.height - 1 || rh > self.height - 1 - y0 {
            self.height - 1
        } else {
            y0 + rh
        };
        let right = if x0 >= self.width - 1 || rw > self.width - 1 - x0 {
            self.width - 1
        } else {
            x0 + rw
        };
        let ghost top_or_bottom = |k: int|
            {
                let px = spec_col(k, w);
                let py = spec_row(k, w);
                (py == ey && ey < h && ex <= px && px < xend as int) || (py == bottom as int && ex
                    <= px && px < xend as int)
            };
        let c = Color { r: 200, g: 200, b: 200, a: 255 };
        let mut px = x0;
        while px < xend
            invariant
                old(self).wf(),
                self.wf(),
                self.width == old(self).width,
                self.height == old(self).height,
                w == self.width as nat,
                h == self.height as nat,
                w > 0,
                h > 0,
                x0 <= px,
                px <= xend || px == x0,
                x0 as int == ex,
                y0 as int == ey,
                rw as int == ew,
                rh as int == eh,
                xend as int == (if ex + ew < w { ex + ew } else { w as int }),
                yend as int == (if ey + eh < h { ey + eh } else { h as int }),
                bottom as int == (if ey + eh < h - 1 { ey + eh } else { h - 1 }),
                right as int == (if ex + ew < w - 1 { ex + ew } else { w - 1 }),
                dst == spec_text_border(old(self).data@, w, h, ex, ey, ew, eh),
                c == (Color { r: 200, g: 200, b: 200, a: 255 }),
                self.data@.len() == old(self).data@.len(),
                forall|k: int|
                    0 <= k < self.data@.len() ==> self.data@[k] == (if ((spec_row(k, w) == ey && ey
                        < h) || spec_row(k, w) == bottom as int) && ex <= spec_col(k, w)
                        && spec_col(k, w) < px {
                        dst[k]
                    } else {
                        old(self).data@[k]
                    }),
            decreases xend - px,
        {
            if y0 < self.height {
                self.put_pixel(px, y0, c);
            }
            self.put_pixel(px, bottom, c);
            proof {
                assert forall|k: int| 0 <= k < self.data@.len() implies self.data@[k] == (if ((
                spec_row(k, w) == ey && ey < h) || spec_row(k, w) == bottom as int) && ex
                    <= spec_col(k, w) && spec_col(k, w) < px + 1 {
                    dst[k]
                } else {
                    old(self).data@[k]
                }) by {
                    lemma_flat_decomp(w, h, k);
                    let base_b = 4 * ((bottom as int) * w + px);
                    if base_b <= k < base_b + 4 {
                        lemma_flat_coords(w, h, px as int, bottom as int, k - base_b);
                    }
                    if ey < h {
                        let base_t = 4 * (ey * w + px);
                        if base_t <= k < base_t + 4 {
                            lemma_flat_coords(w, h, px as int, ey, k - base_t);
                        }
                        if spec_row(k, w) == ey && spec_col(k, w) == px as int {
                            lemma_flat_coords(w, h, px as int, ey, k % 4);
                        }
                    }
                    if spec_row(k, w) == bottom as int && spec_col(k, w) == px as int {
                        lemma_flat_coords(w, h, px as int, bottom as int, k % 4);
                    }
                }
            }
            px = px + 1;
        }
        proof {
            assert forall|k: int| 0 <= k < self.data@.len() implies self.data@[k] == (if ((spec_row(
                k,
                w,
            ) == ey && ey < h) || spec_row(k, w) == bottom as int) && ex <= spec_col(k, w)
                && spec_col(k, w) < xend as int {
                dst[k]
            } else {
                old(self).data@[k]
            }) by {
                assert(w > 0) by (nonlinear_arith)
                    requires
                        0 <= k,
                        k < 4 * w * (h as nat),
                ;
                lemma_flat_decomp(w, h, k);
            }
        }
        proof {
            assert forall|k: int| 0 <= k < self.data@.len() implies self.data@[k] == (if (((
            spec_row(k, w) == ey && ey < h) || spec_row(k, w) == bottom as int) && ex <= spec_col(
                k,
                w,
            ) && spec_col(k, w) < xend as int) || (((spec_col(k, w) == ex && ex < w) || (spec_col(
                k,
                w,
            ) == right as int)) && ey <= spec_row(k, w) && spec_row(k, w) < y0 as int) {
                dst[k]
            } else {
                old(self).data@[k]
            }) by {
                assert(w > 0) by (nonlinear_arith)
                    requires
                        0 <= k,
                        k < 4 * w * (h as nat),
                ;
                lemma_flat_decomp(w, h, k);
            }
        }
        let mut py = y0;
        while py < yend
            invariant
                old(self).wf(),
                self.wf(),
                self.width == old(self).width,
                self.height == old(self).height,
                w == self.width as nat,
                h == self.height as nat,
                w > 0,
                h > 0,
                y0 <= py,
                py <= yend || py == y0,
                x0 as int == ex,
                y0 as int == ey,
                rw as int == ew,
                rh as int == eh,
                xend as int == (if ex + ew < w { ex + ew } else { w as int }),
                yend as int == (if ey + eh < h { ey + eh } else { h as int }),
                bottom as int == (if ey + eh < h - 1 { ey + eh } else { h - 1 }),
                right as int == (if ex + ew < w - 1 { ex + ew } else { w - 1 }),
                dst == spec_text_border(old(self).data@, w, h, ex, ey, ew, eh),
                c == (Color { r: 200, g: 200, b: 200, a: 255 }),
                self.data@.len() == old(self).data@.len(),
                forall|k: int|
                    0 <= k < self.data@.len() ==> self.data@[k] == (if (((spec_row(k, w) == ey && ey
                        < h) || spec_row(k, w) == bottom as int) && ex <= spec_col(k, w)
                        && spec_col(k, w) < xend as int) || (((spec_col(k, w) == ex && ex < w) || (
                    spec_col(k, w) == right as int)) && ey <= spec_row(k, w) && spec_row(k, w)
                        < py) {
                        dst[k]
                    } else {
                        old(self).data@[k]
                    }),
            decreases yend - py,
        {
            if x0 < self.width {
                self.put_pixel(x0, py, c);
            }
            self.put_pixel(right, py, c);
            proof {
                assert forall|k: int| 0 <= k < self.data@.len() implies self.data@[k] == (if (((
                spec_row(k, w) == ey && ey < h) || spec_row(k, w) == bottom as int) && ex
                    <= spec_col(k, w) && spec_col(k, w) < xend as int) || (((spec_col(k, w) == ex
                    && ex < w) || (spec_col(k, w) == right as int)) && ey <= spec_row(k, w)
                    && spec_row(k, w) < py + 1) {
                    dst[k]
                } else {
                    old(self).data@[k]
                }) by {
                    lemma_flat_decomp(w, h, k);
                    let base_r = 4 * ((py as int) * w + (right as int));
                    if base_r <= k < base_r + 4 {
                        lemma_flat_coords(w, h, right as int, py as int, k - base_r);
                    }
                    if ex < w {
                        let base_l = 4 * ((py as int) * w + ex);
                        if base_l <= k < base_l + 4 {
                            lemma_flat_coords(w, h, ex, py as int, k - base_l);
                        }
                        if spec_row(k, w) == py as int && spec_col(k, w) == ex {
                            lemma_flat_coords(w, h, ex, py as int, k % 4);
                        }
                    }
                    if spec_row(k, w) == py as int && spec_col(k, w) == right as int {
                        lemma_flat_coords(w, h, right as int, py as int, k % 4);
                    }
                }
            }
            py = py + 1;
        }
        proof {
            assert forall|k: int| 0 <= k < self.data@.len() implies self.data@[k] == dst[k] by {
                lemma_flat_decomp(w, h, k);
            }
            assert(self.data@ =~= dst);
        }
    }
}

/// What decoding a media asset and resampling it to an exact pixel size
/// yields: four bytes per target pixel.  The result depends on the bytes
/// and the target size alone.
pub uninterp spec fn resized_rgba(bytes: Seq<u8>, w: u32, h: u32) -> Seq<u8>;

/// Whether a media asset's bytes decode as an image.  The bytes are in
/// memory and decoding is format-driven, so this is a function of the
/// bytes alone.
pub uninterp spec fn decodable_image(bytes: Seq<u8>) -> bool;

/// Relies on image::load_from_memory, DynamicImage::resize_exact and
/// DynamicImage::to_rgba8: decoding guesses the format from the bytes and
/// fails exactly on undecodable input; resampling a decoded image to an
/// exact nonzero size (a high-quality filter, aspect ratio not preserved)
/// and conversion cannot fail and yield four bytes per target pixel, a
/// function of the bytes and target size alone.
#[verifier::external_body]
fn decode_resized(bytes: &Vec<u8>, w: u32, h: u32) -> (r: Result<Vec<u8>, String>)
    requires
        1 <= w,
        1 <= h,
        4 * (w as nat) * (h as nat) <= usize::MAX,
    ensures
        (r is Ok) <==> decodable_image(bytes@),
        r matches Ok(v) ==> v@ == resized_rgba(bytes@, w, h) && v@.len() == 4 * (w as nat) * (
        h as nat),
{
    match image::load_from_memory(bytes.as_slice()) {
        Ok(img) => {
            let resized = img.resize_exact(w, h, image::imageops::FilterType::Lanczos3);
            Ok(resized.to_rgba8().into_raw())
        },
        Err(e) => Err(e.to_string()),
    }
}

/// The asset a media region resolves to: the last asset with the region's
/// relationship id, as a map from id to asset keeps the last insertion.
pub open spec fn spec_find_asset(assets: Seq<SpecImage>, id: Seq<char>) -> Option<SpecImage>
    decreases assets.len(),
{
    if assets.len() == 0 {
        None
    } else if assets.last().id == id {
        Some(assets.last())
    } else {
        spec_find_asset(assets.drop_last(), id)
    }
}

fn find_asset(assets: &Vec<ImageData>, id: &str) -> (r: Option<usize>)
    ensures
        match spec_find_asset(images_view(assets@), id@) {
            Some(a) => r matches Some(j) && j < assets@.len() && assets@[j as int]@ == a,
            None => r is None,
        },
{
    let n = assets.len();
    proof {
        assert(images_view(assets@).take(n as int) =~= images_view(assets@));
    }
    let mut i = n;
    while i > 0
        invariant
            i <= n,
            n == assets@.len(),
            spec_find_asset(images_view(assets@), id@) == spec_find_asset(
                images_view(assets@).take(i as int),
                id@,
            ),
        decreases i,
    {
        proof {
            assert(images_view(assets@).take(i as int).drop_last() =~= images_view(assets@).take(
                i as int - 1,
            ));
            assert(images_view(assets@).take(i as int).last() == assets@[i as int - 1]@);
        }
        if text::str_eq(assets[i - 1].id.as_str(), id) {
            return Some(i - 1);
        }
        i = i - 1;
    }
    proof {
        assert(images_view(assets@).take(0) =~= Seq::<SpecImage>::empty());
    }
    None
}

/// Whether every media region that resolves to an asset and has a
/// nonzero, addressable size carries decodable bytes — the condition
/// under which the media layer paints without failure.
pub open spec fn spec_media_decodable(els: Seq<SpecImageEl>, assets: Seq<SpecImage>) -> bool {
    forall|j: int|
        0 <= j < els.len() ==> match spec_find_asset(assets, (#[trigger] els[j]).image_id) {
            Some(a) => {
                let rw = spec_sat32(els[j].width);
                let rh = spec_sat32(els[j].height);
                (1 <= rw && 1 <= rh && 4 * rw * rh <= usize::MAX) ==> decodable_image(a.data)
            },
            None => true,
        }
}

/// The canvas after painting a sequence of media regions in order: each
/// region that resolves to an asset is decoded, resampled to the region's
/// size and composited; an unresolved region, an empty region, and a
/// region too large for the address space are left unpainted.
pub open spec fn spec_paint_images(
    data: Seq<u8>,
    w: nat,
    h: nat,
    els: Seq<SpecImageEl>,
    assets: Seq<SpecImage>,
) -> Seq<u8>
    decreases els.len(),
{
    if els.len() == 0 {
        data
    } else {
        let d = spec_paint_images(data, w, h, els.drop_last(), assets);
        let el = els.last();
        match spec_find_asset(assets, el.image_id) {
            None => d,
            Some(a) => {
                let rw = spec_sat32(el.width);
                let rh = spec_sat32(el.height);
                if 1 <= rw && 1 <= rh && 4 * rw * rh <= usize::MAX {
                    spec_composite(
                        d,
                        w,
                        h,
                        spec_sat32(el.x),
                        spec_sat32(el.y),
                        rw,
                        rh,
                        resized_rgba(a.data, rw as u32, rh as u32),
                    )
                } else {
                    d
                }
            },
        }
    }
}

/// The canvas after painting a sequence of text placeholders in order.
pub open spec fn spec_paint_texts(data: Seq<u8>, w: nat, h: nat, texts: Seq<SpecText>) -> Seq<u8>
    decreases texts.len(),
{
    if texts.len() == 0 {
        data
    } else {
        let d = spec_paint_texts(data, w, h, texts.drop_last());
        let el = texts.last();
        spec_text_border(
            d,
            w,
            h,
            spec_sat32(el.x),
            spec_sat32(el.y),
            spec_sat32(el.width),
            spec_sat32(el.height),
        )
    }
}

/// The fully rendered slide: an opaque white canvas of the target size,
/// its media regions composited over it in document order, and its text
/// placeholders drawn last — or nothing when the markup is malformed.
pub open spec fn spec_render_slide(
    content: Seq<char>,
    assets: Seq<SpecImage>,
    w: u32,
    h: u32,
) -> Option<Seq<u8>> {
    match spec_scene_of(content) {
        None => None,
        Some(scene) => Some(
            spec_paint_texts(
                spec_paint_images(
                    spec_white_canvas(w as nat, h as nat),
                    w as nat,
                    h as nat,
                    scene.1,
                    assets,
                ),
                w as nat,
                h as nat,
                scene.0,
            ),
        ),
    }
}

/// The rasterizer for one canvas size, in whole pixels.
pub struct SlideRenderer {
    pub width: u32,
    pub height: u32,
}

impl SlideRenderer {
    /// A renderer for the given canvas size, in whole pixels.
    pub fn new(width: u32, height: u32) -> (r: Self)
        ensures
            r.width == width,
            r.height == height,
    {
        SlideRenderer { width, height }
    }

    /// Convert a length in fixed-point units to hundredths of a pixel.
    pub fn emu_to_pixels(&self, emu: u64) -> (r: u64)
        ensures
            r == units::spec_emu_to_centipx(emu as nat),
    {
        units::emu_to_centipx(emu)
    }

    /// Render one slide onto a white canvas of this renderer's size.  It
    /// succeeds exactly when the markup is well-formed and every resolved,
    /// nonzero-sized media asset decodes; an asset that fails to decode
    /// fails the whole slide.
    pub fn render_slide(&self, slide: &SlideData) -> (r: Result<Canvas, ConvError>)
        requires
            4 * (self.width as nat) * (self.height as nat) <= usize::MAX,
        ensures
            r matches Ok(c) ==> c.width == self.width && c.height == self.height && c.wf() && Some(
                c.data@,
            ) == spec_render_slide(
                slide.xml_content@,
                images_view(slide.images@),
                self.width,
                self.height,
            ),
            (spec_scene_of(slide.xml_content@) is None) <==> (r matches Err(e)
                && e is XmlParseError),
            r matches Err(e) ==> e is XmlParseError || e is ImageDecodeError,
            r matches Err(e) ==> (e matches ConvError::ImageDecodeError(m)
                ==> crate::text::spec_starts_with(m@, "Failed to load image: "@)),
            (r is Ok) <==> (spec_scene_of(slide.xml_content@) matches Some(scene)
                && spec_media_decodable(scene.1, images_view(slide.images@))),
    {
        let parsed = match parse_slide_elements(slide.xml_content.as_str()) {
            Ok(p) => p,
            Err(e) => {
                return Err(e);
            },
        };
        let (texts, images, shapes) = parsed;
        let ghost w = self.width as nat;
        let ghost h = self.height as nat;
        let ghost els_v = image_els_view(images@);
        let ghost texts_v = texts_view(texts@);
        let ghost assets_v = images_view(slide.images@);
        let mut canvas = Canvas::new_white(self.width, self.height);
        // the background layer: solid shapes, painted first; the markup
        // parser emits none, so this layer never changes the white canvas
        let mut s_i: usize = 0;
        while s_i < shapes.len()
            invariant
                shapes@.len() == 0,
                canvas.wf(),
                canvas.width == self.width,
                canvas.height == self.height,
                w == self.width as nat,
                h == self.height as nat,
                canvas.data@ == spec_white_canvas(w, h),
            decreases shapes@.len() - s_i,
        {
            let sh = &shapes[s_i];
            canvas.fill_rect(sh.x, sh.y, sh.width, sh.height, sh.fill_color);
            s_i = s_i + 1;
        }
        let mut i: usize = 0;
        proof {
            assert(els_v.take(0) =~= Seq::<SpecImageEl>::empty());
        }
        while i < images.len()
            invariant
                i <= images@.len(),
                canvas.wf(),
                canvas.width == self.width,
                canvas.height == self.height,
                w == self.width as nat,
                h == self.height as nat,
                els_v == image_els_view(images@),
                assets_v == images_view(slide.images@),
                spec_scene_of(slide.xml_content@) matches Some(scene) && scene.1 == els_v,
                forall|j: int|
                    0 <= j < i ==> match spec_find_asset(assets_v, (#[trigger] els_v[j]).image_id) {
                        Some(a) => {
                            let rw = spec_sat32(els_v[j].width);
                            let rh = spec_sat32(els_v[j].height);
                            (1 <= rw && 1 <= rh && 4 * rw * rh <= usize::MAX) ==> decodable_image(
                                a.data,
                            )
                        },
                        None => true,
                    },
                canvas.data@ == spec_paint_images(
                    spec_white_canvas(w, h),
                    w,
                    h,
                    els_v.take(i as int),
                    assets_v,
                ),
            decreases images@.len() - i,
        {
            proof {
                assert(els_v.take(i as int + 1).drop_last() =~= els_v.take(i as int));
                assert(els_v.take(i as int + 1).last() == images@[i as int]@);
            }
            match find_asset(&slide.images, images[i].image_id.as_str()) {
                None => {},
                Some(j) => {
                    let rw = sat32(images[i].width);
                    let rh = sat32(images[i].height);
                    if rw >= 1 && rh >= 1 {
                        proof {
                            assert(4 * (rw as nat) * (rh as nat) == (4 as u128) * (rw as u128) * (
                            rh as u128) && (4 as int) * (rw as int) * (rh as int) < u128::MAX)
                                by (nonlinear_arith)
                                requires
                                    rw <= u32::MAX,
                                    rh <= u32::MAX,
                            ;
                        }
                        let need: u128 = 4 * (rw as u128) * (rh as u128);
                        if need <= usize::MAX as u128 {
                            let buf = match decode_resized(&slide.images[j].data, rw, rh) {
                                Ok(b) => b,
                                Err(detail) => {
                                    proof {
                                        assert(!spec_media_decodable(els_v, assets_v));
                                    }
                                    let mut m = String::from_str("Failed to load image: ");
                                    m.append(detail.as_str());
                                    proof {
                                        crate::text::lemma_concat_starts_with(
                                            "Failed to load image: "@,
                                            detail@,
                                        );
                                    }
                                    return Err(ConvError::ImageDecodeError(m));
                                },
                            };
                            let x0 = sat32(images[i].x);
                            let y0 = sat32(images[i].y);
                            canvas.composite(x0, y0, rw, rh, &buf);
                        }
                    }
                },
            }
            i = i + 1;
        }
        proof {
            assert(els_v.take(images@.len() as int) =~= els_v);
            assert(spec_media_decodable(els_v, assets_v));
        }
        let ghost after_images = canvas.data@;
        let mut t: usize = 0;
        proof {
            assert(texts_v.take(0) =~= Seq::<SpecText>::empty());
        }
        while t < texts.len()
            invariant
                t <= texts@.len(),
                canvas.wf(),
                canvas.width == self.width,
                canvas.height == self.height,
                w == self.width as nat,
                h == self.height as nat,
                texts_v == texts_view(texts@),
                after_images == spec_paint_images(spec_white_canvas(w, h), w, h, els_v, assets_v),
                els_v == image_els_view(images@),
                assets_v == images_view(slide.images@),
                canvas.data@ == spec_paint_texts(after_images, w, h, texts_v.take(t as int)),
            decreases texts@.len() - t,
        {
            proof {
                assert(texts_v.take(t as int + 1).drop_last() =~= texts_v.take(t as int));
                assert(texts_v.take(t as int + 1).last() == texts@[t as int]@);
            }
            canvas.text_border(texts[t].x, texts[t].y, texts[t].width, texts[t].height);
            t = t + 1;
        }
        proof {
            assert(texts_v.take(texts@.len() as int) =~= texts_v);
        }
        Ok(canvas)
    }
}

} // verus!
