//! The orchestrator: sequences extraction, per-slide rendering and page
//! assembly for a whole package, reports progress through an injected
//! sink, and retries the whole pipeline on failure.
//!
//! One conversion of a package with `n` slides reports `n + 2` steps:
//! one for extraction, one per rendered slide, and one on completion,
//! each with a percentage in hundredths of a percent.  The step numbers
//! are strictly increasing and the final step reports exactly one hundred
//! percent.

use vstd::prelude::*;
use vstd::string::*;
use crate::errors::{ConvError, spec_message};
use crate::extractor::{PptxExtractor, SpecImage, lemma_extractable_congruent, spec_image_refs, spec_loaded_images, spec_model_preserved, spec_part_text, spec_rel_mappings, spec_rels_part_name, spec_slide_count, spec_slide_ok, spec_slide_part_name, images_view};
use crate::pdf::{CanvasView, PdfGenerator, ascii_bytes, lemma_pdf_magic, pages_view, spec_pdf_bytes, spec_pdf_fits};
use crate::renderer::{SlideRenderer, spec_media_decodable, spec_render_slide, spec_scene_of};
use crate::text::{lemma_concat_starts_with, spec_dec_chars, spec_starts_with, u64_to_string, usize_to_string};
use crate::units;
use crate::xml::spec_scan;

verus! {

/// One progress notification.  The percentage is carried in hundredths
/// of a percent, so that one hundred percent is exactly ten thousand.
pub struct ConversionProgress {
    pub stage: String,
    pub current: usize,
    pub total: usize,
    pub percentage: u32,
}

/// The specification-level image of a progress notification.
pub ghost struct SpecProgress {
    pub stage: Seq<char>,
    pub current: int,
    pub total: int,
    pub percentage: int,
}

impl View for ConversionProgress {
    type V = SpecProgress;

    open spec fn view(&self) -> SpecProgress {
        SpecProgress {
            stage: self.stage@,
            current: self.current as int,
            total: self.total as int,
            percentage: self.percentage as int,
        }
    }
}

/// The stage label of step `k` out of `n + 2`: extraction first, one
/// label per rendered slide, and completion last.
pub open spec fn spec_progress_stage(k: int, n: int) -> Seq<char> {
    if k <= 1 {
        "Extracting slides"@
    } else if k <= n + 1 {
        "Rendering slide "@ + spec_dec_chars((k - 1) as nat) + "/"@ + spec_dec_chars(n as nat)
    } else {
        "Complete"@
    }
}

/// The planned notification for step `k` of a conversion with `n` slides:
/// step `k` of `n + 2`, at `k / (n + 2)` of the way, in hundredths of a
/// percent.
pub open spec fn spec_progress_event(k: int, n: int) -> SpecProgress {
    SpecProgress {
        stage: spec_progress_stage(k, n),
        current: k,
        total: n + 2,
        percentage: k * 10000 / (n + 2),
    }
}

/// Build the notification for step `k` of a conversion with `n` slides.
pub fn progress_event(k: usize, n: usize) -> (r: ConversionProgress)
    requires
        n <= usize::MAX - 2,
        1 <= k <= n + 2,
    ensures
        r@ == spec_progress_event(k as int, n as int),
{
    let stage = if k <= 1 {
        String::from_str("Extracting slides")
    } else if k <= n + 1 {
        let mut s = String::from_str("Rendering slide ");
        let num = usize_to_string(k - 1);
        s.append(num.as_str());
        s.append("/");
        let den = usize_to_string(n);
        s.append(den.as_str());
        proof {
            reveal_strlit("/");
        }
        s
    } else {
        String::from_str("Complete")
    };
    proof {
        assert((k as int) * 10000 / (n as int + 2) <= 10000 && (k as int) * 10000 == (k as u128)
            * 10000 && (k as u128) * 10000 < u128::MAX) by (nonlinear_arith)
            requires
                1 <= k as int <= n as int + 2,
        ;
    }
    let percentage: u32 = ((k as u128) * 10000 / (n as u128 + 2)) as u32;
    ConversionProgress { stage, current: k, total: n + 2, percentage }
}

/// Progress notifications within one conversion are strictly increasing
/// in their step number and non-decreasing in their percentage.
pub proof fn lemma_progress_monotone(n: int, j: int, k: int)
    requires
        0 <= n,
        1 <= j < k <= n + 2,
    ensures
        spec_progress_event(j, n).current < spec_progress_event(k, n).current,
        spec_progress_event(j, n).percentage <= spec_progress_event(k, n).percentage,
        spec_progress_event(j, n).total == spec_progress_event(k, n).total,
{
    assert(j * 10000 / (n + 2) <= k * 10000 / (n + 2)) by (nonlinear_arith)
        requires
            0 <= n,
            1 <= j < k <= n + 2,
    ;
}

/// The last notification of a successful conversion reports the final
/// step and exactly one hundred percent.
pub proof fn lemma_progress_terminal(n: int)
    requires
        0 <= n,
    ensures
        spec_progress_event(n + 2, n).current == spec_progress_event(n + 2, n).total,
        spec_progress_event(n + 2, n).percentage == 10000,
{
    assert((n + 2) * 10000 / (n + 2) == 10000) by (nonlinear_arith)
        requires
            0 <= n,
    ;
}

/// Where the orchestrator's notifications go.  Delivery is fire and
/// forget: a sink cannot fail the conversion.
pub trait ProgressSink {
    fn notify(&mut self, p: &ConversionProgress);
}

/// A whole conversion attempt, for the retrying orchestrator: the host
/// runs the pipeline and waits between attempts.
pub trait ConversionJob {
    fn run(&mut self) -> Result<Vec<u8>, String>;

    fn wait_before_retry(&mut self);
}

/// The message of a conversion that exhausted all its attempts: the
/// attempt count and the last underlying error.
pub open spec fn spec_retry_failure_message(attempts: nat, last: Seq<char>) -> Seq<char> {
    "Conversion failed after "@ + spec_dec_chars(attempts) + " attempts: "@ + last
}

/// Build the exhausted-attempts message.
pub fn retry_failure_message(attempts: u64, last: &str) -> (r: String)
    ensures
        r@ == spec_retry_failure_message(attempts as nat, last@),
{
    let mut s = String::from_str("Conversion failed after ");
    let num = u64_to_string(attempts);
    s.append(num.as_str());
    s.append(" attempts: ");
    s.append(last);
    s
}

/// The index of the first successful outcome among the first `k`, if any.
pub open spec fn spec_first_ok(outcomes: Seq<Result<Vec<u8>, String>>, k: int) -> Option<int>
    decreases k,
{
    if k <= 0 || k > outcomes.len() {
        None
    } else {
        match spec_first_ok(outcomes, k - 1) {
            Some(j) => Some(j),
            None => if outcomes[k - 1] is Ok {
                Some(k - 1)
            } else {
                None
            },
        }
    }
}

/// Run the retry policy over a fixed sequence of attempt outcomes, one
/// per allowed attempt: stop at the first success, otherwise exhaust all
/// `max_retries + 1` attempts and report the attempt count with the last
/// underlying error.  Returns the result and the number of attempts made.
pub fn retry_outcomes(outcomes: Vec<Result<Vec<u8>, String>>, max_retries: u32) -> (r: (
    Result<Vec<u8>, String>,
    u64,
))
    requires
        outcomes@.len() == max_retries as int + 1,
    ensures
        match spec_first_ok(outcomes@, max_retries as int + 1) {
            Some(j) => r.1 == j + 1 && r.0 == outcomes@[j],
            None => r.1 == max_retries as int + 1 && (r.0 matches Err(m) && m@
                == spec_retry_failure_message(
                (max_retries + 1) as nat,
                outcomes@[max_retries as int]->Err_0@,
            )),
        },
{
    let total: u64 = max_retries as u64 + 1;
    let mut attempt: u64 = 0;
    let mut it = outcomes;
    let ghost outs = it@;
    let mut last_error = String::new();
    while attempt < total
        invariant
            0 <= attempt <= total,
            total == max_retries as u64 + 1,
            outs == outcomes@,
            outs.len() == total,
            it@ == outs.skip(attempt as int),
            spec_first_ok(outs, attempt as int) is None,
            attempt > 0 ==> last_error@ == outs[attempt as int - 1]->Err_0@,
        decreases total - attempt,
    {
        proof {
            assert(outs.skip(attempt as int)[0] == outs[attempt as int]);
            assert(outs.skip(attempt as int).subrange(1, outs.skip(attempt as int).len() as int)
                =~= outs.skip(attempt as int + 1));
        }
        let outcome = it.remove(0);
        match outcome {
            Ok(bytes) => {
                proof {
                    assert(spec_first_ok(outs, attempt as int + 1) == Some(attempt as int));
                    lemma_first_ok_stable(outs, attempt as int + 1, max_retries as int + 1);
                }
                return (Ok(bytes), attempt + 1);
            },
            Err(e) => {
                last_error = e;
            },
        }
        attempt = attempt + 1;
    }
    let msg = retry_failure_message(total, last_error.as_str());
    (Err(msg), total)
}

proof fn lemma_first_ok_stable(outcomes: Seq<Result<Vec<u8>, String>>, k: int, m: int)
    requires
        0 < k <= m <= outcomes.len(),
        spec_first_ok(outcomes, k) is Some,
    ensures
        spec_first_ok(outcomes, m) == spec_first_ok(outcomes, k),
    decreases m - k,
{
    if k < m {
        lemma_first_ok_stable(outcomes, k + 1, m);
    }
}

/// The media assets slide `j` of the package resolves to: the
/// relationship part's image mappings for the markup's references,
/// loaded from the package; none when that part is absent.
pub open spec fn spec_slide_assets(x: PptxExtractor, j: int) -> Seq<SpecImage> {
    let content = spec_part_text(x.data(), spec_slide_part_name(j))->Some_0;
    match spec_part_text(x.data(), spec_rels_part_name(j)) {
        None => Seq::empty(),
        Some(rc) => spec_loaded_images(
            x.data(),
            spec_rel_mappings(spec_scan(rc)->Some_0, spec_image_refs(spec_scan(content)->Some_0)),
        ),
    }
}

/// The package's canvas width in whole pixels, saturated to the canvas
/// coordinate range.
pub open spec fn spec_canvas_px_w(x: PptxExtractor) -> u32 {
    let c = x.spec_canvas_centipx().0;
    if c / 100 > u32::MAX as nat {
        u32::MAX
    } else {
        (c / 100) as u32
    }
}

/// The package's canvas height in whole pixels, saturated to the canvas
/// coordinate range.
pub open spec fn spec_canvas_px_h(x: PptxExtractor) -> u32 {
    let c = x.spec_canvas_centipx().1;
    if c / 100 > u32::MAX as nat {
        u32::MAX
    } else {
        (c / 100) as u32
    }
}

/// The rendered page of slide `j`, at the package's canvas size.
pub open spec fn spec_slide_page(x: PptxExtractor, j: int) -> Seq<u8> {
    spec_render_slide(
        spec_part_text(x.data(), spec_slide_part_name(j))->Some_0,
        spec_slide_assets(x, j),
        spec_canvas_px_w(x),
        spec_canvas_px_h(x),
    )->Some_0
}

/// The document title: the package's, or the fixed fallback.
pub open spec fn spec_doc_title(x: PptxExtractor) -> Seq<char> {
    match x.spec_package_title() {
        Some(t) => t,
        None => "Presentation"@,
    }
}

/// The pages of the converted package, in slide order.
pub open spec fn spec_converted_pages(x: PptxExtractor) -> Seq<CanvasView> {
    Seq::new(
        spec_slide_count(x.names()),
        |j: int|
            CanvasView {
                width: spec_canvas_px_w(x),
                height: spec_canvas_px_h(x),
                data: spec_slide_page(x, j),
            },
    )
}

/// The whole document of a successful conversion of the package.
pub open spec fn spec_converted_document(x: PptxExtractor) -> Seq<u8> {
    spec_pdf_bytes(
        spec_converted_pages(x),
        spec_doc_title(x),
        units::spec_px_to_centipt(spec_canvas_px_w(x) as nat),
        units::spec_px_to_centipt(spec_canvas_px_h(x) as nat),
    )
}

/// Everything a conversion needs from the package and the machine: at
/// least one slide part and not absurdly many, a canvas that fits the
/// address space, every slide extractable, every resolved media asset
/// decodable, and a document body small enough for its offsets.
pub open spec fn spec_package_convertible(x: PptxExtractor) -> bool {
    let n = spec_slide_count(x.names());
    &&& 1 <= n <= 1000000000
    &&& 4 * (spec_canvas_px_w(x) as nat) * (spec_canvas_px_h(x) as nat) <= usize::MAX
    &&& (forall|j: int| 0 <= j < n ==> x.spec_slide_extractable(j))
    &&& (forall|j: int|
        0 <= j < n ==> spec_media_decodable(
            spec_scene_of(spec_part_text(x.data(), spec_slide_part_name(j))->Some_0)->Some_0.1,
            #[trigger] spec_slide_assets(x, j),
        ))
    &&& spec_pdf_fits(
        spec_converted_pages(x),
        spec_doc_title(x),
        units::spec_px_to_centipt(spec_canvas_px_w(x) as nat),
        units::spec_px_to_centipt(spec_canvas_px_h(x) as nat),
    )
}

/// Convert one opened package end to end: extract everything, render
/// each slide in order, assemble the document, and report each step.  On
/// success the result is exactly the document whose pages are the
/// package's slides rendered in order at the declared canvas size, under
/// the package's title; every error carries its stage's context; and a
/// fully convertible package always succeeds.
pub fn convert_package<S: ProgressSink>(extractor: &mut PptxExtractor, sink: &mut S) -> (r: Result<
    Vec<u8>,
    String,
>)
    ensures
        spec_model_preserved(*final(extractor), *old(extractor)),
        spec_slide_count(old(extractor).names()) == 0 ==> (r matches Err(m) && m@
            == "Failed to read PPTX metadata: "@ + spec_message(ConvError::NoSlidesFound)),
        r matches Ok(b) ==> {
            &&& spec_slide_count(old(extractor).names()) >= 1
            &&& b@.len() >= 4
            &&& b@.subrange(0, 4) == ascii_bytes("%PDF"@)
            &&& b@ == spec_converted_document(*old(extractor))
        },
        r matches Err(m) ==> {
            ||| spec_starts_with(m@, "Failed to read PPTX metadata: "@)
            ||| spec_starts_with(m@, "Failed to extract slides: "@)
            ||| spec_starts_with(m@, "Failed to render slide "@)
            ||| m@ == "Failed to render slides: canvas too large"@
            ||| spec_starts_with(m@, "Failed to generate PDF: "@)
        },
        spec_package_convertible(*old(extractor)) ==> r is Ok,
{
    let ghost x = *old(extractor);
    let start = ConversionProgress {
        stage: String::from_str("Extracting PPTX"),
        current: 0,
        total: 100,
        percentage: 0,
    };
    sink.notify(&start);
    let metadata = match extractor.extract_metadata() {
        Ok(m) => m,
        Err(e) => {
            let mut s = String::from_str("Failed to read PPTX metadata: ");
            let m = e.message();
            s.append(m.as_str());
            proof {
                lemma_concat_starts_with("Failed to read PPTX metadata: "@, spec_message(e));
            }
            return Err(s);
        },
    };
    let n = metadata.slide_count;
    if n > usize::MAX - 2 {
        let mut s = String::from_str("Failed to extract slides: ");
        s.append("too many slides");
        proof {
            lemma_concat_starts_with("Failed to extract slides: "@, "too many slides"@);
            assert(usize::MAX - 2 >= 1000000000) by (nonlinear_arith)
                requires
                    usize::MAX >= 0xFFFFFFFFusize,
            ;
        }
        return Err(s);
    }
    let title = match metadata.title {
        Some(t) => t,
        None => String::from_str("Presentation"),
    };
    proof {
        assert(title@ == spec_doc_title(x));
    }
    let ghost pre_all = *extractor;
    let slides = match extractor.extract_all_slides() {
        Ok(s) => s,
        Err(e) => {
            proof {
                if spec_package_convertible(x) {
                    assert forall|j: int|
                        0 <= j < spec_slide_count(pre_all.names()) implies pre_all.spec_slide_extractable(
                        j,
                    ) by {
                        lemma_extractable_congruent(pre_all, x, j);
                    }
                    assert(false);
                }
            }
            let mut s = String::from_str("Failed to extract slides: ");
            let m = e.message();
            s.append(m.as_str());
            proof {
                lemma_concat_starts_with("Failed to extract slides: "@, spec_message(e));
            }
            return Err(s);
        },
    };
    let ev = progress_event(1, n);
    sink.notify(&ev);
    let wpx64 = metadata.slide_width / 100;
    let hpx64 = metadata.slide_height / 100;
    let wpx: u32 = if wpx64 > u32::MAX as u64 {
        u32::MAX
    } else {
        wpx64 as u32
    };
    let hpx: u32 = if hpx64 > u32::MAX as u64 {
        u32::MAX
    } else {
        hpx64 as u32
    };
    proof {
        assert(wpx == spec_canvas_px_w(x));
        assert(hpx == spec_canvas_px_h(x));
        assert(4 * (wpx as nat) * (hpx as nat) == (4 as u128) * (wpx as u128) * (hpx as u128)
            && (4 as int) * (wpx as int) * (hpx as int) < u128::MAX) by (nonlinear_arith)
            requires
                wpx <= u32::MAX,
                hpx <= u32::MAX,
        ;
    }
    let canvas_bytes: u128 = 4 * (wpx as u128) * (hpx as u128);
    if canvas_bytes > usize::MAX as u128 {
        return Err(String::from_str("Failed to render slides: canvas too large"));
    }
    let renderer = SlideRenderer::new(wpx, hpx);
    let mut rendered: Vec<crate::renderer::Canvas> = Vec::new();
    let mut i: usize = 0;
    let count = slides.len();
    while i < count
        invariant
            i <= count,
            count == slides@.len(),
            count == spec_slide_count(x.names()),
            count <= usize::MAX - 2,
            n == count,
            x == *old(extractor),
            renderer.width == wpx,
            renderer.height == hpx,
            wpx == spec_canvas_px_w(x),
            hpx == spec_canvas_px_h(x),
            4 * (wpx as nat) * (hpx as nat) <= usize::MAX,
            spec_model_preserved(*extractor, x),
            forall|j: int| 0 <= j < count ==> spec_slide_ok(x.data(), j, #[trigger] slides@[j]),
            rendered@.len() == i,
            forall|j: int|
                0 <= j < i ==> (#[trigger] rendered@[j])@ == (CanvasView {
                    width: wpx,
                    height: hpx,
                    data: spec_slide_page(x, j),
                }),
        decreases count - i,
    {
        proof {
            assert(spec_slide_ok(x.data(), i as int, slides@[i as int]));
        }
        let canvas = match renderer.render_slide(&slides[i]) {
            Ok(c) => c,
            Err(e) => {
                proof {
                    if spec_package_convertible(x) {
                        assert(x.spec_slide_extractable(i as int));
                        assert(spec_media_decodable(
                            spec_scene_of(
                                spec_part_text(x.data(), spec_slide_part_name(i as int))->Some_0,
                            )->Some_0.1,
                            spec_slide_assets(x, i as int),
                        ));
                        assert(images_view(slides@[i as int].images@) =~= spec_slide_assets(
                            x,
                            i as int,
                        ));
                        assert(false);
                    }
                }
                let mut s = String::from_str("Failed to render slide ");
                let num = usize_to_string(i + 1);
                s.append(num.as_str());
                s.append(": ");
                let m = e.message();
                s.append(m.as_str());
                proof {
                    lemma_concat_starts_with(
                        "Failed to render slide "@,
                        spec_dec_chars((i + 1) as nat) + ": "@ + spec_message(e),
                    );
                    assert(s@ == "Failed to render slide "@ + (spec_dec_chars((i + 1) as nat)
                        + ": "@ + spec_message(e)));
                }
                return Err(s);
            },
        };
        proof {
            assert(images_view(slides@[i as int].images@) =~= spec_slide_assets(x, i as int));
            assert(canvas@ == (CanvasView {
                width: wpx,
                height: hpx,
                data: spec_slide_page(x, i as int),
            }));
        }
        rendered.push(canvas);
        i = i + 1;
        let ev = progress_event(1 + i, n);
        sink.notify(&ev);
    }
    let generator = PdfGenerator::new(wpx, hpx);
    let ghost pages = pages_view(rendered@);
    proof {
        assert(pages =~= spec_converted_pages(x));
    }
    let result = match generator.generate_pdf(rendered, title.as_str()) {
        Ok(b) => b,
        Err(e) => {
            proof {
                if spec_package_convertible(x) {
                    assert(false);
                }
            }
            let mut s = String::from_str("Failed to generate PDF: ");
            let m = e.message();
            s.append(m.as_str());
            proof {
                lemma_concat_starts_with("Failed to generate PDF: "@, spec_message(e));
            }
            return Err(s);
        },
    };
    let ev = progress_event(n + 2, n);
    sink.notify(&ev);
    proof {
        lemma_pdf_magic(
            pages,
            title@,
            units::spec_px_to_centipt(wpx as nat),
            units::spec_px_to_centipt(hpx as nat),
        );
    }
    Ok(result)
}

/// Convert with whole-pipeline retry: run the job, and on failure restart
/// it from the beginning, waiting between attempts, up to `max_retries`
/// extra times.  A retry marker is reported before each attempt beyond
/// the first; only the final exhausted-attempts error is returned.
pub fn convert_with_retry<J: ConversionJob, S: ProgressSink>(
    job: &mut J,
    max_retries: u32,
    sink: &mut S,
) -> (r: Result<Vec<u8>, String>)
    ensures
        r matches Err(m) ==> exists|last: Seq<char>|
            m@ == #[trigger] spec_retry_failure_message((max_retries + 1) as nat, last),
{
    let mut attempt: u64 = 0;
    let mut last_error = String::new();
    while attempt <= max_retries as u64
        invariant
            0 <= attempt <= max_retries as int + 1,
        decreases max_retries as int + 1 - attempt,
    {
        if attempt > 0 {
            let mut stage = String::from_str("Retry attempt ");
            let num = u64_to_string(attempt);
            stage.append(num.as_str());
            stage.append("/");
            let den = u64_to_string(max_retries as u64);
            stage.append(den.as_str());
            let marker = ConversionProgress { stage, current: 0, total: 100, percentage: 0 };
            sink.notify(&marker);
        }
        match job.run() {
            Ok(bytes) => {
                return Ok(bytes);
            },
            Err(e) => {
                last_error = e;
                if attempt < max_retries as u64 {
                    job.wait_before_retry();
                }
            },
        }
        attempt = attempt + 1;
    }
    let msg = retry_failure_message(max_retries as u64 + 1, last_error.as_str());
    proof {
        assert(msg@ == spec_retry_failure_message((max_retries + 1) as nat, last_error@));
    }
    Err(msg)
}

} // verus!
