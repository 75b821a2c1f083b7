//! Length-unit conversions.
//!
//! The document format measures lengths in a fixed-point unit of
//! 1/914400 inch.  At the fixed 96 pixels-per-inch assumption, one pixel
//! is 9525 units; pixel values are carried in hundredths of a pixel
//! (`emu * 4 / 381`), which is exact for whole-inch inputs.

use vstd::prelude::*;

verus! {

/// Default canvas width in fixed-point units when a package declares none.
pub const DEFAULT_WIDTH_EMU: u64 = 9144000;

/// Default canvas height in fixed-point units when a package declares none.
pub const DEFAULT_HEIGHT_EMU: u64 = 5143500;

/// Hundredths of a pixel for a length in fixed-point units.
pub open spec fn spec_emu_to_centipx(emu: nat) -> nat {
    (emu * 4) / 381
}

/// Whole pixels for a length in fixed-point units, rounding down.
pub open spec fn spec_emu_to_px(emu: nat) -> nat {
    emu / 9525
}

/// Convert a length in fixed-point units to hundredths of a pixel.
pub fn emu_to_centipx(emu: u64) -> (r: u64)
    ensures
        r == spec_emu_to_centipx(emu as nat),
{
    proof {
        assert((emu as nat) * 4 == (emu as nat / 381) * 381 * 4 + (emu as nat % 381) * 4)
            by (nonlinear_arith);
        assert(((emu as nat / 381) * 381 * 4 + (emu as nat % 381) * 4) / 381
            == (emu as nat / 381) * 4 + (emu as nat % 381) * 4 / 381) by (nonlinear_arith);
        assert(emu as nat / 381 <= emu as nat) by (nonlinear_arith);
    }
    let q: u64 = emu / 381;
    let rem: u64 = emu % 381;
    q * 4 + (rem * 4) / 381
}

/// Convert a length in fixed-point units to whole pixels, rounding down.
pub fn emu_to_px(emu: u64) -> (r: u64)
    ensures
        r == spec_emu_to_px(emu as nat),
{
    emu / 9525
}

/// Whole pixels and hundredths of a pixel agree: dropping the fraction
/// of the hundredths value gives the whole-pixel value.
pub proof fn lemma_centipx_px_agree(emu: nat)
    ensures
        spec_emu_to_centipx(emu) / 100 == spec_emu_to_px(emu),
{
    assert((emu * 4) / 381 / 100 == (emu * 4) / 38100) by (nonlinear_arith);
    assert((emu * 4) / 38100 == emu / 9525) by (nonlinear_arith);
}

/// Hundredths of a millimetre for a page whose size is given in pixels,
/// at 96 pixels per inch and 25.4 millimetres per inch.
pub open spec fn spec_px_to_centimm(px: nat) -> nat {
    (px * 635) / 24
}

/// Convert a pixel length to hundredths of a millimetre.
pub fn px_to_centimm(px: u32) -> (r: u64)
    ensures
        r == spec_px_to_centimm(px as nat),
{
    ((px as u64) * 635) / 24
}

/// Hundredths of a printer's point (1/72 inch) for a pixel length:
/// one pixel is exactly three quarters of a point.
pub open spec fn spec_px_to_centipt(px: nat) -> nat {
    px * 75
}

/// Convert a pixel length to hundredths of a point.
pub fn px_to_centipt(px: u32) -> (r: u64)
    ensures
        r == spec_px_to_centipt(px as nat),
{
    (px as u64) * 75
}

} // verus!
