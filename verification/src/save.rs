//! The save pipeline. A save crops the captured image to the selection (the
//! green rectangle when one is committed, else the red one), encodes the crop
//! as lossless WebP through the webp crate, and names the file after the
//! screen size, the moment of the save and the red rectangle. Writing the
//! bytes to disk is the caller's part.

use vstd::prelude::*;
use crate::bitmap::{crop_seq, Image};
use crate::geom::Rect;
use crate::naming::{dir_name, format_save_name, save_name};

verus! {

/// The lossless WebP encoding of an RGBA8 buffer of the given dimensions.
/// What the bytes look like is the encoder's business; the library relies
/// only on the encoding being a function of the pixels and dimensions.
pub uninterp spec fn webp_lossless_of(pixels: Seq<u8>, w: nat, h: nat) -> Seq<u8>;

/// Relies on webp's `Encoder::from_rgba` and `encode_lossless`: the lossless
/// WebP encoding of an RGBA8 buffer, a function of the bytes and dimensions
/// alone. `from_rgba` panics when the buffer is shorter than `4 * w * h`
/// bytes, and encoding fails on empty dimensions and beyond the WebP format's
/// limit of 16383 pixels per side, so those inputs are excluded.
#[verifier::external_body]
fn encode_webp_lossless(pixels: &Vec<u8>, w: u32, h: u32) -> (r: Vec<u8>)
    requires
        pixels@.len() == 4 * w * h,
        1 <= w <= 16383,
        1 <= h <= 16383,
    ensures
        r@ == webp_lossless_of(pixels@, w as nat, h as nat),
{
    let encoder = webp::Encoder::from_rgba(pixels.as_slice(), w, h);
    let memory = encoder.encode_lossless();
    memory.to_vec()
}

/// One rendered save: the directory to create, the path to write, and the
/// encoded bytes to put there.
pub struct SavePayload {
    pub dir: String,
    pub path: String,
    pub bytes: Vec<u8>,
}

/// The rectangle whose pixels a save writes: the green one when present,
/// else the red one.
pub open spec fn spec_save_rect(red: Rect, green: Option<Rect>) -> Rect {
    match green {
        Some(g) => g,
        None => red,
    }
}

/// Render one save: crop the image to the selection, encode the crop as
/// lossless WebP, and build the directory name and file path. The path names
/// the red rectangle even when the green one supplies the pixels.
pub fn render_save(
    img: &Image,
    red: &Rect,
    green: Option<Rect>,
    screen_w: u32,
    screen_h: u32,
    millis: u64,
) -> (r: SavePayload)
    requires
        img.wf(),
        red.w >= 0,
        red.h >= 0,
        red.in_bounds(img.width, img.height),
        spec_save_rect(*red, green).in_bounds(img.width, img.height),
        1 <= spec_save_rect(*red, green).w <= 16383,
        1 <= spec_save_rect(*red, green).h <= 16383,
    ensures
        r.dir@ == dir_name(screen_w, screen_h),
        r.path@ == save_name(screen_w, screen_h, millis, *red),
        r.bytes@ == webp_lossless_of(
            crop_seq(*img, spec_save_rect(*red, green)),
            spec_save_rect(*red, green).w as nat,
            spec_save_rect(*red, green).h as nat,
        ),
{
    let sub: Rect = match green {
        Some(g) => g,
        None => *red,
    };
    let cropped = img.crop(&sub);
    let bytes = encode_webp_lossless(&cropped.pixels, cropped.width, cropped.height);
    let (dir, path) = format_save_name(screen_w, screen_h, millis, red);
    SavePayload { dir, path, bytes }
}

} // verus!
