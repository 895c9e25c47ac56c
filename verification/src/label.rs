//! The cassette label's raster work: the strip it is drawn on, the rule
//! between song and album, and the quarter turn that stands it up on the
//! deck. The lettering itself is drawn by the caller.
use vstd::prelude::*;
use crate::raster::{Raster, fill_rect, pix, rotate_cw};

verus! {

/// Supersampling factor of the label.
pub const SS: u32 = 2;

/// The rule's colour.
pub fn ink_rule() -> (c: [u8; 4])
    ensures
        c@ == seq![70u8, 68u8, 70u8, 255u8],
{
    let c: [u8; 4] = [70, 68, 70, 255];
    assert(c@ =~= seq![70u8, 68u8, 70u8, 255u8]);
    c
}

/// The horizontal strip a vertical label is drawn on, for a label
/// `label_w` by `label_h` on the deck: as wide as the label is tall and as
/// tall as it is wide, supersampled.
pub fn strip_size(label_w: u32, label_h: u32) -> (wh: (u32, u32))
    requires
        label_w * SS <= u32::MAX,
        label_h * SS <= u32::MAX,
    ensures
        wh == ((label_h * SS) as u32, (label_w * SS) as u32),
{
    (label_h * SS, label_w * SS)
}

/// The rule under the song title: rows 148 to 151 of the strip, between
/// 60-pixel margins.
pub open spec fn on_rule(sw: int, x: int, y: int) -> bool {
    60 <= x < sw - 60 && 148 <= y < 152
}

/// Draws the rule between song and album on a `sw` by `sh` strip (nothing
/// when the margins leave no room).
pub fn draw_rule(strip: &mut Vec<u8>, sw: u32, sh: u32)
    requires
        old(strip)@.len() == sw * sh * 4,
        sw >= 60,
        sw > 120 ==> sh >= 152,
    ensures
        final(strip)@.len() == old(strip)@.len(),
        forall|x: int, y: int, c: int|
            0 <= x < sw && 0 <= y < sh && 0 <= c < 4 ==> #[trigger] pix(final(strip)@, sw as int, x, y, c) == if on_rule(
                sw as int,
                x,
                y,
            ) {
                seq![70u8, 68u8, 70u8, 255u8][c]
            } else {
                pix(old(strip)@, sw as int, x, y, c)
            },
{
    if sw > 120 {
        fill_rect(strip, sw, sh, 60, sw - 60, 148, 152, ink_rule());
    }
}

/// The finished vertical label: the strip turned a quarter clockwise, so the
/// lettering reads top to bottom on the right-hand label of the deck.
pub fn stand_up(strip: Vec<u8>, sw: u32, sh: u32) -> (out: Raster)
    requires
        strip@.len() == sw * sh * 4,
    ensures
        out.ok(),
        out.width == sh && out.height == sw,
        forall|x: int, y: int, c: int|
            0 <= x < sh && 0 <= y < sw && 0 <= c < 4 ==> #[trigger] pix(out.data@, sh as int, x, y, c) == pix(
                strip@,
                sw as int,
                y,
                sh - 1 - x,
                c,
            ),
{
    let data = rotate_cw(&strip, sw, sh);
    assert(sw * sh * 4 == sh * sw * 4) by (nonlinear_arith);
    Raster { width: sh, height: sw, data }
}

} // verus!
