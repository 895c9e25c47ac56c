//! Cassette-case sprites: an album cover baked onto the transparent case's
//! J-card, and the open-case sprite cut into tray, lid and mirrored lid.
//! Decoding and resampling are the `image` crate's.
use vstd::prelude::*;
use crate::raster::{Raster, at, crop, flip_horizontal, is_crop, is_mirror, lemma_at, lemma_at_apart, pix};

verus! {

/// What `image` decodes from encoded bytes (format guessed from the
/// contents), as RGBA: width, height and pixel bytes; none when it cannot.
pub uninterp spec fn decoded_rgba(bytes: Seq<u8>) -> Option<(u32, u32, Seq<u8>)>;

/// Decodes an image with `image::ImageReader` (format guessed from the
/// bytes) and converts it with `to_rgba8`. The contract claims that the
/// result is `decoded_rgba` of the bytes, and that a decoded image's buffer
/// holds exactly its pixels (the crate allocates `width * height * 4`).
#[verifier::external_body]
pub(crate) fn decode_rgba(bytes: &[u8]) -> (out: Option<Raster>)
    ensures
        match out {
            Some(r) => decoded_rgba(bytes@) == Some((r.width, r.height, r.data@)) && r.ok(),
            None => decoded_rgba(bytes@) is None,
        },
{
    let reader = image::ImageReader::new(std::io::Cursor::new(bytes)).with_guessed_format().ok()?;
    let img = reader.decode().ok()?.to_rgba8();
    Some(Raster { width: img.width(), height: img.height(), data: img.into_raw() })
}

/// Resamples an RGBA image with `image::imageops::resize` and the Lanczos3
/// filter. The contract claims only that the result holds `nw * nh` pixels
/// of four bytes. Which bytes is left unsaid: the filter's kernel is computed
/// with `f32::sin`, whose precision std leaves to the platform, so the same
/// image need not resample to the same bytes everywhere.
#[verifier::external_body]
pub(crate) fn resize_lanczos3(img: &Raster, nw: u32, nh: u32) -> (out: Vec<u8>)
    requires
        img.ok(),
        nw * nh * 4 <= usize::MAX,
    ensures
        out@.len() == nw * nh * 4,
{
    let src = image::RgbaImage::from_raw(img.width, img.height, img.data.clone()).unwrap();
    image::imageops::resize(&src, nw, nh, image::imageops::FilterType::Lanczos3).into_raw()
}

/// An image decoded as RGBA (see `decode_rgba`), or a single transparent
/// pixel when the bytes do not decode.
pub fn decoded_or_blank(bytes: &[u8]) -> (out: Raster)
    ensures
        out.ok(),
        match decoded_rgba(bytes@) {
            Some((w, h, d)) => out.width == w && out.height == h && out.data@ == d,
            None => out.width == 1 && out.height == 1 && out.data@ == seq![0u8, 0u8, 0u8, 0u8],
        },
{
    match decode_rgba(bytes) {
        Some(r) => r,
        None => {
            let data = vec![0u8, 0u8, 0u8, 0u8];
            assert(data@ =~= seq![0u8, 0u8, 0u8, 0u8]);
            let out = Raster { width: 1, height: 1, data };
            assert(out.width * out.height * 4 == 4) by (nonlinear_arith)
                requires
                    out.width == 1 && out.height == 1,
            ;
            out
        },
    }
}

/// The transparent case sprite's size.
pub const CASE_W: u32 = 480;
pub const CASE_H: u32 = 735;
/// The J-card zone a cover fills: left, top, right, bottom (exclusive).
pub const FILL_X0: u32 = 68;
pub const FILL_Y0: u32 = 73;
pub const FILL_X1: u32 = 413;
pub const FILL_Y1: u32 = 664;

/// Whether pixel `(x, y)` lies in the J-card zone.
pub open spec fn in_card(x: int, y: int) -> bool {
    FILL_X0 <= x < FILL_X1 && FILL_Y0 <= y < FILL_Y1
}

/// Byte `c` of pixel `(x, y)` of a case `w` wide holding `case` with the
/// resampled cover `cover` (`FILL_X1 - FILL_X0` wide) painted opaque over the
/// J-card.
pub open spec fn carded(case: Seq<u8>, w: int, cover: Seq<u8>, x: int, y: int, c: int) -> u8 {
    if in_card(x, y) {
        if c < 3 {
            pix(cover, (FILL_X1 - FILL_X0) as int, x - FILL_X0, y - FILL_Y0, c)
        } else {
            255
        }
    } else {
        pix(case, w, x, y, c)
    }
}

/// Whether `out`, a `cw` by `ch` image, is the case `case` with the cover
/// `cover` (sized to the J-card zone) painted opaque over the J-card.
pub open spec fn card_painted(out: Seq<u8>, case: Seq<u8>, cw: int, ch: int, cover: Seq<u8>) -> bool {
    &&& cover.len() == (FILL_X1 - FILL_X0) * (FILL_Y1 - FILL_Y0) * 4
    &&& forall|x: int, y: int, c: int|
        0 <= x < cw && 0 <= y < ch && 0 <= c < 4 ==> #[trigger] pix(out, cw, x, y, c) == carded(
            case,
            cw,
            cover,
            x,
            y,
            c,
        )
}

/// Whether `out`, a `cw` by `ch` image, is the case `case` with some cover
/// sized to the J-card zone painted over the J-card: outside the J-card the
/// case is unchanged, inside it every pixel is opaque.
pub open spec fn card_covered(out: Seq<u8>, case: Seq<u8>, cw: int, ch: int) -> bool {
    &&& exists|r: Seq<u8>| #[trigger] card_painted(out, case, cw, ch, r)
    &&& forall|x: int, y: int, c: int|
        0 <= x < cw && 0 <= y < ch && 0 <= c < 4 && !in_card(x, y) ==> #[trigger] pix(out, cw, x, y, c)
            == pix(case, cw, x, y, c)
    &&& forall|x: int, y: int| 0 <= x < cw && 0 <= y < ch && in_card(x, y) ==> #[trigger] pix(out, cw, x, y, 3) == 255
}

/// Paints the resampled cover over the J-card zone of a `cw` by `ch` case.
pub fn paint_card(buf: &mut Vec<u8>, cw: u32, ch: u32, cover: &Vec<u8>)
    requires
        old(buf)@.len() == cw * ch * 4,
        cover@.len() == (FILL_X1 - FILL_X0) * (FILL_Y1 - FILL_Y0) * 4,
    ensures
        final(buf)@.len() == old(buf)@.len(),
        forall|x: int, y: int, c: int|
            0 <= x < cw && 0 <= y < ch && 0 <= c < 4 ==> #[trigger] pix(final(buf)@, cw as int, x, y, c)
                == carded(old(buf)@, cw as int, cover@, x, y, c),
{
    let fw: u32 = FILL_X1 - FILL_X0;
    let fh: u32 = FILL_Y1 - FILL_Y0;
    let ghost start = buf@;
    let mut y: u32 = 0;
    while y < fh
        invariant
            y <= fh,
            fw == FILL_X1 - FILL_X0 && fh == FILL_Y1 - FILL_Y0,
            buf@.len() == cw * ch * 4,
            start.len() == cw * ch * 4,
            cover@.len() == fw * fh * 4,
            forall|x: int, yy: int, c: int|
                0 <= x < cw && 0 <= yy < ch && 0 <= c < 4 ==> #[trigger] pix(buf@, cw as int, x, yy, c) == if in_card(x, yy)
                    && yy < FILL_Y0 + y {
                    carded(start, cw as int, cover@, x, yy, c)
                } else {
                    pix(start, cw as int, x, yy, c)
                },
        decreases fh - y,
    {
        let mut x: u32 = 0;
        while x < fw
            invariant
                y < fh,
                x <= fw,
                fw == FILL_X1 - FILL_X0 && fh == FILL_Y1 - FILL_Y0,
                buf@.len() == cw * ch * 4,
                start.len() == cw * ch * 4,
                cover@.len() == fw * fh * 4,
                forall|xx: int, yy: int, c: int|
                    0 <= xx < cw && 0 <= yy < ch && 0 <= c < 4 ==> #[trigger] pix(buf@, cw as int, xx, yy, c) == if in_card(xx, yy)
                        && (yy < FILL_Y0 + y || (yy == FILL_Y0 + y && xx < FILL_X0 + x)) {
                        carded(start, cw as int, cover@, xx, yy, c)
                    } else {
                        pix(start, cw as int, xx, yy, c)
                    },
            decreases fw - x,
        {
            let dx = FILL_X0 + x;
            let dy = FILL_Y0 + y;
            if dx < cw && dy < ch {
                proof {
                    lemma_at(cw as int, ch as int, dx as int, dy as int, 3);
                    lemma_at(fw as int, fh as int, x as int, y as int, 3);
                }
                let n = buf.len();
                assert((dy * cw + dx) * 4 + 3 < n);
                assert(dy * cw <= n) by (nonlinear_arith)
                    requires
                        (dy * cw + dx) * 4 + 3 < n,
                        dx >= 0,
                        dy * cw >= 0,
                ;
                let m = cover.len();
                assert((y * fw + x) * 4 + 3 < m);
                assert(y * fw <= m) by (nonlinear_arith)
                    requires
                        (y * fw + x) * 4 + 3 < m,
                        x >= 0,
                        y * fw >= 0,
                ;
                let i = ((dy as usize) * (cw as usize) + (dx as usize)) * 4;
                let j = ((y as usize) * (fw as usize) + (x as usize)) * 4;
                let ghost before = buf@;
                buf.set(i, cover[j]);
                buf.set(i + 1, cover[j + 1]);
                buf.set(i + 2, cover[j + 2]);
                buf.set(i + 3, 255);
                proof {
                    assert forall|xx: int, yy: int, c: int|
                        0 <= xx < cw && 0 <= yy < ch && 0 <= c < 4 implies #[trigger] pix(buf@, cw as int, xx, yy, c)
                            == if in_card(xx, yy) && (yy < FILL_Y0 + y || (yy == FILL_Y0 + y && xx < FILL_X0 + x + 1)) {
                            carded(start, cw as int, cover@, xx, yy, c)
                        } else {
                            pix(start, cw as int, xx, yy, c)
                        } by {
                        lemma_at(cw as int, ch as int, xx, yy, c);
                        let k = at(cw as int, xx, yy, c);
                        if i <= k < i + 4 {
                            lemma_at_apart(cw as int, xx, yy, c, dx as int, dy as int, k - i);
                            assert(at(fw as int, x as int, y as int, c) == j + c);
                        } else {
                            assert(!(xx == dx && yy == dy)) by {
                                if xx == dx && yy == dy {
                                    assert(k == i + c);
                                }
                            }
                            assert(pix(before, cw as int, xx, yy, c) == before[k]);
                        }
                    }
                }
            } else {
                proof {
                    assert forall|xx: int, yy: int, c: int|
                        0 <= xx < cw && 0 <= yy < ch && 0 <= c < 4 implies #[trigger] pix(buf@, cw as int, xx, yy, c)
                            == if in_card(xx, yy) && (yy < FILL_Y0 + y || (yy == FILL_Y0 + y && xx < FILL_X0 + x + 1)) {
                            carded(start, cw as int, cover@, xx, yy, c)
                        } else {
                            pix(start, cw as int, xx, yy, c)
                        } by {
                        assert(!(xx == dx && yy == dy));
                    }
                }
            }
            x = x + 1;
        }
        y = y + 1;
    }
    proof {
        assert forall|x: int, yy: int, c: int|
            0 <= x < cw && 0 <= yy < ch && 0 <= c < 4 implies #[trigger] pix(buf@, cw as int, x, yy, c)
                == carded(start, cw as int, cover@, x, yy, c) by {
            if !in_card(x, yy) {
                assert(carded(start, cw as int, cover@, x, yy, c) == pix(start, cw as int, x, yy, c));
            }
        }
    }
}

/// The case sprite with a cover baked in: the case decoded from `case_png`
/// (a blank, fully transparent 480 by 735 sprite when it does not decode),
/// and, when `cover` decodes, the cover resampled to the J-card zone and
/// painted opaque over it. Outside the J-card the case is unchanged; inside
/// it every pixel is opaque and its colour comes from the resampled cover,
/// whatever bytes the resampling gave (see `resize_lanczos3`).
pub fn compose(case_png: &[u8], cover: Option<&[u8]>) -> (out: Raster)
    ensures
        out.ok(),
        match decoded_rgba(case_png@) {
            None => out.width == CASE_W && out.height == CASE_H && forall|k: int|
                0 <= k < out.data@.len() ==> #[trigger] out.data@[k] == 0,
            Some((cw, ch, case)) => {
                &&& out.width == cw && out.height == ch
                &&& match cover {
                    Some(b) => if decoded_rgba(b@) is Some {
                        card_covered(out.data@, case, cw as int, ch as int)
                    } else {
                        out.data@ == case
                    },
                    None => out.data@ == case,
                }
            },
        },
{
    let case = match decode_rgba(case_png) {
        Some(img) => img,
        None => {
            return Raster { width: CASE_W, height: CASE_H, data: crate::raster::blank(CASE_W, CASE_H) };
        },
    };
    let cw = case.width;
    let ch = case.height;
    let mut buf = case.data;
    match cover {
        Some(bytes) => {
            match decode_rgba(bytes) {
                Some(img) => {
                    let resized = resize_lanczos3(&img, FILL_X1 - FILL_X0, FILL_Y1 - FILL_Y0);
                    let ghost start = buf@;
                    paint_card(&mut buf, cw, ch, &resized);
                    assert(card_painted(buf@, start, cw as int, ch as int, resized@));
                    assert forall|x: int, y: int, c: int|
                        0 <= x < cw && 0 <= y < ch && 0 <= c < 4 && !in_card(x, y) implies #[trigger] pix(
                            buf@,
                            cw as int,
                            x,
                            y,
                            c,
                        ) == pix(start, cw as int, x, y, c) by {
                        assert(pix(buf@, cw as int, x, y, c) == carded(start, cw as int, resized@, x, y, c));
                    }
                    assert forall|x: int, y: int|
                        0 <= x < cw && 0 <= y < ch && in_card(x, y) implies #[trigger] pix(buf@, cw as int, x, y, 3)
                            == 255 by {
                        assert(pix(buf@, cw as int, x, y, 3) == carded(start, cw as int, resized@, x, y, 3));
                    }
                    assert(card_covered(buf@, start, cw as int, ch as int));
                },
                None => {},
            }
        },
        None => {},
    }
    Raster { width: cw, height: ch, data: buf }
}

/// Where the tray and the open lid sit in the open-case sprite: left, top,
/// width, height.
pub const TRAY_X: u32 = 478;
pub const TRAY_Y: u32 = 171;
pub const TRAY_W: u32 = 446;
pub const TRAY_H: u32 = 687;
pub const LID_X: u32 = 106;
pub const LID_Y: u32 = 142;
pub const LID_W: u32 = 372;
pub const LID_H: u32 = 745;

/// Cuts the open-case sprite into its tray, its lid and the lid mirrored (to
/// drape over the tray while the case is closed); none when `png` does not
/// decode.
pub fn split(png: &[u8]) -> (out: Option<(Raster, Raster, Raster)>)
    ensures
        match decoded_rgba(png@) {
            None => out is None,
            Some((w, h, img)) => out matches Some((tray, lid, lid_flipped)) && {
                &&& is_crop(tray, w, h, img, TRAY_X, TRAY_Y, TRAY_W, TRAY_H)
                &&& is_crop(lid, w, h, img, LID_X, LID_Y, LID_W, LID_H)
                &&& is_mirror(lid_flipped, lid.width, lid.height, lid.data@)
            },
        },
{
    let img = match decode_rgba(png) {
        Some(i) => i,
        None => return None,
    };
    let tray = crop(&img, TRAY_X, TRAY_Y, TRAY_W, TRAY_H);
    let lid = crop(&img, LID_X, LID_Y, LID_W, LID_H);
    let lid_flipped = flip_horizontal(&lid);
    Some((tray, lid, lid_flipped))
}

} // verus!
