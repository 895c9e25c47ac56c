//! RGBA pixel buffers: writing and blending pixels, the label strip's rule
//! and quarter turn, flat backdrops, cropping and mirroring sprites.
//!
//! A buffer of width `w` holds pixel `(x, y)` in the four bytes from
//! `(y * w + x) * 4`: red, green, blue, alpha.
use vstd::prelude::*;

verus! {

/// Byte `c` of pixel `(x, y)` in an RGBA buffer of width `w`.
pub open spec fn pix(s: Seq<u8>, w: int, x: int, y: int, c: int) -> u8 {
    s[(y * w + x) * 4 + c]
}

/// Where byte `c` of pixel `(x, y)` lies in an RGBA buffer of width `w`.
pub open spec fn at(w: int, x: int, y: int, c: int) -> int {
    (y * w + x) * 4 + c
}

/// Inside a `w` by `h` buffer, every pixel byte lies within its
/// `w * h * 4` bytes, and distinct pixel bytes lie apart.
pub proof fn lemma_at(w: int, h: int, x: int, y: int, c: int)
    requires
        0 <= x < w,
        0 <= y < h,
        0 <= c < 4,
    ensures
        0 <= at(w, x, y, c) < w * h * 4,
{
    assert(0 <= y * w + x < w * h) by (nonlinear_arith)
        requires
            0 <= x < w,
            0 <= y < h,
    ;
}

/// Distinct pixel bytes of a buffer of width `w` lie at distinct places.
pub proof fn lemma_at_apart(w: int, x1: int, y1: int, c1: int, x2: int, y2: int, c2: int)
    requires
        0 <= x1 < w,
        0 <= x2 < w,
        0 <= y1,
        0 <= y2,
        0 <= c1 < 4,
        0 <= c2 < 4,
        at(w, x1, y1, c1) == at(w, x2, y2, c2),
    ensures
        x1 == x2 && y1 == y2 && c1 == c2,
{
    let a = y1 * w + x1;
    let b = y2 * w + x2;
    assert(a == b && c1 == c2);
    if y1 < y2 {
        assert(y1 * w + x1 < y2 * w + x2) by (nonlinear_arith)
            requires
                y1 < y2,
                0 <= x1 < w,
                0 <= x2,
        ;
    } else if y2 < y1 {
        assert(y2 * w + x2 < y1 * w + x1) by (nonlinear_arith)
            requires
                y2 < y1,
                0 <= x2 < w,
                0 <= x1,
        ;
    }
}

/// Writes pixel `(x, y)` of a buffer of width `w`.
pub fn put(buf: &mut Vec<u8>, w: u32, x: usize, y: usize, rgba: [u8; 4])
    requires
        (y * w + x) * 4 + 4 <= old(buf)@.len(),
    ensures
        final(buf)@.len() == old(buf)@.len(),
        forall|k: int|
            0 <= k < old(buf)@.len() ==> #[trigger] final(buf)@[k] == if (y * w + x) * 4 <= k < (y * w
                + x) * 4 + 4 {
                rgba@[k - (y * w + x) * 4]
            } else {
                old(buf)@[k]
            },
{
    let n = buf.len();
    assert(y * w <= n && y * w + x <= n) by (nonlinear_arith)
        requires
            (y * w + x) * 4 + 4 <= n,
            x >= 0,
            y * w >= 0,
    ;
    let i = (y * (w as usize) + x) * 4;
    buf.set(i, rgba[0]);
    buf.set(i + 1, rgba[1]);
    buf.set(i + 2, rgba[2]);
    buf.set(i + 3, rgba[3]);
}

/// Writes pixel `(x, y)` of a buffer of width `w` unless the pixel there is
/// more opaque: the stronger coverage wins where glyphs overlap.
pub fn blend_max(buf: &mut Vec<u8>, w: u32, x: u32, y: u32, rgba: [u8; 4])
    requires
        (y * w + x) * 4 + 4 <= old(buf)@.len(),
        (y * w + x) * 4 <= u32::MAX,
    ensures
        final(buf)@.len() == old(buf)@.len(),
        forall|k: int|
            0 <= k < old(buf)@.len() ==> #[trigger] final(buf)@[k] == if rgba@[3] >= old(buf)@[(y * w + x)
                * 4 + 3] && (y * w + x) * 4 <= k < (y * w + x) * 4 + 4 {
                rgba@[k - (y * w + x) * 4]
            } else {
                old(buf)@[k]
            },
{
    assert(y * w <= u32::MAX) by (nonlinear_arith)
        requires
            (y * w + x) * 4 <= u32::MAX,
            x >= 0,
    ;
    let i = ((y * w + x) * 4) as usize;
    if rgba[3] >= buf[i + 3] {
        buf.set(i, rgba[0]);
        buf.set(i + 1, rgba[1]);
        buf.set(i + 2, rgba[2]);
        buf.set(i + 3, rgba[3]);
    }
}

/// Paints the rectangle `x0..x1` by `y0..y1` of a `w` by `h` buffer with one
/// colour, leaving every other pixel as it was.
pub fn fill_rect(buf: &mut Vec<u8>, w: u32, h: u32, x0: u32, x1: u32, y0: u32, y1: u32, rgba: [u8; 4])
    requires
        old(buf)@.len() == w * h * 4,
        x0 <= x1 <= w,
        y0 <= y1 <= h,
    ensures
        final(buf)@.len() == old(buf)@.len(),
        forall|x: int, y: int, c: int|
            0 <= x < w && 0 <= y < h && 0 <= c < 4 ==> #[trigger] pix(final(buf)@, w as int, x, y, c) == if x0
                <= x < x1 && y0 <= y < y1 {
                rgba@[c]
            } else {
                pix(old(buf)@, w as int, x, y, c)
            },
{
    let ghost start = buf@;
    let mut yy: u32 = y0;
    while yy < y1
        invariant
            y0 <= yy <= y1 <= h,
            x0 <= x1 <= w,
            buf@.len() == w * h * 4,
            start.len() == w * h * 4,
            forall|x: int, y: int, c: int|
                0 <= x < w && 0 <= y < h && 0 <= c < 4 ==> #[trigger] pix(buf@, w as int, x, y, c) == if x0
                    <= x < x1 && y0 <= y < yy {
                    rgba@[c]
                } else {
                    pix(start, w as int, x, y, c)
                },
        decreases y1 - yy,
    {
        let mut xx: u32 = x0;
        while xx < x1
            invariant
                y0 <= yy < y1 <= h,
                x0 <= xx <= x1 <= w,
                buf@.len() == w * h * 4,
                start.len() == w * h * 4,
                forall|x: int, y: int, c: int|
                    0 <= x < w && 0 <= y < h && 0 <= c < 4 ==> #[trigger] pix(buf@, w as int, x, y, c) == if (x0
                        <= x < x1 && y0 <= y < yy) || (y == yy && x0 <= x < xx) {
                        rgba@[c]
                    } else {
                        pix(start, w as int, x, y, c)
                    },
            decreases x1 - xx,
        {
            let ghost before = buf@;
            proof {
                lemma_at(w as int, h as int, xx as int, yy as int, 3);
            }
            put(buf, w, xx as usize, yy as usize, rgba);
            proof {
                assert forall|x: int, y: int, c: int|
                    0 <= x < w && 0 <= y < h && 0 <= c < 4 implies #[trigger] pix(buf@, w as int, x, y, c) == if (x0
                        <= x < x1 && y0 <= y < yy) || (y == yy && x0 <= x < xx + 1) {
                        rgba@[c]
                    } else {
                        pix(start, w as int, x, y, c)
                    } by {
                    lemma_at(w as int, h as int, x, y, c);
                    let k = at(w as int, x, y, c);
                    let base = at(w as int, xx as int, yy as int, 0);
                    if base <= k < base + 4 {
                        lemma_at_apart(w as int, x, y, c, xx as int, yy as int, k - base);
                    } else {
                        assert(!(x == xx && y == yy)) by {
                            if x == xx && y == yy {
                                assert(k == base + c);
                            }
                        }
                    }
                    assert(pix(before, w as int, x, y, c) == before[k]);
                }
            }
            xx = xx + 1;
        }
        yy = yy + 1;
    }
}

/// A fully transparent `w` by `h` buffer.
pub fn blank(w: u32, h: u32) -> (out: Vec<u8>)
    requires
        w * h * 4 <= usize::MAX,
    ensures
        out@.len() == w * h * 4,
        forall|k: int| 0 <= k < out@.len() ==> #[trigger] out@[k] == 0,
{
    let n = (w as usize) * (h as usize) * 4;
    let mut out: Vec<u8> = Vec::new();
    let mut i: usize = 0;
    while i < n
        invariant
            i <= n,
            out@.len() == i,
            forall|k: int| 0 <= k < out@.len() ==> #[trigger] out@[k] == 0,
        decreases n - i,
    {
        out.push(0);
        i = i + 1;
    }
    out
}

/// A 4 by 4 opaque backdrop of one colour.
pub fn solid_bg(rgb: [u8; 3]) -> (out: Vec<u8>)
    ensures
        out@.len() == 64,
        forall|x: int, y: int| 0 <= x < 4 && 0 <= y < 4 ==> {
            &&& #[trigger] pix(out@, 4, x, y, 0) == rgb@[0]
            &&& pix(out@, 4, x, y, 1) == rgb@[1]
            &&& pix(out@, 4, x, y, 2) == rgb@[2]
            &&& pix(out@, 4, x, y, 3) == 255
        },
{
    let mut out: Vec<u8> = Vec::new();
    let mut i: usize = 0;
    while i < 16
        invariant
            i <= 16,
            out@.len() == i * 4,
            forall|p: int, c: int| 0 <= p < i && 0 <= c < 4 ==> #[trigger] out@[p * 4 + c] == if c < 3 {
                rgb@[c]
            } else {
                255u8
            },
        decreases 16 - i,
    {
        out.push(rgb[0]);
        out.push(rgb[1]);
        out.push(rgb[2]);
        out.push(255);
        i = i + 1;
    }
    assert forall|x: int, y: int| 0 <= x < 4 && 0 <= y < 4 implies {
        &&& #[trigger] pix(out@, 4, x, y, 0) == rgb@[0]
        &&& pix(out@, 4, x, y, 1) == rgb@[1]
        &&& pix(out@, 4, x, y, 2) == rgb@[2]
        &&& pix(out@, 4, x, y, 3) == 255
    } by {
        let p = y * 4 + x;
        assert(0 <= p < 16);
        assert(out@[p * 4 + 0] == rgb@[0]);
        assert(out@[p * 4 + 1] == rgb@[1]);
        assert(out@[p * 4 + 2] == rgb@[2]);
        assert(out@[p * 4 + 3] == 255);
    }
    out
}

/// Turns a `sw` by `sh` buffer a quarter turn clockwise into an `sh` by `sw`
/// one: pixel `(x, y)` of the result is pixel `(y, sh - 1 - x)` of `src`.
pub fn rotate_cw(src: &Vec<u8>, sw: u32, sh: u32) -> (out: Vec<u8>)
    requires
        src@.len() == sw * sh * 4,
    ensures
        out@.len() == sw * sh * 4,
        forall|x: int, y: int, c: int|
            0 <= x < sh && 0 <= y < sw && 0 <= c < 4 ==> #[trigger] pix(out@, sh as int, x, y, c) == pix(
                src@,
                sw as int,
                y,
                sh - 1 - x,
                c,
            ),
{
    let ow = sh;
    let oh = sw;
    let total = src.len();
    let mut out: Vec<u8> = Vec::new();
    let mut y: u32 = 0;
    while y < oh
        invariant
            y <= oh,
            ow == sh && oh == sw,
            src@.len() == sw * sh * 4,
            src@.len() == total,
            out@.len() == y * ow * 4,
            forall|xx: int, yy: int, c: int|
                0 <= xx < ow && 0 <= yy < y && 0 <= c < 4 ==> #[trigger] pix(out@, ow as int, xx, yy, c)
                    == pix(src@, sw as int, yy, sh - 1 - xx, c),
        decreases oh - y,
    {
        let mut x: u32 = 0;
        while x < ow
            invariant
                y < oh,
                x <= ow,
                ow == sh && oh == sw,
                src@.len() == sw * sh * 4,
                src@.len() == total,
                out@.len() == (y * ow + x) * 4,
                forall|xx: int, yy: int, c: int|
                    0 <= xx < ow && 0 <= c < 4 && (0 <= yy < y || (yy == y && xx < x))
                        ==> #[trigger] pix(out@, ow as int, xx, yy, c) == pix(src@, sw as int, yy, sh - 1 - xx, c),
            decreases ow - x,
        {
            proof {
                lemma_at(sw as int, sh as int, y as int, (sh - 1 - x) as int, 3);
                lemma_at(ow as int, oh as int, x as int, y as int, 3);
            }
            assert(((sh - 1 - x) * sw + y) * 4 + 3 < total);
            assert((sh - 1 - x) * sw <= total) by (nonlinear_arith)
                requires
                    ((sh - 1 - x) * sw + y) * 4 + 3 < total,
                    y >= 0,
                    (sh - 1 - x) * sw >= 0,
            ;
            let si = (((sh - 1 - x) as usize) * (sw as usize) + (y as usize)) * 4;
            let ghost before = out@;
            out.push(src[si]);
            out.push(src[si + 1]);
            out.push(src[si + 2]);
            out.push(src[si + 3]);
            proof {
                assert forall|xx: int, yy: int, c: int|
                    0 <= xx < ow && 0 <= c < 4 && (0 <= yy < y || (yy == y && xx < x + 1))
                        implies #[trigger] pix(out@, ow as int, xx, yy, c) == pix(src@, sw as int, yy, sh - 1 - xx, c) by {
                    if yy == y && xx == x {
                        assert(at(ow as int, xx, yy, c) == before.len() + c);
                        assert(at(sw as int, yy, sh - 1 - xx, c) == si + c);
                        if c == 0 {
                            assert(out@[before.len() as int] == src@[si as int]);
                        } else if c == 1 {
                            assert(out@[before.len() as int + 1] == src@[si as int + 1]);
                        } else if c == 2 {
                            assert(out@[before.len() as int + 2] == src@[si as int + 2]);
                        } else {
                            assert(out@[before.len() as int + 3] == src@[si as int + 3]);
                        }
                    } else {
                        lemma_at(ow as int, oh as int, xx, yy, c);
                        if yy < y {
                            assert(at(ow as int, xx, yy, c) < before.len()) by (nonlinear_arith)
                                requires
                                    0 <= xx < ow,
                                    0 <= yy < y,
                                    0 <= c < 4,
                                    before.len() == (y * ow + x) * 4,
                                    x >= 0,
                            ;
                        } else {
                            assert(at(ow as int, xx, yy, c) < before.len());
                        }
                        assert(out@[at(ow as int, xx, yy, c)] == before[at(ow as int, xx, yy, c)]);
                        assert(pix(before, ow as int, xx, yy, c) == pix(src@, sw as int, yy, sh - 1 - xx, c));
                    }
                }
            }
            x = x + 1;
        }
        assert((y * ow + ow) * 4 == (y + 1) * ow * 4) by (nonlinear_arith);
        proof {
            assert forall|xx: int, yy: int, c: int|
                0 <= xx < ow && 0 <= yy < y + 1 && 0 <= c < 4 implies #[trigger] pix(out@, ow as int, xx, yy, c)
                    == pix(src@, sw as int, yy, sh - 1 - xx, c) by {
                assert(0 <= yy < y || (yy == y && xx < ow));
            }
        }
        y = y + 1;
    }
    assert(oh * ow * 4 == sw * sh * 4) by (nonlinear_arith)
        requires
            ow == sh && oh == sw,
    ;
    out
}

/// An RGBA image: `width * height` pixels, four bytes each, row by row.
pub struct Raster {
    pub width: u32,
    pub height: u32,
    pub data: Vec<u8>,
}

impl Raster {
    /// The buffer holds exactly the image's pixels.
    pub open spec fn ok(&self) -> bool {
        self.data@.len() == self.width * self.height * 4
    }
}

/// The smaller of two numbers.
pub open spec fn min_u32(a: u32, b: u32) -> u32 {
    if a <= b {
        a
    } else {
        b
    }
}

/// The part of a `iw` by `ih` image that a crop at `(x, y)` of `w` by `h`
/// covers, clamped to the image: its left, top, width and height.
pub open spec fn crop_box(iw: u32, ih: u32, x: u32, y: u32, w: u32, h: u32) -> (u32, u32, u32, u32) {
    let cx = min_u32(x, iw);
    let cy = min_u32(y, ih);
    (cx, cy, min_u32(w, (iw - cx) as u32), min_u32(h, (ih - cy) as u32))
}

/// `out` is the `w` by `h` piece at `(x, y)` of the `iw` by `ih` image
/// `src`, clamped to the image (see `crop_box`).
pub open spec fn is_crop(out: Raster, iw: u32, ih: u32, src: Seq<u8>, x: u32, y: u32, w: u32, h: u32) -> bool {
    let b = crop_box(iw, ih, x, y, w, h);
    &&& out.ok()
    &&& out.width == b.2 && out.height == b.3
    &&& forall|xx: int, yy: int, c: int|
        0 <= xx < out.width && 0 <= yy < out.height && 0 <= c < 4 ==> #[trigger] pix(out.data@, out.width as int, xx, yy, c)
            == pix(src, iw as int, b.0 + xx, b.1 + yy, c)
}

/// `out` is the `iw` by `ih` image `src` mirrored left to right.
pub open spec fn is_mirror(out: Raster, iw: u32, ih: u32, src: Seq<u8>) -> bool {
    &&& out.ok()
    &&& out.width == iw && out.height == ih
    &&& forall|xx: int, yy: int, c: int|
        0 <= xx < out.width && 0 <= yy < out.height && 0 <= c < 4 ==> #[trigger] pix(out.data@, out.width as int, xx, yy, c)
            == pix(src, iw as int, iw - 1 - xx, yy, c)
}

/// The `w` by `h` piece of `img` whose top-left corner is `(x, y)`, clamped
/// to the image (`image::imageops::crop_imm`, then copied out).
pub fn crop(img: &Raster, x: u32, y: u32, w: u32, h: u32) -> (out: Raster)
    requires
        img.ok(),
    ensures
        is_crop(out, img.width, img.height, img.data@, x, y, w, h),
{
    let iw = img.width;
    let ih = img.height;
    let cx = if x <= iw { x } else { iw };
    let cy = if y <= ih { y } else { ih };
    let ow = if w <= iw - cx { w } else { iw - cx };
    let oh = if h <= ih - cy { h } else { ih - cy };
    let total = img.data.len();
    let mut out: Vec<u8> = Vec::new();
    let mut yv: u32 = 0;
    while yv < oh
        invariant
            yv <= oh,
            cx + ow <= iw,
            cy + oh <= ih,
            img.data@.len() == iw * ih * 4,
            img.data@.len() == total,
            iw == img.width && ih == img.height,
            out@.len() == yv * ow * 4,
            forall|xx: int, yy: int, c: int|
                0 <= xx < ow && 0 <= yy < yv && 0 <= c < 4 ==> #[trigger] pix(out@, ow as int, xx, yy, c)
                    == pix(img.data@, iw as int, cx + xx, cy + yy, c),
        decreases oh - yv,
    {
        let mut xv: u32 = 0;
        while xv < ow
            invariant
                yv < oh,
                xv <= ow,
                cx + ow <= iw,
                cy + oh <= ih,
                img.data@.len() == iw * ih * 4,
                img.data@.len() == total,
                iw == img.width && ih == img.height,
                out@.len() == (yv * ow + xv) * 4,
                forall|xx: int, yy: int, c: int|
                    0 <= xx < ow && 0 <= c < 4 && (0 <= yy < yv || (yy == yv && xx < xv))
                        ==> #[trigger] pix(out@, ow as int, xx, yy, c) == pix(img.data@, iw as int, cx + xx, cy + yy, c),
            decreases ow - xv,
        {
            proof {
                lemma_at(iw as int, ih as int, (cx + xv) as int, (cy + yv) as int, 3);
                lemma_at(ow as int, oh as int, xv as int, yv as int, 3);
            }
            assert(((cy + yv) * iw + cx + xv) * 4 + 3 < total);
            assert((cy + yv) * iw <= total) by (nonlinear_arith)
                requires
                    ((cy + yv) * iw + cx + xv) * 4 + 3 < total,
                    cx + xv >= 0,
                    (cy + yv) * iw >= 0,
            ;
            let si = (((cy + yv) as usize) * (iw as usize) + ((cx + xv) as usize)) * 4;
            let ghost before = out@;
            out.push(img.data[si]);
            out.push(img.data[si + 1]);
            out.push(img.data[si + 2]);
            out.push(img.data[si + 3]);
            proof {
                assert forall|xx: int, yy: int, c: int|
                    0 <= xx < ow && 0 <= c < 4 && (0 <= yy < yv || (yy == yv && xx < xv + 1))
                        implies #[trigger] pix(out@, ow as int, xx, yy, c) == pix(img.data@, iw as int, cx + xx, cy + yy, c) by {
                    if yy == yv && xx == xv {
                        assert(at(ow as int, xx, yy, c) == before.len() + c);
                        assert(at(iw as int, cx + xx, cy + yy, c) == si + c);
                        if c == 0 {
                            assert(out@[before.len() as int] == img.data@[si as int]);
                        } else if c == 1 {
                            assert(out@[before.len() as int + 1] == img.data@[si as int + 1]);
                        } else if c == 2 {
                            assert(out@[before.len() as int + 2] == img.data@[si as int + 2]);
                        } else {
                            assert(out@[before.len() as int + 3] == img.data@[si as int + 3]);
                        }
                    } else {
                        lemma_at(ow as int, oh as int, xx, yy, c);
                        if yy < yv {
                            assert(at(ow as int, xx, yy, c) < before.len()) by (nonlinear_arith)
                                requires
                                    0 <= xx < ow,
                                    0 <= yy < yv,
                                    0 <= c < 4,
                                    before.len() == (yv * ow + xv) * 4,
                                    xv >= 0,
                            ;
                        } else {
                            assert(at(ow as int, xx, yy, c) < before.len());
                        }
                        assert(out@[at(ow as int, xx, yy, c)] == before[at(ow as int, xx, yy, c)]);
                        assert(pix(before, ow as int, xx, yy, c) == pix(img.data@, iw as int, cx + xx, cy + yy, c));
                    }
                }
            }
            xv = xv + 1;
        }
        assert((yv * ow + ow) * 4 == (yv + 1) * ow * 4) by (nonlinear_arith);
        proof {
            assert forall|xx: int, yy: int, c: int|
                0 <= xx < ow && 0 <= yy < yv + 1 && 0 <= c < 4 implies #[trigger] pix(out@, ow as int, xx, yy, c)
                    == pix(img.data@, iw as int, cx + xx, cy + yy, c) by {
                assert(0 <= yy < yv || (yy == yv && xx < ow));
            }
        }
        yv = yv + 1;
    }
    assert(oh * ow * 4 == ow * oh * 4) by (nonlinear_arith);
    Raster { width: ow, height: oh, data: out }
}

/// `img` mirrored left to right (`image::imageops::flip_horizontal`): pixel
/// `(x, y)` of the result is pixel `(width - 1 - x, y)` of `img`.
pub fn flip_horizontal(img: &Raster) -> (out: Raster)
    requires
        img.ok(),
    ensures
        is_mirror(out, img.width, img.height, img.data@),
{
    let iw = img.width;
    let ih = img.height;
    let ow = iw;
    let oh = ih;
    let total = img.data.len();
    let mut out: Vec<u8> = Vec::new();
    let mut yv: u32 = 0;
    while yv < oh
        invariant
            yv <= oh,
            ow == iw && oh == ih,
            img.data@.len() == iw * ih * 4,
            img.data@.len() == total,
            iw == img.width && ih == img.height,
            out@.len() == yv * ow * 4,
            forall|xx: int, yy: int, c: int|
                0 <= xx < ow && 0 <= yy < yv && 0 <= c < 4 ==> #[trigger] pix(out@, ow as int, xx, yy, c)
                    == pix(img.data@, iw as int, iw - 1 - xx, yy, c),
        decreases oh - yv,
    {
        let mut xv: u32 = 0;
        while xv < ow
            invariant
                yv < oh,
                xv <= ow,
                ow == iw && oh == ih,
                img.data@.len() == iw * ih * 4,
                img.data@.len() == total,
                iw == img.width && ih == img.height,
                out@.len() == (yv * ow + xv) * 4,
                forall|xx: int, yy: int, c: int|
                    0 <= xx < ow && 0 <= c < 4 && (0 <= yy < yv || (yy == yv && xx < xv))
                        ==> #[trigger] pix(out@, ow as int, xx, yy, c) == pix(img.data@, iw as int, iw - 1 - xx, yy, c),
            decreases ow - xv,
        {
            proof {
                lemma_at(iw as int, ih as int, (iw - 1 - xv) as int, yv as int, 3);
                lemma_at(ow as int, oh as int, xv as int, yv as int, 3);
            }
            assert((yv * iw + (iw - 1 - xv)) * 4 + 3 < total);
            assert(yv * iw <= total) by (nonlinear_arith)
                requires
                    (yv * iw + (iw - 1 - xv)) * 4 + 3 < total,
                    iw - 1 - xv >= 0,
                    yv * iw >= 0,
            ;
            let si = ((yv as usize) * (iw as usize) + ((iw - 1 - xv) as usize)) * 4;
            let ghost before = out@;
            out.push(img.data[si]);
            out.push(img.data[si + 1]);
            out.push(img.data[si + 2]);
            out.push(img.data[si + 3]);
            proof {
                assert forall|xx: int, yy: int, c: int|
                    0 <= xx < ow && 0 <= c < 4 && (0 <= yy < yv || (yy == yv && xx < xv + 1))
                        implies #[trigger] pix(out@, ow as int, xx, yy, c) == pix(img.data@, iw as int, iw - 1 - xx, yy, c) by {
                    if yy == yv && xx == xv {
                        assert(at(ow as int, xx, yy, c) == before.len() + c);
                        assert(at(iw as int, iw - 1 - xx, yy, c) == si + c);
                        if c == 0 {
                            assert(out@[before.len() as int] == img.data@[si as int]);
                        } else if c == 1 {
                            assert(out@[before.len() as int + 1] == img.data@[si as int + 1]);
                        } else if c == 2 {
                            assert(out@[before.len() as int + 2] == img.data@[si as int + 2]);
                        } else {
                            assert(out@[before.len() as int + 3] == img.data@[si as int + 3]);
                        }
                    } else {
                        lemma_at(ow as int, oh as int, xx, yy, c);
                        if yy < yv {
                            assert(at(ow as int, xx, yy, c) < before.len()) by (nonlinear_arith)
                                requires
                                    0 <= xx < ow,
                                    0 <= yy < yv,
                                    0 <= c < 4,
                                    before.len() == (yv * ow + xv) * 4,
                                    xv >= 0,
                            ;
                        } else {
                            assert(at(ow as int, xx, yy, c) < before.len());
                        }
                        assert(out@[at(ow as int, xx, yy, c)] == before[at(ow as int, xx, yy, c)]);
                        assert(pix(before, ow as int, xx, yy, c) == pix(img.data@, iw as int, iw - 1 - xx, yy, c));
                    }
                }
            }
            xv = xv + 1;
        }
        assert((yv * ow + ow) * 4 == (yv + 1) * ow * 4) by (nonlinear_arith);
        proof {
            assert forall|xx: int, yy: int, c: int|
                0 <= xx < ow && 0 <= yy < yv + 1 && 0 <= c < 4 implies #[trigger] pix(out@, ow as int, xx, yy, c)
                    == pix(img.data@, iw as int, iw - 1 - xx, yy, c) by {
                assert(0 <= yy < yv || (yy == yv && xx < ow));
            }
        }
        yv = yv + 1;
    }
    assert(oh * ow * 4 == ow * oh * 4) by (nonlinear_arith);
    Raster { width: ow, height: oh, data: out }
}

} // verus!
