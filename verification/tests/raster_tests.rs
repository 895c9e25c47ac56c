use cosmic_cassette_deck::raster::{blank, blend_max, crop, fill_rect, flip_horizontal, put, rotate_cw, solid_bg, Raster};

fn px(buf: &[u8], w: usize, x: usize, y: usize) -> [u8; 4] {
    let i = (y * w + x) * 4;
    [buf[i], buf[i + 1], buf[i + 2], buf[i + 3]]
}

/// A `w` by `h` image whose pixel (x, y) is [x, y, 7, 255].
fn coords(w: u32, h: u32) -> Raster {
    let mut data = Vec::new();
    for y in 0..h {
        for x in 0..w {
            data.extend_from_slice(&[x as u8, y as u8, 7, 255]);
        }
    }
    Raster { width: w, height: h, data }
}

#[test]
fn put_writes_one_pixel() {
    let mut buf = vec![0u8; 3 * 2 * 4];
    put(&mut buf, 3, 2, 1, [1, 2, 3, 4]);
    assert_eq!(px(&buf, 3, 2, 1), [1, 2, 3, 4]);
    assert_eq!(buf.iter().filter(|b| **b != 0).count(), 4);
}

#[test]
fn blend_max_keeps_the_more_opaque_pixel() {
    let mut buf = vec![0u8; 2 * 2 * 4];
    blend_max(&mut buf, 2, 1, 1, [10, 10, 10, 100]);
    assert_eq!(px(&buf, 2, 1, 1), [10, 10, 10, 100]);
    blend_max(&mut buf, 2, 1, 1, [20, 20, 20, 50]);
    assert_eq!(px(&buf, 2, 1, 1), [10, 10, 10, 100]);
    blend_max(&mut buf, 2, 1, 1, [30, 30, 30, 100]);
    assert_eq!(px(&buf, 2, 1, 1), [30, 30, 30, 100]);
}

#[test]
fn fill_rect_paints_only_the_rectangle() {
    let mut buf = vec![9u8; 4 * 3 * 4];
    fill_rect(&mut buf, 4, 3, 1, 3, 1, 2, [1, 2, 3, 4]);
    for y in 0..3 {
        for x in 0..4 {
            let inside = (1..3).contains(&x) && y == 1;
            assert_eq!(px(&buf, 4, x, y), if inside { [1, 2, 3, 4] } else { [9, 9, 9, 9] });
        }
    }
}

#[test]
fn rotate_turns_clockwise() {
    let src = coords(3, 2);
    let out = rotate_cw(&src.data, 3, 2);
    // The result is 2 wide and 3 tall; its pixel (x, y) is src (y, 1 - x).
    assert_eq!(out.len(), 24);
    assert_eq!(px(&out, 2, 0, 0), [0, 1, 7, 255]);
    assert_eq!(px(&out, 2, 1, 0), [0, 0, 7, 255]);
    assert_eq!(px(&out, 2, 0, 2), [2, 1, 7, 255]);
    assert_eq!(px(&out, 2, 1, 2), [2, 0, 7, 255]);
}

#[test]
fn crop_copies_and_clamps() {
    let img = coords(5, 4);
    let c = crop(&img, 1, 2, 2, 5);
    assert_eq!((c.width, c.height), (2, 2));
    assert_eq!(px(&c.data, 2, 0, 0), [1, 2, 7, 255]);
    assert_eq!(px(&c.data, 2, 1, 1), [2, 3, 7, 255]);
    let off = crop(&img, 9, 9, 3, 3);
    assert_eq!((off.width, off.height), (0, 0));
    assert!(off.data.is_empty());
}

#[test]
fn flip_mirrors_left_to_right() {
    let img = coords(3, 2);
    let f = flip_horizontal(&img);
    assert_eq!((f.width, f.height), (3, 2));
    assert_eq!(px(&f.data, 3, 0, 0), [2, 0, 7, 255]);
    assert_eq!(px(&f.data, 3, 2, 1), [0, 1, 7, 255]);
    let twice = flip_horizontal(&f);
    assert_eq!(twice.data, img.data);
}

#[test]
fn backdrops() {
    let bg = solid_bg([18, 18, 22]);
    assert_eq!(bg.len(), 64);
    for p in 0..16 {
        assert_eq!(&bg[p * 4..p * 4 + 4], &[18, 18, 22, 255]);
    }
    let b = blank(3, 2);
    assert_eq!(b, vec![0u8; 24]);
}
