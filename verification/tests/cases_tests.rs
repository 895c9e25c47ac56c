use cosmic_cassette_deck::cases::{decoded_or_blank, paint_card, FILL_X0, FILL_X1, FILL_Y0, FILL_Y1};
use cosmic_cassette_deck::cases::{compose, split, CASE_H, CASE_W};

fn png(w: u32, h: u32, f: impl Fn(u32, u32) -> [u8; 4]) -> Vec<u8> {
    let img = image::RgbaImage::from_fn(w, h, |x, y| image::Rgba(f(x, y)));
    let mut out = std::io::Cursor::new(Vec::new());
    img.write_to(&mut out, image::ImageFormat::Png).unwrap();
    out.into_inner()
}

fn px(buf: &[u8], w: u32, x: u32, y: u32) -> [u8; 4] {
    let i = ((y * w + x) * 4) as usize;
    [buf[i], buf[i + 1], buf[i + 2], buf[i + 3]]
}

#[test]
fn undecodable_case_gives_a_blank_sprite() {
    let out = compose(b"not an image", None);
    assert_eq!((out.width, out.height), (CASE_W, CASE_H));
    assert!(out.data.iter().all(|b| *b == 0));
}

#[test]
fn case_without_cover_is_the_case() {
    let case = png(500, 700, |x, _| [1, 2, 3, if x % 2 == 0 { 0 } else { 128 }]);
    let out = compose(&case, None);
    assert_eq!((out.width, out.height), (500, 700));
    assert_eq!(px(&out.data, 500, 100, 100), [1, 2, 3, 0]);
    assert_eq!(px(&out.data, 500, 101, 100), [1, 2, 3, 128]);
    let bad_cover = compose(&case, Some(b"junk"));
    assert_eq!(bad_cover.data, out.data);
}

#[test]
fn cover_fills_the_card_opaque() {
    let case = png(500, 700, |_, _| [0, 0, 0, 0]);
    let cover = png(345, 591, |x, y| [200, (x % 256) as u8, (y % 256) as u8, 10]);
    let out = compose(&case, Some(&cover));
    assert_eq!(px(&out.data, 500, 68, 73), [200, 0, 0, 255]);
    assert_eq!(px(&out.data, 500, 70, 80), [200, 2, 7, 255]);
    assert_eq!(px(&out.data, 500, 412, 663), [200, (344 % 256) as u8, (590 % 256) as u8, 255]);
    assert_eq!(px(&out.data, 500, 67, 73), [0, 0, 0, 0]);
    assert_eq!(px(&out.data, 500, 413, 100), [0, 0, 0, 0]);
    assert_eq!(px(&out.data, 500, 100, 664), [0, 0, 0, 0]);
}

#[test]
fn small_case_clips_the_card() {
    let case = png(100, 100, |_, _| [5, 5, 5, 5]);
    let cover = png(4, 4, |_, _| [0, 0, 0, 9]);
    let out = compose(&case, Some(&cover));
    assert_eq!((out.width, out.height), (100, 100));
    assert_eq!(px(&out.data, 100, 99, 99), [0, 0, 0, 255]);
    assert_eq!(px(&out.data, 100, 10, 10), [5, 5, 5, 5]);
}

#[test]
fn open_case_splits_into_tray_and_lid() {
    let sprite = png(1024, 1024, |x, y| [(x % 256) as u8, (y % 256) as u8, (x / 256) as u8, (y / 256) as u8]);
    let (tray, lid, lid_flipped) = split(&sprite).unwrap();
    assert_eq!((tray.width, tray.height), (446, 687));
    assert_eq!(px(&tray.data, 446, 0, 0), [(478 % 256) as u8, 171, 1, 0]);
    assert_eq!((lid.width, lid.height), (372, 745));
    assert_eq!(px(&lid.data, 372, 0, 0), [106, 142, 0, 0]);
    assert_eq!(px(&lid_flipped.data, 372, 0, 0), px(&lid.data, 372, 371, 0));
    assert!(split(b"nope").is_none());
}

#[test]
fn decoded_or_blank_falls_back_to_one_clear_pixel() {
    let bytes = png(2, 3, |x, y| [x as u8, y as u8, 7, 255]);
    let r = decoded_or_blank(&bytes);
    assert_eq!((r.width, r.height), (2, 3));
    assert_eq!(px(&r.data, 2, 1, 2), [1, 2, 7, 255]);
    let none = decoded_or_blank(&[1, 2, 3]);
    assert_eq!((none.width, none.height), (1, 1));
    assert_eq!(none.data, vec![0, 0, 0, 0]);
}

#[test]
fn paint_card_covers_only_the_j_card() {
    let mut buf = vec![7u8; (CASE_W * CASE_H * 4) as usize];
    let (fw, fh) = (FILL_X1 - FILL_X0, FILL_Y1 - FILL_Y0);
    let cover: Vec<u8> = (0..fw * fh * 4).map(|i| (i % 251) as u8).collect();
    paint_card(&mut buf, CASE_W, CASE_H, &cover);
    assert_eq!(px(&buf, CASE_W, 0, 0), [7, 7, 7, 7]);
    assert_eq!(px(&buf, CASE_W, FILL_X1, FILL_Y0), [7, 7, 7, 7]);
    assert_eq!(px(&buf, CASE_W, FILL_X0, FILL_Y0), [0, 1, 2, 255]);
    assert_eq!(px(&buf, CASE_W, FILL_X0 + 1, FILL_Y0), [4, 5, 6, 255]);
    let last = ((fh - 1) * fw + (fw - 1)) * 4;
    assert_eq!(
        px(&buf, CASE_W, FILL_X1 - 1, FILL_Y1 - 1),
        [(last % 251) as u8, ((last + 1) % 251) as u8, ((last + 2) % 251) as u8, 255]
    );
}
