use tilestream::bitmap::{crop, flip_vertical, Bitmap};

/// A small bitmap whose pixel (x, y) is (x, y, 0, 255).
fn grid(w: u32, h: u32) -> Bitmap {
    let mut pixels = Vec::new();
    for y in 0..h {
        for x in 0..w {
            pixels.extend_from_slice(&[x as u8, y as u8, 0, 255]);
        }
    }
    Bitmap {
        width: w,
        height: h,
        pixels,
    }
}

fn pixel_at(b: &Bitmap, x: u32, y: u32) -> [u8; 4] {
    let i = (4 * (y * b.width + x)) as usize;
    [b.pixels[i], b.pixels[i + 1], b.pixels[i + 2], b.pixels[i + 3]]
}

#[test]
fn crop_takes_the_requested_square() {
    let src = grid(16, 16);
    let c = crop(&src, 4, 6, 8);
    assert_eq!((c.width, c.height), (8, 8));
    assert_eq!(c.pixels.len(), 4 * 8 * 8);
    for y in 0..8 {
        for x in 0..8 {
            assert_eq!(pixel_at(&c, x, y), [(4 + x) as u8, (6 + y) as u8, 0, 255]);
        }
    }
}

#[test]
fn crop_of_full_frame_is_identity() {
    let src = grid(8, 8);
    let c = crop(&src, 0, 0, 8);
    assert_eq!(c.pixels, src.pixels);
}

#[test]
fn flip_reverses_scanlines() {
    let src = grid(3, 2);
    let f = flip_vertical(&src);
    assert_eq!((f.width, f.height), (3, 2));
    for x in 0..3 {
        assert_eq!(pixel_at(&f, x, 0), [x as u8, 1, 0, 255]);
        assert_eq!(pixel_at(&f, x, 1), [x as u8, 0, 0, 255]);
    }
}

#[test]
fn flip_twice_is_identity() {
    let src = grid(5, 4);
    let f = flip_vertical(&flip_vertical(&src));
    assert_eq!(f.pixels, src.pixels);
}
