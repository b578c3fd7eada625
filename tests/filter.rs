use blur::{apply_box_kernel, blur, blur_pixels, check_kernel_size, Color, InputError, PixelGrid, MAX_KERNEL_SIZE};

fn grey(v: u8) -> Color {
    Color::new(v, v, v, 255)
}

/// A grid whose channels differ from pixel to pixel.
fn patterned(width: u32, height: u32) -> PixelGrid {
    let mut pixels = Vec::new();
    for y in 0..height {
        for x in 0..width {
            let r = ((x * 37 + y * 11) % 256) as u8;
            let g = ((x * 5 + y * 71 + 3) % 256) as u8;
            let b = ((x * y * 13 + 7) % 256) as u8;
            let a = ((x + y * 3) % 256) as u8;
            pixels.push(Color::new(r, g, b, a));
        }
    }
    PixelGrid::from_pixels(width, height, pixels).unwrap()
}

fn same_size(a: &PixelGrid, b: &PixelGrid) -> bool {
    a.width() == b.width() && a.height() == b.height()
}

#[test]
fn center_pixel_scenario() {
    let mut img = PixelGrid::filled(5, 5, Color::new(100, 100, 100, 255));
    img.put_pixel(2, 2, Color::new(0, 0, 0, 255));
    let out = blur(&img, 3).unwrap();
    assert_eq!(out.get_pixel(2, 2), Color::new(88, 88, 88, 255));
    for y in 0..5 {
        for x in 0..5 {
            let inner = (1..4).contains(&x) && (1..4).contains(&y);
            if inner {
                // every inner window holds the dark center once: 800 / 9
                assert_eq!(out.get_pixel(x, y), Color::new(88, 88, 88, 255));
            } else {
                assert_eq!(out.get_pixel(x, y), Color::new(100, 100, 100, 255));
            }
        }
    }
}

#[test]
fn border_band_is_left_unchanged() {
    let img = patterned(9, 7);
    let k: u32 = 5;
    let out = blur(&img, k).unwrap();
    let half = k / 2;
    for y in 0..7 {
        for x in 0..9 {
            if x < half || x >= 9 - half || y < half || y >= 7 - half {
                assert_eq!(out.get_pixel(x, y), img.get_pixel(x, y));
            }
        }
    }
}

#[test]
fn alpha_is_carried_over() {
    let img = patterned(8, 8);
    for k in 1..6 {
        let out = blur(&img, k).unwrap();
        for y in 0..8 {
            for x in 0..8 {
                assert_eq!(out.get_pixel(x, y).a, img.get_pixel(x, y).a);
            }
        }
    }
}

#[test]
fn uniform_grid_stays_uniform() {
    for k in 1..8 {
        for v in [0u8, 255, 77] {
            let c = Color::new(v, v / 2, 255 - v, 9);
            let img = PixelGrid::filled(10, 9, c);
            let out = blur(&img, k).unwrap();
            for y in 0..9 {
                for x in 0..10 {
                    assert_eq!(out.get_pixel(x, y), c);
                }
            }
        }
    }
}

#[test]
fn dimensions_are_kept() {
    for (w, h) in [(0u32, 0u32), (1, 1), (3, 8), (8, 3), (6, 6)] {
        let img = patterned(w, h);
        for k in [1u32, 2, 3, 7, 20] {
            let out = blur(&img, k).unwrap();
            assert!(same_size(&img, &out));
        }
    }
}

#[test]
fn kernel_one_is_identity() {
    let img = patterned(6, 5);
    let out = blur(&img, 1).unwrap();
    for y in 0..5 {
        for x in 0..6 {
            assert_eq!(out.get_pixel(x, y), img.get_pixel(x, y));
        }
    }
}

#[test]
fn white_with_largest_kernel_does_not_overflow() {
    let side = MAX_KERNEL_SIZE + 1;
    let img = PixelGrid::filled(side, side, Color::new(255, 255, 255, 255));
    let center = MAX_KERNEL_SIZE / 2;
    let c = apply_box_kernel(&img, center, center, MAX_KERNEL_SIZE);
    assert_eq!(c, Color::new(255, 255, 255, 255));
}

#[test]
fn white_blur_with_largest_kernel_on_small_grid() {
    let img = PixelGrid::filled(4, 3, Color::new(255, 255, 255, 255));
    let out = blur(&img, MAX_KERNEL_SIZE).unwrap();
    assert_eq!(out.get_pixel(3, 2), Color::new(255, 255, 255, 255));
}

#[test]
fn kernel_zero_is_refused() {
    let img = patterned(4, 4);
    assert_eq!(blur(&img, 0).err(), Some(InputError::ZeroKernel));
    assert_eq!(check_kernel_size(0), Err(InputError::ZeroKernel));
}

#[test]
fn kernel_above_largest_is_refused() {
    let img = patterned(4, 4);
    assert_eq!(blur(&img, MAX_KERNEL_SIZE + 1).err(), Some(InputError::KernelTooLarge));
    assert_eq!(check_kernel_size(u32::MAX), Err(InputError::KernelTooLarge));
    assert_eq!(check_kernel_size(MAX_KERNEL_SIZE), Ok(MAX_KERNEL_SIZE));
}

#[test]
fn mean_is_floored() {
    // a 3 x 3 grid with red 0..8 in the cells: (0 + 1 + ... + 8) / 9 = 4
    // green 10 everywhere but 11 in one cell: 91 / 9 = 10
    let mut pixels = Vec::new();
    for i in 0..9u8 {
        let g = if i == 4 { 11 } else { 10 };
        pixels.push(Color::new(i, g, 200 + i * 5, 3));
    }
    let img = PixelGrid::from_pixels(3, 3, pixels).unwrap();
    let c = apply_box_kernel(&img, 1, 1, 3);
    // blue: (200 * 9 + 5 * 36) / 9 = 1980 / 9 = 220
    assert_eq!(c, Color::new(4, 10, 220, 3));
}

#[test]
fn even_kernel_averages_the_visited_square() {
    // k = 2 visits the 3 x 3 square and divides by its 9 cells
    let mut img = PixelGrid::filled(3, 3, grey(90));
    img.put_pixel(0, 0, grey(0));
    let out = blur(&img, 2).unwrap();
    assert_eq!(out.get_pixel(1, 1), grey(80));
    assert_eq!(out.get_pixel(0, 0), grey(0));
    assert_eq!(out.get_pixel(2, 2), grey(90));
}

#[test]
fn kernel_wider_than_grid_changes_nothing() {
    let img = patterned(3, 3);
    let out = blur(&img, 5).unwrap();
    for y in 0..3 {
        for x in 0..3 {
            assert_eq!(out.get_pixel(x, y), img.get_pixel(x, y));
        }
    }
}

#[test]
fn blur_pixels_reads_only_the_source() {
    // with writes going to the source, later windows would see blurred values
    let mut pixels = Vec::new();
    for i in 0..5u8 {
        pixels.push(grey(i * 60));
    }
    let img = PixelGrid::from_pixels(5, 1, pixels).unwrap();
    let single = PixelGrid::from_pixels(1, 1, vec![grey(1)]).unwrap();
    assert_eq!(blur_pixels(&single, 3).get_pixel(0, 0), grey(1));
    let mut rows = Vec::new();
    for _ in 0..3 {
        for x in 0..5 {
            rows.push(img.get_pixel(x, 0));
        }
    }
    let img3 = PixelGrid::from_pixels(5, 3, rows).unwrap();
    let out = blur_pixels(&img3, 3);
    // columns hold 0, 60, 120, 180, 240
    assert_eq!(out.get_pixel(1, 1), grey(60));
    assert_eq!(out.get_pixel(2, 1), grey(120));
    assert_eq!(out.get_pixel(3, 1), grey(180));
}

#[test]
fn from_pixels_checks_the_count() {
    assert!(PixelGrid::from_pixels(2, 2, vec![grey(1); 3]).is_none());
    assert!(PixelGrid::from_pixels(2, 2, vec![grey(1); 5]).is_none());
    let g = PixelGrid::from_pixels(2, 2, vec![grey(1), grey(2), grey(3), grey(4)]).unwrap();
    assert_eq!(g.get_pixel(1, 0), grey(2));
    assert_eq!(g.get_pixel(0, 1), grey(3));
}
