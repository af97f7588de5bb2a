use image::imageops::{crop_imm, replace};
use image::{Rgba, RgbaImage};
use ptimg::{BoundsError, Canvas, Pixel, Replacer, Vec2};

fn copy(w: u32, h: u32, sx: u32, sy: u32, dx: i64, dy: i64) -> Replacer {
    Replacer::new(Vec2::new(w, h), Vec2::new(sx, sy), Vec2::new(dx, dy))
}

fn shade(x: u32, y: u32) -> Pixel {
    Pixel {
        r: (x % 251) as u8 + 1,
        g: (y % 251) as u8 + 1,
        b: ((x * 7 + y * 13) % 256) as u8,
        a: 255 - ((x + y) % 200) as u8,
    }
}

fn shaded(width: u32, height: u32) -> Canvas {
    let mut canvas = Canvas::new(width, height).unwrap();
    for y in 0..height {
        for x in 0..width {
            assert!(canvas.put_pixel(x, y, shade(x, y)));
        }
    }
    canvas
}

fn clear() -> Pixel {
    Pixel { r: 0, g: 0, b: 0, a: 0 }
}

#[test]
fn a_new_canvas_is_clear() {
    let canvas = Canvas::new(3, 2).unwrap();
    assert_eq!(canvas.width(), 3);
    assert_eq!(canvas.height(), 2);
    for y in 0..2 {
        for x in 0..3 {
            assert_eq!(canvas.pixel(x, y), Some(clear()));
        }
    }
    assert_eq!(canvas.to_rgba8(), vec![0u8; 24]);
    assert_eq!(Pixel::transparent(), clear());
}

#[test]
fn a_canvas_has_no_pixel_outside_its_extent() {
    let mut canvas = Canvas::new(3, 2).unwrap();
    assert_eq!(canvas.pixel(3, 0), None);
    assert_eq!(canvas.pixel(0, 2), None);
    assert!(!canvas.put_pixel(3, 1, shade(1, 1)));
    assert!(!canvas.put_pixel(u32::MAX, u32::MAX, shade(1, 1)));
    assert_eq!(canvas, Canvas::new(3, 2).unwrap());
}

#[test]
fn an_empty_canvas_is_allowed() {
    let canvas = Canvas::new(0, 7).unwrap();
    assert_eq!(canvas.width(), 0);
    assert_eq!(canvas.height(), 7);
    assert_eq!(canvas.pixel(0, 0), None);
    assert!(canvas.to_rgba8().is_empty());
}

#[test]
fn a_canvas_beyond_memory_is_refused() {
    assert_eq!(Canvas::new(u32::MAX, u32::MAX), None);
    assert_eq!(Canvas::from_rgba8(u32::MAX, u32::MAX, &[]), None);
}

#[test]
fn put_pixel_changes_one_pixel() {
    let mut canvas = Canvas::new(4, 3).unwrap();
    let p = Pixel { r: 1, g: 2, b: 3, a: 4 };
    assert!(canvas.put_pixel(2, 1, p));
    for y in 0..3 {
        for x in 0..4 {
            let expected = if (x, y) == (2, 1) { p } else { clear() };
            assert_eq!(canvas.pixel(x, y), Some(expected));
        }
    }
}

#[test]
fn bytes_are_rows_of_rgba() {
    let canvas = Canvas::from_rgba8(2, 2, &[1, 2, 3, 4, 5, 6, 7, 8, 9, 10, 11, 12, 13, 14, 15, 16])
        .unwrap();
    assert_eq!(canvas.pixel(0, 0), Some(Pixel { r: 1, g: 2, b: 3, a: 4 }));
    assert_eq!(canvas.pixel(1, 0), Some(Pixel { r: 5, g: 6, b: 7, a: 8 }));
    assert_eq!(canvas.pixel(0, 1), Some(Pixel { r: 9, g: 10, b: 11, a: 12 }));
    assert_eq!(canvas.pixel(1, 1), Some(Pixel { r: 13, g: 14, b: 15, a: 16 }));
    assert_eq!(
        canvas.to_rgba8(),
        vec![1, 2, 3, 4, 5, 6, 7, 8, 9, 10, 11, 12, 13, 14, 15, 16]
    );
}

#[test]
fn bytes_must_match_the_extent() {
    assert_eq!(Canvas::from_rgba8(2, 2, &[0; 15]), None);
    assert_eq!(Canvas::from_rgba8(2, 2, &[0; 17]), None);
    assert_eq!(Canvas::from_rgba8(1, 1, &[]), None);
    assert_eq!(Canvas::from_rgba8(0, 5, &[]), Canvas::new(0, 5));
}

#[test]
fn the_bytes_of_a_canvas_make_the_canvas_again() {
    let canvas = shaded(7, 5);
    let bytes = canvas.to_rgba8();
    assert_eq!(bytes.len(), 4 * 7 * 5);
    let again = Canvas::from_rgba8(7, 5, &bytes).unwrap();
    assert_eq!(again, canvas);
    assert_eq!(again.to_rgba8(), bytes);
}

#[test]
fn a_clone_is_equal() {
    let canvas = shaded(5, 4);
    assert_eq!(canvas.clone(), canvas);
}

#[test]
fn copies_a_rectangle_pixel_for_pixel() {
    let source = shaded(8, 8);
    let mut canvas = Canvas::new(6, 5).unwrap();
    assert_eq!(copy(3, 2, 4, 5, 1, 2).apply(&source, &mut canvas), Ok(()));
    for y in 0..5u32 {
        for x in 0..6u32 {
            let expected = if (1..4).contains(&x) && (2..4).contains(&y) {
                shade(x - 1 + 4, y - 2 + 5)
            } else {
                clear()
            };
            assert_eq!(canvas.pixel(x, y), Some(expected));
        }
    }
}

#[test]
fn clips_a_copy_that_starts_off_canvas() {
    let source = shaded(10, 10);
    let mut canvas = Canvas::new(10, 10).unwrap();
    assert_eq!(copy(10, 10, 0, 0, -5, -5).apply(&source, &mut canvas), Ok(()));
    for y in 0..10u32 {
        for x in 0..10u32 {
            let expected = if x < 5 && y < 5 { shade(x + 5, y + 5) } else { clear() };
            assert_eq!(canvas.pixel(x, y), Some(expected));
        }
    }
}

#[test]
fn clips_a_copy_that_runs_off_the_far_edges() {
    let source = shaded(10, 10);
    let mut canvas = Canvas::new(10, 10).unwrap();
    assert_eq!(copy(10, 10, 0, 0, 7, 8).apply(&source, &mut canvas), Ok(()));
    for y in 0..10u32 {
        for x in 0..10u32 {
            let expected = if x >= 7 && y >= 8 { shade(x - 7, y - 8) } else { clear() };
            assert_eq!(canvas.pixel(x, y), Some(expected));
        }
    }
}

#[test]
fn clips_the_documented_example_at_the_top() {
    let source = shaded(256, 256);
    let mut canvas = Canvas::new(512, 256).unwrap();
    assert_eq!(copy(256, 256, 0, 0, 128, -64).apply(&source, &mut canvas), Ok(()));
    assert_eq!(canvas.pixel(127, 0), Some(clear()));
    assert_eq!(canvas.pixel(128, 0), Some(shade(0, 64)));
    assert_eq!(canvas.pixel(383, 191), Some(shade(255, 255)));
    assert_eq!(canvas.pixel(384, 191), Some(clear()));
    assert_eq!(canvas.pixel(383, 192), Some(clear()));
}

#[test]
fn a_copy_wholly_off_canvas_changes_nothing() {
    let source = shaded(4, 4);
    let before = shaded(6, 6);
    let placements = [
        (-4, 0),
        (0, -4),
        (6, 0),
        (0, 6),
        (i64::MIN, i64::MIN),
        (i64::MAX, i64::MAX),
        (i64::MIN, 0),
        (0, i64::MAX),
    ];
    for (dx, dy) in placements {
        let mut canvas = before.clone();
        assert_eq!(copy(4, 4, 0, 0, dx, dy).apply(&source, &mut canvas), Ok(()));
        assert_eq!(canvas, before);
    }
}

#[test]
fn an_empty_rectangle_changes_nothing() {
    let source = shaded(4, 4);
    let mut canvas = shaded(6, 6);
    assert_eq!(copy(0, 3, 1, 1, 2, 2).apply(&source, &mut canvas), Ok(()));
    assert_eq!(copy(3, 0, 1, 1, 2, 2).apply(&source, &mut canvas), Ok(()));
    assert_eq!(copy(0, 0, 4, 4, 0, 0).apply(&source, &mut canvas), Ok(()));
    assert_eq!(canvas, shaded(6, 6));
}

#[test]
fn a_rectangle_beyond_its_source_is_refused() {
    let source = shaded(4, 3);
    let before = shaded(6, 6);
    let mut canvas = before.clone();
    let wide = copy(3, 1, 2, 0, 0, 0);
    assert_eq!(
        wide.apply(&source, &mut canvas),
        Err(BoundsError {
            src: Vec2::new(2, 0),
            size: Vec2::new(3, 1),
            extent: Vec2::new(4, 3),
        })
    );
    assert_eq!(canvas, before);
    let tall = copy(1, 2, 0, 2, 0, 0);
    assert!(tall.apply(&source, &mut canvas).is_err());
    let far = copy(0, 0, 5, 0, 0, 0);
    assert!(far.apply(&source, &mut canvas).is_err());
    let huge = copy(u32::MAX, u32::MAX, u32::MAX, u32::MAX, 0, 0);
    assert!(huge.apply(&source, &mut canvas).is_err());
    assert_eq!(canvas, before);
    let exact = copy(4, 3, 0, 0, 0, 0);
    assert_eq!(exact.apply(&source, &mut canvas), Ok(()));
}

#[test]
fn a_copy_overwrites_every_channel() {
    let source = Canvas::from_rgba8(1, 1, &[9, 8, 7, 0]).unwrap();
    let mut canvas = Canvas::from_rgba8(1, 1, &[200, 200, 200, 255]).unwrap();
    assert_eq!(copy(1, 1, 0, 0, 0, 0).apply(&source, &mut canvas), Ok(()));
    assert_eq!(canvas.to_rgba8(), vec![9, 8, 7, 0]);
}

#[test]
fn the_later_copy_shows_where_two_overlap() {
    let first = shaded(4, 4);
    let second = Canvas::from_rgba8(2, 2, &[50; 16]).unwrap();
    let mut canvas = Canvas::new(4, 4).unwrap();
    assert_eq!(copy(4, 4, 0, 0, 0, 0).apply(&first, &mut canvas), Ok(()));
    assert_eq!(copy(2, 2, 0, 0, 1, 1).apply(&second, &mut canvas), Ok(()));
    let fifty = Pixel { r: 50, g: 50, b: 50, a: 50 };
    for y in 0..4u32 {
        for x in 0..4u32 {
            let expected = if (1..3).contains(&x) && (1..3).contains(&y) {
                fifty
            } else {
                shade(x, y)
            };
            assert_eq!(canvas.pixel(x, y), Some(expected));
        }
    }
    let mut reversed = Canvas::new(4, 4).unwrap();
    assert_eq!(copy(2, 2, 0, 0, 1, 1).apply(&second, &mut reversed), Ok(()));
    assert_eq!(copy(4, 4, 0, 0, 0, 0).apply(&first, &mut reversed), Ok(()));
    assert_eq!(reversed, first);
}

#[test]
fn the_source_is_left_as_it_was() {
    let source = shaded(5, 5);
    let mut canvas = Canvas::new(5, 5).unwrap();
    assert_eq!(copy(5, 5, 0, 0, -2, 3).apply(&source, &mut canvas), Ok(()));
    assert_eq!(source, shaded(5, 5));
}

fn as_image(canvas: &Canvas) -> RgbaImage {
    RgbaImage::from_raw(canvas.width(), canvas.height(), canvas.to_rgba8()).unwrap()
}

#[test]
fn agrees_with_replace_of_a_cropped_view() {
    let source = shaded(9, 7);
    let placements = [
        (0i64, 0i64),
        (-3, -2),
        (4, 5),
        (-9, 0),
        (0, -7),
        (7, 1),
        (1, 6),
        (-1, 4),
        (100, 100),
        (-100, -100),
        (i64::MAX, 0),
        (0, i64::MIN),
    ];
    let rectangles = [(9u32, 7u32, 0u32, 0u32), (3, 2, 1, 1), (1, 7, 8, 0), (9, 1, 0, 6), (0, 0, 9, 7), (5, 5, 4, 2)];
    for (dx, dy) in placements {
        for (w, h, sx, sy) in rectangles {
            let mut canvas = shaded(8, 6);
            let mut expected = as_image(&canvas);
            let top = as_image(&source);
            let part = crop_imm(&top, sx, sy, w, h);
            replace(&mut expected, &*part, dx, dy);
            assert_eq!(copy(w, h, sx, sy, dx, dy).apply(&source, &mut canvas), Ok(()));
            assert_eq!(canvas.to_rgba8(), expected.into_raw());
        }
    }
}

#[test]
fn a_new_canvas_is_what_the_image_crate_allocates() {
    let canvas = Canvas::new(5, 3).unwrap();
    let image = RgbaImage::new(5, 3);
    assert_eq!(image.get_pixel(4, 2), &Rgba([0, 0, 0, 0]));
    assert_eq!(canvas.to_rgba8(), image.into_raw());
}
