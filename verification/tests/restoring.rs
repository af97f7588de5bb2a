use std::collections::HashMap;

use ptimg::{
    BoundsError, Canvas, ParseError, ParseErrorKind, Pixel, Ptimg, RenderError, Resource,
    RestoreError, Sources, Vec2, View,
};

fn tone(x: u32, y: u32) -> Pixel {
    Pixel {
        r: (x % 255) as u8 + 1,
        g: (y % 255) as u8 + 1,
        b: ((x + 3 * y) % 256) as u8,
        a: 255,
    }
}

fn toned(width: u32, height: u32) -> Canvas {
    let mut canvas = Canvas::new(width, height).unwrap();
    for y in 0..height {
        for x in 0..width {
            assert!(canvas.put_pixel(x, y, tone(x, y)));
        }
    }
    canvas
}

fn flat(width: u32, height: u32, value: u8) -> Canvas {
    let bytes = vec![value; 4 * (width as usize) * (height as usize)];
    Canvas::from_rgba8(width, height, &bytes).unwrap()
}

fn clear() -> Pixel {
    Pixel { r: 0, g: 0, b: 0, a: 0 }
}

fn view(width: u32, height: u32, coords: &[&str]) -> View {
    View {
        width,
        height,
        coords: coords.iter().map(|c| c.to_string()).collect(),
    }
}

fn descriptor(views: Vec<View>) -> Ptimg {
    let mut resources = HashMap::new();
    resources.insert(
        "tile".to_string(),
        Resource {
            src: "tile.jpg".to_string(),
            width: 64,
            height: 64,
        },
    );
    Ptimg {
        ptimg_version: 1,
        resources,
        views,
    }
}

#[test]
fn restores_the_two_quadrants_of_the_example() {
    let tile = toned(64, 64);
    let pt = descriptor(vec![view(
        64,
        64,
        &["tile:32,32+0,0>0,0", "tile:32,32+32,32>32,32"],
    )]);
    let mut sources = Sources::new();
    sources.bind("tile".to_string(), tile.clone());
    let canvases = pt.restore(&sources).unwrap();
    assert_eq!(canvases.len(), 1);
    let canvas = &canvases[0];
    assert_eq!((canvas.width(), canvas.height()), (64, 64));
    for y in 0..64u32 {
        for x in 0..64u32 {
            let expected = if (x < 32) == (y < 32) { tile.pixel(x, y).unwrap() } else { clear() };
            assert_eq!(canvas.pixel(x, y), Some(expected));
        }
    }
}

#[test]
fn restoring_twice_gives_the_same_bytes() {
    let pt = descriptor(vec![
        view(64, 64, &["tile:32,32+0,0>0,0", "tile:40,40+10,10>-5,30"]),
        view(16, 8, &["tile:64,64+0,0>-20,-20"]),
    ]);
    let sources = Sources::uniform(toned(64, 64));
    let once = pt.restore(&sources).unwrap();
    let again = pt.restore(&sources).unwrap();
    assert_eq!(once, again);
    assert_eq!(once.len(), 2);
    for (a, b) in once.iter().zip(again.iter()) {
        assert_eq!(a.to_rgba8(), b.to_rgba8());
    }
}

#[test]
fn renders_one_canvas_for_each_view_in_order() {
    let pt = descriptor(vec![
        view(2, 1, &["tile:2,1+0,0>0,0"]),
        view(1, 3, &[]),
        view(3, 3, &["tile:1,1+5,6>1,1"]),
    ]);
    let sources = Sources::uniform(toned(8, 8));
    let canvases = pt.restore(&sources).unwrap();
    assert_eq!(canvases.len(), 3);
    assert_eq!(canvases[0].pixel(1, 0), Some(tone(1, 0)));
    assert_eq!(canvases[1], Canvas::new(1, 3).unwrap());
    assert_eq!(canvases[2].pixel(1, 1), Some(tone(5, 6)));
    assert_eq!(canvases[2].pixel(0, 0), Some(clear()));
    assert_eq!(pt.views[0].render(&sources).as_ref(), Ok(&canvases[0]));
}

#[test]
fn a_canvas_has_the_extent_of_its_view() {
    let sources = Sources::uniform(toned(8, 8));
    let canvas = view(5, 9, &["tile:8,8+0,0>-1,-1"]).render(&sources).unwrap();
    assert_eq!((canvas.width(), canvas.height()), (5, 9));
    assert_eq!(canvas.to_rgba8().len(), 4 * 5 * 9);
}

#[test]
fn a_descriptor_without_views_restores_to_nothing() {
    let pt = descriptor(vec![]);
    assert_eq!(pt.restore(&Sources::new()), Ok(vec![]));
}

#[test]
fn a_view_without_instructions_is_clear() {
    let canvas = view(3, 2, &[]).render(&Sources::new()).unwrap();
    assert_eq!(canvas, Canvas::new(3, 2).unwrap());
}

#[test]
fn instructions_apply_in_list_order() {
    let mut sources = Sources::new();
    sources.bind("a".to_string(), flat(4, 4, 10));
    sources.bind("b".to_string(), flat(4, 4, 20));
    let ab = view(4, 4, &["a:4,4+0,0>0,0", "b:2,2+0,0>1,1"]).render(&sources).unwrap();
    let ba = view(4, 4, &["b:2,2+0,0>1,1", "a:4,4+0,0>0,0"]).render(&sources).unwrap();
    assert_eq!(ab.pixel(1, 1), Some(Pixel { r: 20, g: 20, b: 20, a: 20 }));
    assert_eq!(ab.pixel(0, 0), Some(Pixel { r: 10, g: 10, b: 10, a: 10 }));
    assert_eq!(ba, flat(4, 4, 10));
}

#[test]
fn each_key_resolves_to_its_own_source() {
    let mut sources = Sources::new();
    sources.bind("left".to_string(), flat(2, 2, 1));
    sources.bind("right".to_string(), flat(2, 2, 2));
    let canvas = view(4, 2, &["left:2,2+0,0>0,0", "right:2,2+0,0>2,0"])
        .render(&sources)
        .unwrap();
    assert_eq!(canvas.pixel(1, 1), Some(Pixel { r: 1, g: 1, b: 1, a: 1 }));
    assert_eq!(canvas.pixel(2, 0), Some(Pixel { r: 2, g: 2, b: 2, a: 2 }));
}

#[test]
fn the_last_binding_of_a_key_holds() {
    let mut sources = Sources::uniform(flat(1, 1, 9));
    assert_eq!(sources.find("k"), Some(&flat(1, 1, 9)));
    sources.bind("k".to_string(), flat(1, 1, 1));
    sources.bind("other".to_string(), flat(1, 1, 3));
    sources.bind("k".to_string(), flat(1, 1, 2));
    assert_eq!(sources.find("k"), Some(&flat(1, 1, 2)));
    assert_eq!(sources.find("other"), Some(&flat(1, 1, 3)));
    assert_eq!(sources.find("unbound"), Some(&flat(1, 1, 9)));
    assert_eq!(Sources::new().find("k"), None);
}

#[test]
fn a_malformed_instruction_fails_the_view() {
    let sources = Sources::uniform(toned(8, 8));
    let result = view(4, 4, &["tile:1,1+0,0>0,0", "tile:1,1+0,0>0,0x"]).render(&sources);
    assert_eq!(
        result,
        Err(RenderError::Parse {
            index: 1,
            error: ParseError {
                kind: ParseErrorKind::TrailingInput,
                position: 16,
            },
        })
    );
}

#[test]
fn an_unknown_key_fails_the_view() {
    let mut sources = Sources::new();
    sources.bind("tile".to_string(), toned(8, 8));
    let result = view(4, 4, &["tile:1,1+0,0>0,0", "tile:1,1+0,0>1,1", "other:1,1+0,0>0,0"])
        .render(&sources);
    assert_eq!(result, Err(RenderError::Resolution { index: 2 }));
}

#[test]
fn a_rectangle_beyond_the_source_fails_the_view() {
    let sources = Sources::uniform(toned(8, 8));
    let result = view(4, 4, &["tile:8,8+1,0>0,0"]).render(&sources);
    assert_eq!(
        result,
        Err(RenderError::Bounds {
            index: 0,
            bounds: BoundsError {
                src: Vec2::new(1, 0),
                size: Vec2::new(8, 8),
                extent: Vec2::new(8, 8),
            },
        })
    );
}

#[test]
fn a_view_beyond_memory_fails() {
    let sources = Sources::uniform(toned(8, 8));
    let result = view(u32::MAX, u32::MAX, &["tile:1,1+0,0>0,0"]).render(&sources);
    assert_eq!(result, Err(RenderError::Oversize));
}

#[test]
fn the_first_failing_view_is_reported() {
    let sources = Sources::uniform(toned(8, 8));
    let pt = descriptor(vec![
        view(2, 2, &["tile:2,2+0,0>0,0"]),
        view(2, 2, &["tile:2,2+0,0>0,0", "tile:9,9+0,0>0,0"]),
        view(2, 2, &["broken"]),
    ]);
    assert_eq!(
        pt.restore(&sources),
        Err(RestoreError {
            view: 1,
            error: RenderError::Bounds {
                index: 1,
                bounds: BoundsError {
                    src: Vec2::new(0, 0),
                    size: Vec2::new(9, 9),
                    extent: Vec2::new(8, 8),
                },
            },
        })
    );
}

#[test]
fn the_first_failing_instruction_is_reported() {
    let sources = Sources::new();
    let result = view(2, 2, &["nokey:1,1+0,0>0,0", "bro ken"]).render(&sources);
    assert_eq!(result, Err(RenderError::Resolution { index: 0 }));
}
