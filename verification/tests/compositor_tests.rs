use screencap::bitmap::Image;
use screencap::cache::{DisplayCache, GREEN_OUTLINE, RED_OUTLINE};
use screencap::fsm::State;
use screencap::geom::{Point, Rect};

fn image_from(w: u32, h: u32, pixel: [u8; 4]) -> Image {
    let mut pixels = Vec::new();
    for _ in 0..(w * h) {
        pixels.extend_from_slice(&pixel);
    }
    Image::new(w, h, pixels).unwrap()
}

fn at(cache: &DisplayCache, x: u32, y: u32) -> u32 {
    cache.composite[(y * cache.width + x) as usize]
}

#[test]
fn packs_original_pixels() {
    let img = image_from(2, 1, [100, 200, 50, 255]);
    let cache = DisplayCache::new(&img);
    let expected = (255u32 << 24) | (100u32 << 16) | (200u32 << 8) | 50u32;
    assert_eq!(cache.original, vec![expected, expected]);
}

#[test]
fn dims_with_integer_weights() {
    // gray = (3*100 + 6*200 + 50) / 10 = 155;
    // channels move to 30% of themselves plus 70% of gray.
    let img = image_from(1, 1, [100, 200, 50, 255]);
    let cache = DisplayCache::new(&img);
    let dr = (3 * 100 + 7 * 155) / 10; // 138
    let dg = (3 * 200 + 7 * 155) / 10; // 168
    let db = (3 * 50 + 7 * 155) / 10; // 123
    let expected = (255u32 << 24) | ((dr as u32) << 16) | ((dg as u32) << 8) | db as u32;
    assert_eq!(cache.dimmed, vec![expected]);
}

#[test]
fn no_selection_shows_original() {
    let img = image_from(4, 3, [9, 8, 7, 255]);
    let mut cache = DisplayCache::new(&img);
    cache.update_display(Some(Rect { x: 0, y: 0, w: 4, h: 3 }), None);
    cache.update_display(None, None);
    assert_eq!(cache.composite, cache.original);
}

#[test]
fn red_selection_composites_pixelwise() {
    let img = image_from(10, 10, [100, 200, 50, 255]);
    let mut cache = DisplayCache::new(&img);
    let red = Rect { x: 2, y: 2, w: 5, h: 5 };
    cache.update_display(Some(red), None);
    // Strictly inside the red rectangle, off its border: original.
    assert_eq!(at(&cache, 4, 4), cache.original[44]);
    // Strictly outside: dimmed.
    assert_eq!(at(&cache, 0, 0), cache.dimmed[0]);
    assert_eq!(at(&cache, 9, 9), cache.dimmed[99]);
    // On the border: the red outline colour.
    assert_eq!(at(&cache, 2, 2), RED_OUTLINE); // top-left corner
    assert_eq!(at(&cache, 6, 4), RED_OUTLINE); // right edge
    assert_eq!(at(&cache, 4, 6), RED_OUTLINE); // bottom edge
}

#[test]
fn green_outline_paints_over_red_area() {
    let img = image_from(10, 10, [100, 200, 50, 255]);
    let mut cache = DisplayCache::new(&img);
    let red = Rect { x: 2, y: 2, w: 6, h: 6 };
    let green = Rect { x: 3, y: 3, w: 3, h: 3 };
    cache.update_display(Some(red), Some(green));
    assert_eq!(at(&cache, 3, 3), GREEN_OUTLINE);
    assert_eq!(at(&cache, 5, 4), GREEN_OUTLINE); // green right edge
    assert_eq!(at(&cache, 2, 2), RED_OUTLINE);
    // Inside red but outside the green outline: original.
    assert_eq!(at(&cache, 6, 6), cache.original[66]);
    // Outside red: dimmed.
    assert_eq!(at(&cache, 9, 0), cache.dimmed[9]);
}

#[test]
fn out_of_bounds_rectangle_is_clipped() {
    let img = image_from(6, 6, [100, 200, 50, 255]);
    let mut cache = DisplayCache::new(&img);
    // Only the bottom-right quarter of this rectangle lies on the grid.
    cache.update_display(Some(Rect { x: -3, y: -3, w: 6, h: 6 }), None);
    // (2, 2) is the rectangle's bottom-right corner: outline.
    assert_eq!(at(&cache, 2, 2), RED_OUTLINE);
    assert_eq!(at(&cache, 0, 2), RED_OUTLINE); // bottom row, clipped left
    // Inside the clipped area, off the outline: original.
    assert_eq!(at(&cache, 0, 0), cache.original[0]);
    // Outside: dimmed.
    assert_eq!(at(&cache, 5, 5), cache.dimmed[35]);
}

#[test]
fn rebuilding_composite_is_idempotent() {
    let img = image_from(8, 8, [100, 200, 50, 255]);
    let mut cache = DisplayCache::new(&img);
    let red = Rect { x: 1, y: 1, w: 5, h: 5 };
    let green = Rect { x: 2, y: 2, w: 2, h: 2 };
    cache.update_display(Some(red), Some(green));
    let first = cache.composite.clone();
    cache.update_display(Some(red), Some(green));
    assert_eq!(cache.composite, first);
}

#[test]
fn dimmed_is_a_pure_function_of_the_image() {
    let img = image_from(5, 4, [100, 200, 50, 255]);
    let c1 = DisplayCache::new(&img);
    let c2 = DisplayCache::new(&img);
    assert_eq!(c1.dimmed, c2.dimmed);
    assert_eq!(c1.original, c2.original);
}

#[test]
fn draw_rectangle_writes_only_in_bounds() {
    let img = image_from(4, 4, [100, 200, 50, 255]);
    let mut cache = DisplayCache::new(&img);
    let before = cache.composite.clone();
    // Entirely off the grid: nothing changes.
    cache.draw_rectangle(Rect { x: 10, y: 10, w: 3, h: 3 }, RED_OUTLINE);
    assert_eq!(cache.composite, before);
    // Partially off the grid: only the on-grid edge cells are painted.
    cache.draw_rectangle(Rect { x: 3, y: 3, w: 4, h: 4 }, RED_OUTLINE);
    assert_eq!(at(&cache, 3, 3), RED_OUTLINE);
    assert_eq!(at(&cache, 0, 0), before[0]);
}

#[test]
fn render_shows_the_drag_rectangle() {
    let img = image_from(10, 10, [100, 200, 50, 255]);
    let cache = DisplayCache::new(&img);
    let mut state = State::DraggingRed {
        img,
        cache,
        anchor: Point::new(2, 2),
        cursor: Point::new(7, 7),
    };
    state.render();
    match &state {
        State::DraggingRed { cache, .. } => {
            // The drag spans (2,2) with extent 5: its outline is drawn.
            assert_eq!(cache.composite[(2 * 10 + 2) as usize], RED_OUTLINE);
            assert_eq!(cache.composite[(4 * 10 + 4) as usize], cache.original[44]);
            assert_eq!(cache.composite[0], cache.dimmed[0]);
        },
        _ => panic!("the drag state stays a drag state"),
    }
}

#[test]
fn render_in_full_shows_the_original() {
    let img = image_from(6, 6, [1, 2, 3, 255]);
    let cache = DisplayCache::new(&img);
    let mut state = State::Full { img, cache };
    state.render();
    match &state {
        State::Full { cache, .. } => {
            assert_eq!(cache.composite, cache.original);
        },
        _ => panic!("the full state stays the full state"),
    }
}
