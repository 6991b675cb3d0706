use linez::canvas::{Color, Image, Point};

fn red() -> Color {
    Color { r: 255, g: 0, b: 0 }
}

fn black() -> Color {
    Color { r: 0, g: 0, b: 0 }
}

fn solid(width: u32, height: u32, c: Color) -> Image {
    let mut img = Image::blank(width, height);
    for y in 0..height {
        for x in 0..width {
            *img.color_at_mut(Point { x, y }) = c;
        }
    }
    img
}

#[test]
fn compose_picks_the_per_pixel_winner() {
    let target = solid(2, 2, red());
    let mut better_at_origin = Image::blank(2, 2);
    *better_at_origin.color_at_mut(Point { x: 0, y: 0 }) = red();
    let candidates = vec![Image::blank(2, 2), better_at_origin];
    let merged = Image::compose(&target, &candidates);
    assert_eq!(merged.color_at(Point { x: 0, y: 0 }), red());
    assert_eq!(merged.color_at(Point { x: 1, y: 0 }), black());
    assert_eq!(merged.color_at(Point { x: 0, y: 1 }), black());
    assert_eq!(merged.color_at(Point { x: 1, y: 1 }), black());
}

#[test]
fn composed_pixel_loss_is_never_above_any_candidate() {
    let target = Image::from_raw(2, 2, &vec![9, 8, 7, 60, 50, 40, 3, 2, 1, 100, 110, 120]);
    let a = Image::from_raw(2, 2, &vec![0, 0, 0, 64, 64, 64, 3, 2, 1, 90, 90, 90]);
    let b = Image::from_raw(2, 2, &vec![9, 9, 9, 10, 10, 10, 200, 200, 200, 120, 120, 120]);
    let c = Image::from_raw(2, 2, &vec![50, 50, 50, 60, 50, 40, 0, 0, 0, 0, 0, 0]);
    let candidates = vec![a, b, c];
    let merged = Image::compose(&target, &candidates);
    for y in 0..2 {
        for x in 0..2 {
            let p = Point { x, y };
            let merged_loss = Image::pixel_loss(target.color_at(p), merged.color_at(p));
            for cand in &candidates {
                let cand_loss = Image::pixel_loss(target.color_at(p), cand.color_at(p));
                assert!(merged_loss <= cand_loss);
            }
        }
    }
}

#[test]
fn compose_breaks_ties_by_candidate_order() {
    // Both candidates are equally far from the target at every pixel, so the
    // first one must win everywhere.
    let target = solid(2, 1, Color { r: 10, g: 0, b: 0 });
    let first = solid(2, 1, Color { r: 0, g: 0, b: 0 });
    let second = solid(2, 1, Color { r: 20, g: 0, b: 0 });
    let merged = Image::compose(&target, &vec![first, second]);
    assert_eq!(merged.color_at(Point { x: 0, y: 0 }), Color { r: 0, g: 0, b: 0 });
    assert_eq!(merged.color_at(Point { x: 1, y: 0 }), Color { r: 0, g: 0, b: 0 });
}

#[test]
fn compose_of_a_single_candidate_is_that_candidate() {
    let target = solid(3, 2, red());
    let mut cand = Image::blank(3, 2);
    *cand.color_at_mut(Point { x: 2, y: 1 }) = Color { r: 1, g: 2, b: 3 };
    let merged = Image::compose(&target, &vec![cand]);
    for y in 0..2 {
        for x in 0..3 {
            let p = Point { x, y };
            let expected = if (x, y) == (2, 1) {
                Color { r: 1, g: 2, b: 3 }
            } else {
                black()
            };
            assert_eq!(merged.color_at(p), expected);
        }
    }
}
