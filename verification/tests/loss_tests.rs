use linez::canvas::{Color, Image, Point};

fn solid(width: u32, height: u32, c: Color) -> Image {
    let mut img = Image::blank(width, height);
    for y in 0..height {
        for x in 0..width {
            *img.color_at_mut(Point { x, y }) = c;
        }
    }
    img
}

fn red() -> Color {
    Color { r: 255, g: 0, b: 0 }
}

fn black() -> Color {
    Color { r: 0, g: 0, b: 0 }
}

#[test]
fn pixel_loss_exact_values() {
    assert_eq!(Image::pixel_loss(red(), black()), 65025);
    assert_eq!(Image::pixel_loss(red(), Color { r: 0, g: 255, b: 0 }), 130050);
    assert_eq!(
        Image::pixel_loss(Color { r: 10, g: 20, b: 30 }, Color { r: 13, g: 16, b: 30 }),
        9 + 16
    );
    assert_eq!(
        Image::pixel_loss(Color { r: 255, g: 255, b: 255 }, black()),
        195075
    );
}

#[test]
fn pixel_loss_symmetric_and_zero_on_self() {
    let samples = [
        black(),
        red(),
        Color { r: 1, g: 2, b: 3 },
        Color { r: 255, g: 255, b: 255 },
        Color { r: 128, g: 7, b: 200 },
    ];
    for a in samples {
        assert_eq!(Image::pixel_loss(a, a), 0);
        for b in samples {
            assert_eq!(Image::pixel_loss(a, b), Image::pixel_loss(b, a));
        }
    }
}

#[test]
fn accepted_red_line_on_black_canvas() {
    // Target: 2x2 solid red; approximation starts all black. A proposed
    // change covering pixel (0, 0) with the right color has delta -65025,
    // is accepted, and after application the pixel holds that color.
    let target = solid(2, 2, red());
    let mut approx = Image::blank(2, 2);
    let changes = vec![(Point { x: 0, y: 0 }, red())];
    let delta = Image::loss_delta(&target, &approx, &changes);
    assert_eq!(delta, -65025);
    assert!(delta < 0);
    approx.apply(&changes);
    assert_eq!(approx.color_at(Point { x: 0, y: 0 }), red());
}

#[test]
fn rejected_wrong_color_line_leaves_canvas_unchanged() {
    // Same target, but the proposed color is wrong: the delta is +65025, so
    // the proposal is discarded and the canvas stays black.
    let target = solid(2, 2, red());
    let mut approx = Image::blank(2, 2);
    let changes = vec![(Point { x: 0, y: 0 }, Color { r: 0, g: 255, b: 0 })];
    let delta = Image::loss_delta(&target, &approx, &changes);
    assert_eq!(delta, 65025);
    if delta < 0 {
        approx.apply(&changes);
    }
    for y in 0..2 {
        for x in 0..2 {
            assert_eq!(approx.color_at(Point { x, y }), black());
        }
    }
}

#[test]
fn loss_delta_matches_recomputed_per_pixel_losses() {
    let target = Image::from_raw(2, 2, &vec![9, 8, 7, 6, 5, 4, 3, 2, 1, 0, 1, 2]);
    let approx_bytes: Vec<u8> = vec![0, 0, 0, 10, 10, 10, 20, 20, 20, 30, 30, 30];
    let mut approx = Image::from_raw(2, 2, &approx_bytes);
    let changes = vec![
        (Point { x: 0, y: 0 }, Color { r: 9, g: 9, b: 9 }),
        (Point { x: 1, y: 1 }, Color { r: 1, g: 1, b: 1 }),
    ];
    let delta = Image::loss_delta(&target, &approx, &changes);
    let before: Vec<u32> = changes
        .iter()
        .map(|(p, _)| Image::pixel_loss(target.color_at(*p), approx.color_at(*p)))
        .collect();
    approx.apply(&changes);
    let after: Vec<u32> = changes
        .iter()
        .map(|(p, _)| Image::pixel_loss(target.color_at(*p), approx.color_at(*p)))
        .collect();
    let recomputed: i64 = after
        .iter()
        .zip(before.iter())
        .map(|(a, b)| *a as i64 - *b as i64)
        .sum();
    assert_eq!(delta, recomputed);
}

#[test]
fn total_loss_sums_every_pixel() {
    let target = solid(2, 2, red());
    let approx = Image::blank(2, 2);
    assert_eq!(Image::total_loss(&target, &approx), 4 * 65025);
    assert_eq!(Image::total_loss(&target, &target), 0);
}
