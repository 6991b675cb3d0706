use linez::canvas::{Color, Image, Point};
use linez::search::tick;

fn checkerboard(width: u32, height: u32) -> Image {
    let mut img = Image::blank(width, height);
    for y in 0..height {
        for x in 0..width {
            if (x + y) % 2 == 0 {
                *img.color_at_mut(Point { x, y }) = Color { r: 200, g: 40, b: 90 };
            }
        }
    }
    img
}

#[test]
fn tick_never_increases_total_loss() {
    let target = checkerboard(8, 8);
    let mut approx = Image::blank(8, 8);
    let mut rng = rand::thread_rng();
    let mut last = Image::total_loss(&target, &approx);
    for _ in 0..500 {
        let improved = tick(&mut rng, &target, &mut approx);
        let now = Image::total_loss(&target, &approx);
        assert!(now <= last, "loss went up: {} -> {}", last, now);
        if improved {
            assert!(now < last, "improvement reported but loss stayed {}", last);
        } else {
            assert_eq!(now, last);
        }
        last = now;
    }
}

#[test]
fn tick_eventually_improves_a_solid_target() {
    let mut target = Image::blank(4, 4);
    for y in 0..4 {
        for x in 0..4 {
            *target.color_at_mut(Point { x, y }) = Color { r: 100, g: 150, b: 200 };
        }
    }
    let mut approx = Image::blank(4, 4);
    let mut rng = rand::thread_rng();
    let before = Image::total_loss(&target, &approx);
    for _ in 0..2000 {
        tick(&mut rng, &target, &mut approx);
    }
    let after = Image::total_loss(&target, &approx);
    assert!(after < before);
}
