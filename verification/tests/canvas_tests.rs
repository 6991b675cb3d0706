use linez::canvas::{Color, Image, Point};

fn red() -> Color {
    Color { r: 255, g: 0, b: 0 }
}

fn black() -> Color {
    Color { r: 0, g: 0, b: 0 }
}

#[test]
fn blank_is_all_black() {
    let img = Image::blank(3, 2);
    assert_eq!(img.width, 3);
    assert_eq!(img.height, 2);
    assert_eq!(img.pixels.len(), 6);
    for y in 0..2 {
        for x in 0..3 {
            assert_eq!(img.color_at(Point { x, y }), black());
        }
    }
}

#[test]
fn color_at_mut_overwrites_one_pixel() {
    let mut img = Image::blank(2, 2);
    *img.color_at_mut(Point { x: 1, y: 0 }) = red();
    assert_eq!(img.color_at(Point { x: 1, y: 0 }), red());
    assert_eq!(img.color_at(Point { x: 0, y: 0 }), black());
    assert_eq!(img.color_at(Point { x: 0, y: 1 }), black());
    assert_eq!(img.color_at(Point { x: 1, y: 1 }), black());
}

#[test]
fn raw_round_trip_is_byte_for_byte() {
    let bytes: Vec<u8> = vec![1, 2, 3, 4, 5, 6, 7, 8, 9, 10, 11, 12];
    let img = Image::from_raw(2, 2, &bytes);
    assert_eq!(img.color_at(Point { x: 0, y: 0 }), Color { r: 1, g: 2, b: 3 });
    assert_eq!(img.color_at(Point { x: 1, y: 0 }), Color { r: 4, g: 5, b: 6 });
    assert_eq!(img.color_at(Point { x: 0, y: 1 }), Color { r: 7, g: 8, b: 9 });
    assert_eq!(img.color_at(Point { x: 1, y: 1 }), Color { r: 10, g: 11, b: 12 });
    assert_eq!(img.to_raw(), bytes);
}

#[test]
fn apply_writes_every_entry_in_order() {
    let mut img = Image::blank(2, 2);
    let changes = vec![
        (Point { x: 0, y: 0 }, red()),
        (Point { x: 1, y: 1 }, Color { r: 0, g: 255, b: 0 }),
        (Point { x: 0, y: 0 }, Color { r: 9, g: 9, b: 9 }),
    ];
    img.apply(&changes);
    assert_eq!(img.color_at(Point { x: 0, y: 0 }), Color { r: 9, g: 9, b: 9 });
    assert_eq!(img.color_at(Point { x: 1, y: 1 }), Color { r: 0, g: 255, b: 0 });
    assert_eq!(img.color_at(Point { x: 1, y: 0 }), black());
}

#[test]
fn encode_packs_big_endian_zero_r_g_b() {
    let mut img = Image::blank(2, 2);
    *img.color_at_mut(Point { x: 0, y: 0 }) = Color { r: 0x11, g: 0x22, b: 0x33 };
    *img.color_at_mut(Point { x: 1, y: 0 }) = Color { r: 0xff, g: 0x00, b: 0x00 };
    *img.color_at_mut(Point { x: 0, y: 1 }) = Color { r: 0x00, g: 0x00, b: 0xab };
    let mut buf: Vec<u32> = vec![0; 4];
    img.encode(&mut buf);
    assert_eq!(buf, vec![0x00112233, 0x00ff0000, 0x000000ab, 0x00000000]);
    for (value, expected) in buf.iter().zip([
        u32::from_be_bytes([0, 0x11, 0x22, 0x33]),
        u32::from_be_bytes([0, 0xff, 0x00, 0x00]),
        u32::from_be_bytes([0, 0x00, 0x00, 0xab]),
        u32::from_be_bytes([0, 0, 0, 0]),
    ]) {
        assert_eq!(*value, expected);
    }
}

#[test]
fn encode_twice_gives_identical_buffers() {
    let bytes: Vec<u8> = (0u8..27).collect();
    let img = Image::from_raw(3, 3, &bytes);
    let mut first: Vec<u32> = vec![0; 9];
    let mut second: Vec<u32> = vec![7; 9];
    img.encode(&mut first);
    img.encode(&mut second);
    assert_eq!(first, second);
}

#[test]
fn encode_leaves_tail_of_longer_buffer_alone() {
    let img = Image::blank(1, 1);
    let mut buf: Vec<u32> = vec![5, 6, 7];
    img.encode(&mut buf);
    assert_eq!(buf, vec![0, 6, 7]);
}
