use lavagna::color::{default_palette, Color, ColorSelector};
use lavagna::doc::{MutSketch, Sketch};

#[test]
fn packing_round_trips() {
    let c = Color::new(0x12, 0x34, 0x56, 0x78);
    assert_eq!(c.to_u32(), 0x7856_3412);
    assert_eq!(Color::from_u32(0x7856_3412), c);
    assert_eq!(Color::from_u32(0xdead_beef).to_u32(), 0xdead_beef);
    assert_eq!(c.as_bytes(), [0x12, 0x34, 0x56, 0x78]);
}

#[test]
fn selector_cycles_through_the_palette() {
    let palette = default_palette();
    assert_eq!(palette.len(), 7);
    let mut s = ColorSelector::new(palette.clone());
    for i in 0..15 {
        assert_eq!(s.next(), Some(palette[i % 7]));
    }
}

#[test]
fn copy_is_clipped_to_the_common_area() {
    let src: Vec<u8> = (1..=4 * 3 * 2).map(|i| i as u8).collect();
    let mut dst = vec![0u8; 4 * 2 * 3];
    {
        let mut d = MutSketch::new(&mut dst, 2, 3);
        d.copy_from(&Sketch::new(&src, 3, 2));
    }
    let expected: Vec<u8> = [&src[0..8], &src[12..20], &[0u8; 8][..]].concat();
    assert_eq!(dst, expected);
}

#[test]
fn owned_copy_keeps_the_frame() {
    let mut frame: Vec<u8> = (0..16).collect();
    let owned = MutSketch::new(&mut frame, 2, 2).to_owned();
    assert_eq!(owned.frame, (0..16).collect::<Vec<u8>>());
    assert_eq!(owned.as_sketch().frame, &owned.frame[..]);
}
