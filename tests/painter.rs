use lavagna::color::Color;
use lavagna::doc::{CursorPos, MutSketch};
use lavagna::painter::{calculate_size_range, Painter, PenSize};

#[test]
fn test_size_range() {
    assert_eq!((0..1), calculate_size_range(1));
    assert_eq!((-1..1), calculate_size_range(2));
    assert_eq!((-1..1), calculate_size_range(3));
    assert_eq!((-2..2), calculate_size_range(4));
    assert_eq!((-2..2), calculate_size_range(5));
}

fn pixel(frame: &[u8], w: usize, x: usize, y: usize) -> [u8; 4] {
    let i = 4 * (w * y + x);
    [frame[i], frame[i + 1], frame[i + 2], frame[i + 3]]
}

#[test]
fn draw_pixel_sets_four_bytes() {
    let mut frame = vec![0u8; 4 * 3 * 2];
    {
        let sketch = MutSketch::new(&mut frame, 3, 2);
        let mut painter = Painter::new(sketch);
        painter.set_color(Color::new(1, 2, 3, 4));
        painter.draw_pixel(CursorPos { x: 2, y: 1 });
    }
    assert_eq!(pixel(&frame, 3, 2, 1), [1, 2, 3, 4]);
    assert_eq!(frame.iter().filter(|b| **b != 0).count(), 4);
}

#[test]
fn draw_pixel_outside_is_ignored() {
    let mut frame = vec![0u8; 4 * 3 * 2];
    {
        let sketch = MutSketch::new(&mut frame, 3, 2);
        let mut painter = Painter::new(sketch);
        painter.draw_pixel(CursorPos { x: -1, y: 0 });
        painter.draw_pixel(CursorPos { x: 0, y: 2 });
        painter.draw_pixel(CursorPos { x: 0, y: -5 });
    }
    assert!(frame.iter().all(|b| *b == 0));
}

#[test]
fn draw_line_follows_bresenham() {
    let mut frame = vec![0u8; 4 * 6 * 7];
    {
        let sketch = MutSketch::new(&mut frame, 6, 7);
        let mut painter = Painter::new(sketch);
        painter.draw_line(CursorPos { x: 0, y: 0 }, CursorPos { x: 5, y: 6 });
    }
    let expected = [(0, 0), (0, 1), (1, 2), (2, 3), (3, 4), (4, 5), (5, 6)];
    for y in 0..7 {
        for x in 0..6 {
            let lit = expected.contains(&(x, y));
            let px = pixel(&frame, 6, x, y);
            assert_eq!(px == [0xff; 4], lit, "pixel ({x}, {y})");
        }
    }
}

#[test]
fn thick_line_stamps_a_square() {
    let mut frame = vec![0u8; 4 * 8 * 8];
    {
        let sketch = MutSketch::new(&mut frame, 8, 8);
        let mut painter = Painter::new(sketch);
        painter.set_size(PenSize(2));
        painter.draw_line(CursorPos { x: 4, y: 4 }, CursorPos { x: 4, y: 4 });
    }
    let lit: Vec<(usize, usize)> = (0..8)
        .flat_map(|y| (0..8).map(move |x| (x, y)))
        .filter(|&(x, y)| pixel(&frame, 8, x, y) != [0; 4])
        .collect();
    assert_eq!(lit, vec![(3, 3), (4, 3), (3, 4), (4, 4)]);
}

#[test]
fn pen_size_grows_and_shrinks_within_bounds() {
    let mut s = PenSize::default();
    assert_eq!(s.0, 1);
    s.shrink();
    assert_eq!(s.0, 1);
    for expected in [2, 4, 8, 16, 32, 32] {
        s.grow();
        assert_eq!(s.0, expected);
    }
    s.shrink();
    assert_eq!(s.0, 16);
    let mut big = PenSize(1000);
    big.shrink();
    assert_eq!(big.0, 32);
}

#[test]
fn very_wide_pen_still_draws() {
    let mut frame = vec![0u8; 4];
    {
        let sketch = MutSketch::new(&mut frame, 1, 1);
        let mut painter = Painter::new(sketch);
        painter.set_size(PenSize(1026));
        painter.draw_line(CursorPos { x: 0, y: 0 }, CursorPos { x: 0, y: 0 });
    }
    assert_eq!(frame, vec![0xff; 4]);
}

#[test]
fn far_away_line_is_drawn_where_it_crosses_the_canvas() {
    let mut frame = vec![0u8; 4 * 3];
    {
        let sketch = MutSketch::new(&mut frame, 3, 1);
        let mut painter = Painter::new(sketch);
        painter.draw_line(CursorPos { x: -3_000_000, y: 0 }, CursorPos { x: 1, y: 0 });
    }
    assert_eq!(frame, [[0xff; 4], [0xff; 4], [0; 4]].concat());
}
