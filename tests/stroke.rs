use lavagna::stroke::{triggers_lyon_bug, Chalk, Point, Polyline};

fn p(x: i32, y: i32) -> Point {
    Point { x, y }
}

fn chalk(x: i32, y: i32, pressed: bool, just_released: bool, width: u8) -> Chalk {
    Chalk { pressed, updated: true, just_released, x, y, line_width: width }
}

#[test]
fn short_corner_with_wide_stroke_is_degenerate() {
    assert!(triggers_lyon_bug(p(0, 0), p(1, 0), p(1, 1), 100));
}

#[test]
fn long_corner_with_thin_stroke_is_not_degenerate() {
    assert!(!triggers_lyon_bug(p(0, 0), p(100, 0), p(100, 100), 2));
}

#[test]
fn straight_line_is_never_degenerate() {
    assert!(!triggers_lyon_bug(p(0, 0), p(1, 0), p(2, 0), 200));
}

#[test]
fn reversal_is_always_degenerate() {
    assert!(triggers_lyon_bug(p(0, 0), p(100, 0), p(0, 0), 1));
}

#[test]
fn polyline_grows_while_pressed_and_completes_on_release() {
    let mut line = Polyline::new();
    assert!(line.update(&chalk(0, 0, true, false, 2)).is_empty());
    assert!(line.update(&chalk(100, 0, true, false, 2)).is_empty());
    assert!(line.update(&chalk(100, 0, true, false, 2)).is_empty());
    assert!(line.update(&chalk(200, 0, true, false, 2)).is_empty());
    assert_eq!(line.points, vec![p(0, 0), p(100, 0), p(200, 0)]);
    let done = line.update(&chalk(200, 0, false, true, 2));
    assert_eq!(done, vec![vec![p(0, 0), p(100, 0), p(200, 0)]]);
    assert!(line.points.is_empty());
}

#[test]
fn degenerate_corner_splits_the_polyline() {
    let mut line = Polyline::new();
    line.update(&chalk(0, 0, true, false, 100));
    line.update(&chalk(1, 0, true, false, 100));
    let done = line.update(&chalk(1, 1, true, false, 100));
    assert_eq!(done, vec![vec![p(0, 0), p(1, 0)]]);
    assert_eq!(line.points, vec![p(1, 0), p(1, 1)]);
}

#[test]
fn long_polyline_is_chunked_without_a_gap() {
    let mut line = Polyline::new();
    for i in 0..99 {
        assert!(line.update(&chalk(10 * i, 0, true, false, 1)).is_empty());
    }
    let done = line.update(&chalk(990, 0, true, false, 1));
    assert_eq!(done.len(), 1);
    assert_eq!(done[0].len(), 100);
    assert_eq!(line.points, vec![p(990, 0)]);
}

#[test]
fn chalk_tracks_updates_and_releases() {
    let c = Chalk { pressed: false, updated: false, just_released: false, x: 0, y: 0, line_width: 8 };
    let c = c.moved_to(0, 0, false);
    assert!(!c.updated);
    let c = c.moved_to(0, 0, true);
    assert!(c.updated && !c.just_released);
    let c = c.moved_to(3, 0, true);
    assert!(c.updated);
    let c = c.moved_to(3, 0, false);
    assert!(c.updated && c.just_released);
    let c = c.moved_to(3, 0, false);
    assert!(c.updated && !c.just_released);
    assert_eq!(c.line_width, 8);
}
