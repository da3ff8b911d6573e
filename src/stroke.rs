use vstd::prelude::*;

verus! {

/// A point of a stroke's centerline.
#[derive(Clone, Copy, Debug, PartialEq, Eq, Structural)]
pub struct Point {
    pub x: i32,
    pub y: i32,
}

/// Points per polyline before it is completed and a new one started.
pub const POINTS_CHUNK_THRESHOLD: usize = 100;

/// Largest segment component, either way, for which the corner test is evaluated exactly.
pub const SEGMENT_LIMIT: i64 = 0x4000;

pub open spec fn sq_len(vx: int, vy: int) -> int {
    vx * vx + vy * vy
}

/// Whether `sqrt(p) * k <= m`, for `p >= 0`, decided without roots.
pub open spec fn root_times_le(p: int, k: int, m: int) -> bool {
    if k <= 0 {
        m >= 0 || p * (k * k) >= m * m
    } else {
        m >= 0 && p * (k * k) <= m * m
    }
}

/// Whether a segment of squared length `l` is too short for the corner: with `c` the cosine
/// of the corner's angle and `r` the stroke radius (half of `width`),
/// `l * (1 - c) <= (1 + c) * r * r`. Here `c = d / sqrt(ab)`, both sides are multiplied by
/// `4 * sqrt(ab)`, which is positive.
pub open spec fn too_short(l: int, ab: int, d: int, width: int) -> bool {
    root_times_le(ab, 4 * l - width * width, d * (4 * l + width * width))
}

/// Whether the corner `p0`, `p1`, `p2`, stroked `width` wide as two offset curves, would
/// self-intersect: either segment is too short for the turn's sharpness and the radius.
pub open spec fn degenerate(p0: Point, p1: Point, p2: Point, width: int) -> bool {
    let (ax, ay) = (p0.x - p1.x, p0.y - p1.y);
    let (bx, by) = (p2.x - p1.x, p2.y - p1.y);
    let a = sq_len(ax, ay);
    let b = sq_len(bx, by);
    let d = ax * bx + ay * by;
    too_short(a, a * b, d, width) || too_short(b, a * b, d, width)
}

pub open spec fn small(v: int) -> bool {
    -SEGMENT_LIMIT <= v <= SEGMENT_LIMIT
}

/// Both segments of the corner are short enough for the exact test.
pub open spec fn corner_in_range(p0: Point, p1: Point, p2: Point) -> bool {
    small(p0.x - p1.x) && small(p0.y - p1.y) && small(p2.x - p1.x) && small(p2.y - p1.y)
}

proof fn lemma_products(ax: int, ay: int, bx: int, by: int, width: int)
    requires
        small(ax) && small(ay) && small(bx) && small(by),
        0 <= width <= 255,
    ensures
        0 <= ax * ax <= 0x1000_0000 && 0 <= ay * ay <= 0x1000_0000,
        0 <= bx * bx <= 0x1000_0000 && 0 <= by * by <= 0x1000_0000,
        -0x1000_0000 <= ax * bx <= 0x1000_0000 && -0x1000_0000 <= ay * by <= 0x1000_0000,
        0 <= width * width <= 0x1_0000,
        0 <= sq_len(ax, ay) <= 0x2000_0000,
        0 <= sq_len(bx, by) <= 0x2000_0000,
        -0x2000_0000 <= ax * bx + ay * by <= 0x2000_0000,
        0 <= sq_len(ax, ay) * sq_len(bx, by) <= 0x400_0000_0000_0000,
{
    assert(0 <= ax * ax <= 0x1000_0000 && 0 <= ay * ay <= 0x1000_0000) by (nonlinear_arith)
        requires
            small(ax) && small(ay),
    ;
    assert(0 <= bx * bx <= 0x1000_0000 && 0 <= by * by <= 0x1000_0000) by (nonlinear_arith)
        requires
            small(bx) && small(by),
    ;
    assert(-0x1000_0000 <= ax * bx <= 0x1000_0000 && -0x1000_0000 <= ay * by <= 0x1000_0000)
        by (nonlinear_arith)
        requires
            small(ax) && small(ay) && small(bx) && small(by),
    ;
    assert(0 <= width * width <= 0x1_0000) by (nonlinear_arith)
        requires
            0 <= width <= 255,
    ;
    let a = sq_len(ax, ay);
    let b = sq_len(bx, by);
    assert(0 <= a * b <= 0x400_0000_0000_0000) by (nonlinear_arith)
        requires
            0 <= a <= 0x2000_0000,
            0 <= b <= 0x2000_0000,
    ;
}

/// Decides `root_times_le(p, k, m)`, for the magnitudes that a corner test produces.
fn root_times_le_exec(p: i128, k: i128, m: i128) -> (r: bool)
    requires
        0 <= p <= 0x400_0000_0000_0000,
        -0x1_0000_0000 <= k <= 0x1_0000_0000,
        -0x4000_0000_0000_0000 <= m <= 0x4000_0000_0000_0000,
    ensures
        r == root_times_le(p as int, k as int, m as int),
{
    assert(0 <= k * k <= 0x1_0000_0000_0000_0000) by (nonlinear_arith)
        requires
            -0x1_0000_0000 <= k <= 0x1_0000_0000,
    ;
    assert(0 <= p * (k * k) <= 0x400_0000_0000_0000_0000_0000_0000_0000) by (nonlinear_arith)
        requires
            0 <= p <= 0x400_0000_0000_0000,
            0 <= k * k <= 0x1_0000_0000_0000_0000,
    ;
    assert(0 <= m * m <= 0x1000_0000_0000_0000_0000_0000_0000_0000) by (nonlinear_arith)
        requires
            -0x4000_0000_0000_0000 <= m <= 0x4000_0000_0000_0000,
    ;
    let lhs = p * (k * k);
    let rhs = m * m;
    if k <= 0 {
        m >= 0 || lhs >= rhs
    } else {
        m >= 0 && lhs <= rhs
    }
}

/// Whether the corner `p0`, `p1`, `p2`, stroked `width` wide, is degenerate (see `degenerate`).
/// The three points must be distinct neighbours.
pub fn triggers_lyon_bug(p0: Point, p1: Point, p2: Point, width: u8) -> (r: bool)
    requires
        p0 != p1,
        p1 != p2,
        corner_in_range(p0, p1, p2),
    ensures
        r == degenerate(p0, p1, p2, width as int),
{
    let ax = p0.x as i128 - p1.x as i128;
    let ay = p0.y as i128 - p1.y as i128;
    let bx = p2.x as i128 - p1.x as i128;
    let by = p2.y as i128 - p1.y as i128;
    proof {
        lemma_products(ax as int, ay as int, bx as int, by as int, width as int);
    }
    let a = ax * ax + ay * ay;
    let b = bx * bx + by * by;
    let d = ax * bx + ay * by;
    let ab = a * b;
    let w2 = (width as i128) * (width as i128);
    assert(0 <= w2 <= 0x1_0000);
    assert(-0x4000_0000_0000_0000 <= d * (4 * a + w2) <= 0x4000_0000_0000_0000)
        by (nonlinear_arith)
        requires
            -0x2000_0000 <= d <= 0x2000_0000,
            0 <= a <= 0x2000_0000,
            0 <= w2 <= 0x1_0000,
    ;
    assert(-0x4000_0000_0000_0000 <= d * (4 * b + w2) <= 0x4000_0000_0000_0000)
        by (nonlinear_arith)
        requires
            -0x2000_0000 <= d <= 0x2000_0000,
            0 <= b <= 0x2000_0000,
            0 <= w2 <= 0x1_0000,
    ;
    root_times_le_exec(ab, 4 * a - w2, d * (4 * a + w2)) || root_times_le_exec(
        ab,
        4 * b - w2,
        d * (4 * b + w2),
    )
}

/// What the stroke builder reads of a pen, once per frame.
#[derive(Clone, Copy, Debug, PartialEq, Eq, Structural)]
pub struct Chalk {
    pub pressed: bool,
    /// The position or the pressed state changed this frame.
    pub updated: bool,
    /// The pen was released this frame.
    pub just_released: bool,
    pub x: i32,
    pub y: i32,
    pub line_width: u8,
}

/// Whether the position, the pressed state or the release flag differ.
pub open spec fn updated_between(old: Chalk, new: Chalk) -> bool {
    old.x != new.x || old.y != new.y || old.pressed != new.pressed || old.just_released
        != new.just_released
}

pub fn is_updated(old: &Chalk, new: &Chalk) -> (r: bool)
    ensures
        r == updated_between(*old, *new),
{
    old.x != new.x || old.y != new.y || old.pressed != new.pressed || old.just_released
        != new.just_released
}

impl Chalk {
    /// The pen after a frame of input that put it at (`x`, `y`), pressed or not: it was just
    /// released when it was pressed before and is not now, and it is updated when anything
    /// of that differs from before.
    pub fn moved_to(&self, x: i32, y: i32, pressed: bool) -> (c: Chalk)
        ensures
            c.x == x && c.y == y && c.pressed == pressed,
            c.line_width == self.line_width,
            c.just_released == (self.pressed && !pressed),
            c.updated == updated_between(*self, Chalk { updated: c.updated, ..c }),
    {
        let next = Chalk {
            pressed,
            updated: false,
            just_released: self.pressed && !pressed,
            x,
            y,
            line_width: self.line_width,
        };
        Chalk { updated: is_updated(self, &next), ..next }
    }
}

pub open spec fn chalk_point(c: Chalk) -> Point {
    Point { x: c.x, y: c.y }
}

/// A corner is split when it is degenerate, or when a segment is too long to test exactly.
pub open spec fn must_split(p0: Point, p1: Point, p2: Point, width: int) -> bool {
    !corner_in_range(p0, p1, p2) || degenerate(p0, p1, p2, width)
}

/// Appending `p`: where the corner it makes is split, the polyline up to its last point is
/// completed and a new one starts from that point.
pub open spec fn append_point(points: Seq<Point>, p: Point, width: int) -> (
    Seq<Point>,
    Seq<Seq<Point>>,
) {
    if points.len() >= 2 && must_split(points[points.len() - 2], points.last(), p, width) {
        (seq![points.last(), p], seq![points])
    } else {
        (points.push(p), seq![])
    }
}

/// Whether the pen adds its position this frame.
pub open spec fn adds_point(points: Seq<Point>, c: Chalk) -> bool {
    c.pressed && c.updated && (points.len() == 0 || points.last() != chalk_point(c))
}

/// The polyline after one frame of the pen, and the polylines completed in that frame.
pub open spec fn stroke_step(points: Seq<Point>, c: Chalk) -> (Seq<Point>, Seq<Seq<Point>>) {
    let (pts, done) = if adds_point(points, c) {
        append_point(points, chalk_point(c), c.line_width as int)
    } else {
        (points, seq![])
    };
    let chunk = pts.len() >= POINTS_CHUNK_THRESHOLD;
    let released = c.just_released && pts.len() > 0;
    if chunk {
        (seq![chalk_point(c)], done.push(pts))
    } else if released {
        (seq![], done.push(pts))
    } else {
        (pts, done)
    }
}

/// No two neighbouring points are equal.
pub open spec fn no_repeats(points: Seq<Point>) -> bool {
    forall|i: int| 0 <= i < points.len() - 1 ==> #[trigger] points[i] != points[i + 1]
}

/// The pending, not yet completed, polyline of one pen.
pub struct Polyline {
    pub points: Vec<Point>,
}

fn in_range(v: i64) -> (r: bool)
    ensures
        r == small(v as int),
{
    -SEGMENT_LIMIT <= v && v <= SEGMENT_LIMIT
}

impl Polyline {
    pub open spec fn wf(&self) -> bool {
        no_repeats(self.points@)
    }

    pub fn new() -> (p: Polyline)
        ensures
            p.wf(),
            p.points@.len() == 0,
    {
        Polyline { points: Vec::new() }
    }

    /// Advances the polyline by one frame of `chalk`, and returns the polylines that this
    /// frame completed, in order.
    pub fn update(&mut self, chalk: &Chalk) -> (completed: Vec<Vec<Point>>)
        requires
            old(self).wf(),
        ensures
            final(self).wf(),
            final(self).points@ == stroke_step(old(self).points@, *chalk).0,
            completed@.len() == stroke_step(old(self).points@, *chalk).1.len(),
            forall|i: int|
                0 <= i < completed@.len() ==> #[trigger] completed@[i]@ == stroke_step(
                    old(self).points@,
                    *chalk,
                ).1[i],
    {
        let p = Point { x: chalk.x, y: chalk.y };
        let mut completed: Vec<Vec<Point>> = Vec::new();
        let n = self.points.len();
        let adds = chalk.pressed && chalk.updated && (n == 0 || self.points[n - 1] != p);
        if adds {
            let mut split = false;
            if n >= 2 {
                let p0 = self.points[n - 2];
                let p1 = self.points[n - 1];
                let ok = in_range(p0.x as i64 - p1.x as i64) && in_range(p0.y as i64 - p1.y as i64)
                    && in_range(p.x as i64 - p1.x as i64) && in_range(p.y as i64 - p1.y as i64);
                split = !ok || triggers_lyon_bug(p0, p1, p, chalk.line_width);
            }
            if split {
                let last = self.points[n - 1];
                let done = self.points.clone();
                completed.push(done);
                self.points = Vec::new();
                self.points.push(last);
            }
            self.points.push(p);
        }
        let chunk = self.points.len() >= POINTS_CHUNK_THRESHOLD;
        let released = chalk.just_released && self.points.len() > 0;
        if chunk || released {
            let done = self.points.clone();
            completed.push(done);
            self.points = Vec::new();
            if chunk {
                self.points.push(p);
            }
        }
        proof {
            let ghost (pts, d) = stroke_step(old(self).points@, *chalk);
            assert(self.points@ =~= pts);
            assert(completed@.len() == d.len());
        }
        completed
    }
}

} // verus!
