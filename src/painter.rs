use line_drawing::Bresenham;
use std::ops::Range;
use vstd::prelude::*;

use crate::color::{channel, Color};
use crate::doc::{CursorPos, MutSketch};

verus! {

/// Bound, either way, on the coordinates of the lines that the line algorithm is given: its
/// differences and negations then stay far from overflow.
pub open spec fn line_limit() -> int {
    isize::MAX / 4
}

fn line_limit_exec() -> (r: isize)
    ensures
        r == line_limit(),
{
    isize::MAX / 4
}

/// Thickness of a pen, in pixels; a fresh pen is one pixel thick.
#[derive(Clone, Copy, Debug, PartialEq, Eq, Structural)]
pub struct PenSize(pub u32);

pub open spec fn grown(s: u32) -> u32 {
    if s >= 16 {
        32
    } else if s == 0 {
        1
    } else {
        (2 * s) as u32
    }
}

pub open spec fn shrunk(s: u32) -> u32 {
    if s / 2 < 1 {
        1
    } else if s / 2 > 32 {
        32
    } else {
        s / 2
    }
}

impl PenSize {
    pub fn new() -> (p: PenSize)
        ensures
            p.0 == 1,
    {
        PenSize(1)
    }

    /// Doubles the size, kept between 1 and 32.
    pub fn grow(&mut self)
        ensures
            final(self).0 == grown(old(self).0),
    {
        if self.0 >= 16 {
            self.0 = 32;
        } else if self.0 == 0 {
            self.0 = 1;
        } else {
            self.0 = 2 * self.0;
        }
    }

    /// Halves the size, kept between 1 and 32.
    pub fn shrink(&mut self)
        ensures
            final(self).0 == shrunk(old(self).0),
    {
        let half = self.0 / 2;
        if half < 1 {
            self.0 = 1;
        } else if half > 32 {
            self.0 = 32;
        } else {
            self.0 = half;
        }
    }
}

impl Default for PenSize {
    fn default() -> (p: PenSize)
        ensures
            p.0 == 1,
    {
        PenSize(1)
    }
}

/// Index of the pixel at (`x`, `y`) in a canvas `w` pixels wide.
pub open spec fn pixel_index(w: int, x: int, y: int) -> int {
    w * y + x
}

/// `frame` with the pixel at (`x`, `y`) set to `c`; unchanged where that pixel is outside it.
pub open spec fn paint(frame: Seq<u8>, w: int, x: int, y: int, c: Color) -> Seq<u8> {
    let p = pixel_index(w, x, y);
    if 0 <= p && 4 * p + 4 <= frame.len() {
        Seq::new(
            frame.len(),
            |i: int|
                if 4 * p <= i < 4 * p + 4 {
                    channel(c, i - 4 * p)
                } else {
                    frame[i]
                },
        )
    } else {
        frame
    }
}

/// `frame` with each point of `pts` painted in `c`, in order.
pub open spec fn paint_all(frame: Seq<u8>, w: int, pts: Seq<(isize, isize)>, c: Color) -> Seq<
    u8,
>
    decreases pts.len(),
{
    if pts.len() == 0 {
        frame
    } else {
        let last = pts.last();
        paint(paint_all(frame, w, pts.drop_last(), c), w, last.0 as int, last.1 as int, c)
    }
}

/// The points that Bresenham's algorithm gives from (`x0`, `y0`) to (`x1`, `y1`).
pub uninterp spec fn bresenham_points(x0: int, y0: int, x1: int, y1: int) -> Seq<(isize, isize)>;

pub open spec fn abs(v: int) -> int {
    if v < 0 {
        -v
    } else {
        v
    }
}

/// Coordinates for which the line's arithmetic stays far from overflow.
pub open spec fn line_coord_ok(v: int) -> bool {
    -line_limit() <= v <= line_limit()
}

/// Relies on `line_drawing::Bresenham`: the line's points from `from` to `to`, both included,
/// one for each step along the longer axis.
#[verifier::external_body]
fn bresenham(from: (isize, isize), to: (isize, isize)) -> (r: Vec<(isize, isize)>)
    requires
        line_coord_ok(from.0 as int) && line_coord_ok(from.1 as int),
        line_coord_ok(to.0 as int) && line_coord_ok(to.1 as int),
    ensures
        r@ == bresenham_points(from.0 as int, from.1 as int, to.0 as int, to.1 as int),
        r@.len() == 1 + if abs(to.0 - from.0) >= abs(to.1 - from.1) {
            abs(to.0 - from.0)
        } else {
            abs(to.1 - from.1)
        },
        r@[0] == from,
        r@.last() == to,
{
    Bresenham::new(from, to).collect()
}

/// First offset of the square stamp of a pen `size` pixels thick.
pub open spec fn stamp_lo(size: u32) -> int {
    if size == 1 {
        0
    } else {
        -((size / 2) as int)
    }
}

/// Side of the square stamp of a pen `size` pixels thick.
pub open spec fn stamp_side(size: u32) -> int {
    if size == 1 {
        1
    } else {
        2 * ((size / 2) as int)
    }
}

/// The offsets of the stamp, column after column.
pub open spec fn stamp_offsets(size: u32) -> Seq<(int, int)> {
    let n = stamp_side(size);
    Seq::new((n * n) as nat, |i: int| (stamp_lo(size) + i / n, stamp_lo(size) + i % n))
}

/// The points of the copies of the line from `from` to `to` moved by each offset, in order.
pub open spec fn stamped_points(from: CursorPos, to: CursorPos, offs: Seq<(int, int)>) -> Seq<
    (isize, isize),
>
    decreases offs.len(),
{
    if offs.len() == 0 {
        seq![]
    } else {
        let o = offs.last();
        stamped_points(from, to, offs.drop_last()) + bresenham_points(
            from.x + o.0,
            from.y + o.1,
            to.x + o.0,
            to.y + o.1,
        )
    }
}

/// Largest distance of a stamp offset from zero.
pub open spec fn stamp_half(size: u32) -> int {
    if size == 1 {
        0
    } else {
        (size / 2) as int
    }
}

/// A coordinate of an end whose stamped copies all stay within `line_limit()`.
pub open spec fn end_ok(v: int, size: u32) -> bool {
    -line_limit() + stamp_half(size) <= v <= line_limit() - stamp_half(size)
}

/// Whether `draw_line` can carry the arithmetic of this line: every stamped copy of it has
/// its coordinates within `line_limit()`.
pub open spec fn drawable(from: CursorPos, to: CursorPos, size: u32) -> bool {
    end_ok(from.x as int, size) && end_ok(from.y as int, size) && end_ok(to.x as int, size)
        && end_ok(to.y as int, size)
}

/// `frame` after a line from `from` to `to` drawn in `c` with a pen `size` pixels thick.
pub open spec fn line_drawn(
    frame: Seq<u8>,
    w: int,
    from: CursorPos,
    to: CursorPos,
    size: u32,
    c: Color,
) -> Seq<u8> {
    if drawable(from, to, size) {
        paint_all(frame, w, stamped_points(from, to, stamp_offsets(size)), c)
    } else {
        frame
    }
}

/// The range of offsets, on each axis, of the square stamp of a pen `size` pixels thick.
pub fn calculate_size_range(size: u32) -> (r: Range<isize>)
    ensures
        r.start == stamp_lo(size),
        r.end == stamp_lo(size) + stamp_side(size),
{
    if size == 1 {
        return 0..1;
    }
    let half = (size / 2) as isize;
    (-half)..half
}

proof fn lemma_stamp_offset(size: u32, a: int, b: int)
    requires
        0 <= a < stamp_side(size),
        0 <= b < stamp_side(size),
    ensures
        0 <= a * stamp_side(size) + b < stamp_side(size) * stamp_side(size),
        stamp_offsets(size)[a * stamp_side(size) + b] == (stamp_lo(size) + a, stamp_lo(size) + b),
{
    let n = stamp_side(size);
    assert(0 <= a * n + b < n * n) by (nonlinear_arith)
        requires
            0 <= a < n,
            0 <= b < n,
    ;
    assert(a * n + b == a * n + b);
    vstd::arithmetic::div_mod::lemma_fundamental_div_mod_converse(a * n + b, n, a, b);
}

proof fn lemma_index_bounds(w: int, y: int)
    requires
        0 <= w <= 0xffff_ffff_ffff_ffff,
        -0x8000_0000_0000_0000 <= y <= 0x7fff_ffff_ffff_ffff,
    ensures
        -0x8000_0000_0000_0000_0000_0000_0000_0000 + 0x8000_0000_0000_0000 <= w * y,
        w * y <= 0x7fff_ffff_ffff_ffff_ffff_ffff_ffff_ffff - 0x8000_0000_0000_0000,
{
    let m: int = 0xffff_ffff_ffff_ffff;
    let lo: int = -0x8000_0000_0000_0000;
    let hi: int = 0x7fff_ffff_ffff_ffff;
    assert(w * y <= m * hi) by (nonlinear_arith)
        requires
            0 <= w <= m,
            y <= hi,
            0 <= hi,
    ;
    assert(w * y >= m * lo) by (nonlinear_arith)
        requires
            0 <= w <= m,
            lo <= y,
            lo <= 0,
    ;
}

proof fn lemma_paint_all_append(
    frame: Seq<u8>,
    w: int,
    a: Seq<(isize, isize)>,
    b: Seq<(isize, isize)>,
    c: Color,
)
    ensures
        paint_all(frame, w, a + b, c) == paint_all(paint_all(frame, w, a, c), w, b, c),
    decreases b.len(),
{
    if b.len() == 0 {
        assert(a + b =~= a);
    } else {
        assert((a + b).drop_last() =~= a + b.drop_last());
        lemma_paint_all_append(frame, w, a, b.drop_last(), c);
    }
}

/// Draws on a canvas with one color and one thickness at a time.
pub struct Painter<'a> {
    pub sketch: MutSketch<'a>,
    pub color: Color,
    pub size: u32,
}

impl<'a> Painter<'a> {
    /// A painter in white, one pixel thick.
    pub fn new(sketch: MutSketch<'a>) -> (p: Painter<'a>)
        ensures
            p.sketch.size == sketch.size,
            p.sketch.frame@ == old(sketch.frame)@,
            final(p.sketch.frame)@ == final(sketch.frame)@,
            p.color == Color::white_spec(),
            p.size == 1,
    {
        Painter { sketch, color: Color::white(), size: 1 }
    }

    /// Gives the canvas back.
    pub fn into_sketch(self) -> (s: MutSketch<'a>)
        ensures
            s.size == self.sketch.size,
            s.frame@ == old(self.sketch.frame)@,
            final(s.frame)@ == final(self.sketch.frame)@,
    {
        self.sketch
    }

    pub fn set_color(&mut self, color: Color)
        ensures
            final(self).color == color,
            final(self).size == old(self).size,
            final(self).sketch.size == old(self).sketch.size,
            final(self).sketch.frame@ == old(self).sketch.frame@,
            final(final(self).sketch.frame)@ == final(old(self).sketch.frame)@,
    {
        self.color = color;
    }

    pub fn set_size(&mut self, size: PenSize)
        ensures
            final(self).size == size.0,
            final(self).color == old(self).color,
            final(self).sketch.size == old(self).sketch.size,
            final(self).sketch.frame@ == old(self).sketch.frame@,
            final(final(self).sketch.frame)@ == final(old(self).sketch.frame)@,
    {
        self.size = size.0;
    }

    /// Sets the pixel at `pos` to the current color, if the canvas has it.
    pub fn draw_pixel(&mut self, pos: CursorPos)
        ensures
            final(self).color == old(self).color,
            final(self).size == old(self).size,
            final(self).sketch.size == old(self).sketch.size,
            final(self).sketch.frame@ == paint(
                old(self).sketch.frame@,
                old(self).sketch.size.width as int,
                pos.x as int,
                pos.y as int,
                old(self).color,
            ),
            final(final(self).sketch.frame)@ == final(old(self).sketch.frame)@,
    {
        let w = self.sketch.size.width as i128;
        proof {
            lemma_index_bounds(w as int, pos.y as int);
        }
        let p = w * (pos.y as i128) + pos.x as i128;
        let len = self.sketch.frame.len();
        let npix = (len / 4) as i128;
        if p < 0 || p >= npix {
            return ;
        }
        let base = 4 * (p as usize);
        let bytes = self.color.as_bytes();
        self.sketch.frame[base] = bytes[0];
        self.sketch.frame[base + 1] = bytes[1];
        self.sketch.frame[base + 2] = bytes[2];
        self.sketch.frame[base + 3] = bytes[3];
        assert(self.sketch.frame@ =~= paint(
            old(self).sketch.frame@,
            old(self).sketch.size.width as int,
            pos.x as int,
            pos.y as int,
            old(self).color,
        ));
    }

    /// Draws a line from `from` to `to` in the current color, stamping a square as thick
    /// as the pen on each of its points.
    pub fn draw_line(&mut self, from: CursorPos, to: CursorPos)
        ensures
            final(self).color == old(self).color,
            final(self).size == old(self).size,
            final(self).sketch.size == old(self).sketch.size,
            final(self).sketch.frame@ == line_drawn(
                old(self).sketch.frame@,
                old(self).sketch.size.width as int,
                from,
                to,
                old(self).size,
                old(self).color,
            ),
            final(final(self).sketch.frame)@ == final(old(self).sketch.frame)@,
    {
        let half: isize = if self.size == 1 {
            0
        } else {
            (self.size / 2) as isize
        };
        let limit = line_limit_exec();
        let ok = |v: isize| -> (r: bool)
            ensures
                r == end_ok(v as int, self.size),
            { -limit + half <= v && v <= limit - half };
        if !(ok(from.x) && ok(from.y) && ok(to.x) && ok(to.y)) {
            return ;
        }
        let range = calculate_size_range(self.size);
        let lo = range.start;
        let hi = range.end;
        let ghost n = stamp_side(self.size);
        let ghost w = self.sketch.size.width as int;
        let ghost f0 = self.sketch.frame@;
        let ghost offs = stamp_offsets(self.size);
        let ghost size = self.size;
        let mut xo: isize = lo;
        while xo < hi
            invariant
                lo as int == stamp_lo(size),
                hi as int == stamp_lo(size) + n,
                n == stamp_side(size),
                n >= 0,
                lo <= xo <= hi,
                offs == stamp_offsets(size),
                drawable(from, to, size),
                self.size == size,
                size == old(self).size,
                self.color == old(self).color,
                self.sketch.size == old(self).sketch.size,
                w == self.sketch.size.width,
                f0 == old(self).sketch.frame@,
                self.sketch.frame@ == paint_all(
                    f0,
                    w,
                    stamped_points(from, to, offs.take((xo - lo) * n)),
                    self.color,
                ),
                final(self.sketch.frame)@ == final(old(self).sketch.frame)@,
            decreases hi - xo,
        {
            let mut yo: isize = lo;
            while yo < hi
                invariant
                    lo as int == stamp_lo(size),
                    hi as int == stamp_lo(size) + n,
                    n == stamp_side(size),
                    n >= 0,
                    lo <= xo < hi,
                    lo <= yo <= hi,
                    offs == stamp_offsets(size),
                    drawable(from, to, size),
                    self.size == size,
                    self.color == old(self).color,
                    self.sketch.size == old(self).sketch.size,
                    w == self.sketch.size.width,
                    f0 == old(self).sketch.frame@,
                    self.sketch.frame@ == paint_all(
                        f0,
                        w,
                        stamped_points(from, to, offs.take((xo - lo) * n + (yo - lo))),
                        self.color,
                    ),
                    final(self.sketch.frame)@ == final(old(self).sketch.frame)@,
                decreases hi - yo,
            {
                let ghost k = (xo - lo) * n + (yo - lo);
                proof {
                    lemma_stamp_offset(size, (xo - lo) as int, (yo - lo) as int);
                }
                let pts = bresenham((from.x + xo, from.y + yo), (to.x + xo, to.y + yo));
                let ghost before = self.sketch.frame@;
                let ghost prefix = stamped_points(from, to, offs.take(k));
                let mut j: usize = 0;
                while j < pts.len()
                    invariant
                        0 <= j <= pts@.len(),
                        self.size == size,
                        self.color == old(self).color,
                        self.sketch.size == old(self).sketch.size,
                        w == self.sketch.size.width,
                        self.sketch.frame@ == paint_all(before, w, pts@.take(j as int), self.color),
                        final(self.sketch.frame)@ == final(old(self).sketch.frame)@,
                    decreases pts@.len() - j,
                {
                    let (x, y) = pts[j];
                    self.draw_pixel(CursorPos { x, y });
                    assert(pts@.take(j + 1).drop_last() =~= pts@.take(j as int));
                    j += 1;
                }
                proof {
                    assert(pts@.take(pts@.len() as int) =~= pts@);
                    lemma_paint_all_append(f0, w, prefix, pts@, self.color);
                    assert(offs.take(k + 1).drop_last() =~= offs.take(k));
                    assert(offs.take(k + 1).last() == offs[k]);
                }
                yo += 1;
            }
            proof {
                assert((xo - lo) * n + n == (xo + 1 - lo) * n) by (nonlinear_arith);
            }
            xo += 1;
        }
        proof {
            assert(offs.take(n * n) =~= offs);
        }
    }
}

} // verus!
