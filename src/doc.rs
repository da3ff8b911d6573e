use vstd::arithmetic::div_mod::{lemma_fundamental_div_mod, lemma_fundamental_div_mod_converse};
use vstd::prelude::*;

verus! {

/// Width and height of a canvas, in pixels.
#[derive(Clone, Copy, Debug, PartialEq, Eq, Structural)]
pub struct Size {
    pub width: usize,
    pub height: usize,
}

/// A frame holds four bytes (RGBA) for each pixel, row after row.
pub open spec fn fits(len: int, size: Size) -> bool {
    len == 4 * size.width * size.height
}

/// Row of byte `i` in a frame `w` pixels wide.
pub open spec fn row_of(i: int, w: int) -> int {
    i / (4 * w)
}

/// Offset of byte `i` inside its row, in a frame `w` pixels wide.
pub open spec fn col_of(i: int, w: int) -> int {
    i % (4 * w)
}

pub open spec fn min(a: int, b: int) -> int {
    if a <= b {
        a
    } else {
        b
    }
}

/// `dst` after copying `src` into it, clipped to the rows and columns that both have.
pub open spec fn clipped_copy(dst: Seq<u8>, dsize: Size, src: Seq<u8>, ssize: Size) -> Seq<u8> {
    Seq::new(
        dst.len(),
        |i: int|
            {
                let r = row_of(i, dsize.width as int);
                let c = col_of(i, dsize.width as int);
                if dsize.width > 0 && r < min(dsize.height as int, ssize.height as int) && c < 4
                    * min(dsize.width as int, ssize.width as int) {
                    src[4 * ssize.width * r + c]
                } else {
                    dst[i]
                }
            },
    )
}

/// A position on the canvas, in pixels.
#[derive(Clone, Copy, Debug, Default, PartialEq, Eq, Structural)]
pub struct CursorPos {
    pub x: isize,
    pub y: isize,
}

/// A read-only view of a canvas.
pub struct Sketch<'a> {
    pub size: Size,
    pub frame: &'a [u8],
}

/// A canvas owned by the caller, which the library draws on.
pub struct MutSketch<'a> {
    pub size: Size,
    pub frame: &'a mut [u8],
}

/// A canvas copy owned by the library.
pub struct OwnedSketch {
    pub size: Size,
    pub frame: Vec<u8>,
}

impl<'a> Sketch<'a> {
    pub open spec fn wf(&self) -> bool {
        fits(self.frame@.len() as int, self.size)
    }

    pub fn new(frame: &'a [u8], width: usize, height: usize) -> (s: Sketch<'a>)
        requires
            fits(frame@.len() as int, Size { width, height }),
        ensures
            s.wf(),
            s.size == (Size { width, height }),
            s.frame@ == frame@,
    {
        Sketch { size: Size { width, height }, frame }
    }
}

impl OwnedSketch {
    pub open spec fn wf(&self) -> bool {
        fits(self.frame@.len() as int, self.size)
    }

    /// A view of this copy.
    pub fn as_sketch(&self) -> (s: Sketch<'_>)
        ensures
            s.size == self.size,
            s.frame@ == self.frame@,
    {
        Sketch { size: self.size, frame: self.frame.as_slice() }
    }
}

/// Byte `i` of `dst` while rows before `y`, and the first `k` bytes of row `y`, are copied.
spec fn partial_copy(
    dst: Seq<u8>,
    src: Seq<u8>,
    dw: int,
    sw: int,
    mw: int,
    y: int,
    k: int,
    i: int,
) -> u8 {
    let r = row_of(i, dw);
    let c = col_of(i, dw);
    if c < 4 * mw && (r < y || (r == y && c < k)) {
        src[4 * sw * r + c]
    } else {
        dst[i]
    }
}

proof fn lemma_row_col(w: int, y: int, k: int)
    requires
        w > 0,
        y >= 0,
        0 <= k < 4 * w,
    ensures
        row_of(4 * w * y + k, w) == y,
        col_of(4 * w * y + k, w) == k,
{
    assert(4 * w * y == y * (4 * w)) by (nonlinear_arith);
    lemma_fundamental_div_mod_converse(4 * w * y + k, 4 * w, y, k);
}

proof fn lemma_byte_in_frame(w: int, h: int, y: int, k: int)
    requires
        w > 0,
        0 <= y < h,
        0 <= k < 4 * w,
    ensures
        0 <= 4 * w * y + k < 4 * w * h,
        4 * w <= 4 * w * h,
        4 * w * y + 4 * w <= 4 * w * h,
        4 * w * y == (4 * w) * y,
{
    assert(4 * w <= 4 * w * h && 4 * w * y + 4 * w <= 4 * w * h && 4 * w * y == (4 * w) * y)
        by (nonlinear_arith)
        requires
            w > 0,
            0 <= y < h,
    ;
    assert(4 * w * y + k < 4 * w * h) by (nonlinear_arith)
        requires
            w > 0,
            0 <= y < h,
            0 <= k < 4 * w,
    ;
    assert(0 <= 4 * w * y) by (nonlinear_arith)
        requires
            w > 0,
            0 <= y,
    ;
}

impl<'a> MutSketch<'a> {
    pub open spec fn wf(&self) -> bool {
        fits(self.frame@.len() as int, self.size)
    }

    pub fn new(frame: &'a mut [u8], width: usize, height: usize) -> (s: MutSketch<'a>)
        requires
            fits(old(frame)@.len() as int, Size { width, height }),
        ensures
            s.wf(),
            s.size == (Size { width, height }),
            s.frame@ == old(frame)@,
            final(s.frame)@ == final(frame)@,
    {
        MutSketch { size: Size { width, height }, frame }
    }

    /// A copy of the canvas.
    pub fn to_owned(&self) -> (s: OwnedSketch)
        ensures
            s.size == self.size,
            s.frame@ == old(self.frame)@,
    {
        let frame = vstd::slice::slice_to_vec(&*self.frame);
        OwnedSketch { size: self.size, frame }
    }

    /// Copies `other` into this canvas, clipped to the rows and columns that both have.
    pub fn copy_from(&mut self, other: &Sketch<'_>)
        requires
            old(self).wf(),
            other.wf(),
        ensures
            final(self).size == old(self).size,
            final(self).frame@ == clipped_copy(
                old(self).frame@,
                old(self).size,
                other.frame@,
                other.size,
            ),
            final(final(self).frame)@ == final(old(self).frame)@,
    {
        let min_h = if self.size.height <= other.size.height {
            self.size.height
        } else {
            other.size.height
        };
        let min_w = if self.size.width <= other.size.width {
            self.size.width
        } else {
            other.size.width
        };
        let dst_w = self.size.width;
        let src_w = other.size.width;
        let ghost d0 = self.frame@;
        let ghost s0 = other.frame@;
        let ghost dw = dst_w as int;
        let ghost sw = src_w as int;
        let ghost mw = min_w as int;
        if dst_w == 0 || min_w == 0 {
            assert(self.frame@ =~= clipped_copy(d0, self.size, s0, other.size));
            return ;
        }
        let dst_len = self.frame.len();
        let src_len = other.frame.len();
        let mut y: usize = 0;
        while y < min_h
            invariant
                dst_len == self.frame@.len(),
                src_len == other.frame@.len(),
                dst_w as int == dw,
                src_w as int == sw,
                self.size == old(self).size,
                self.wf(),
                other.wf(),
                self.frame@.len() == d0.len(),
                d0 == old(self).frame@,
                s0 == other.frame@,
                dw == self.size.width,
                sw == other.size.width,
                mw == min_w,
                dw > 0,
                mw > 0,
                min_w as int == min(dw, sw),
                min_h as int == min(self.size.height as int, other.size.height as int),
                y <= min_h,
                forall|i: int|
                    0 <= i < d0.len() ==> self.frame@[i] == partial_copy(
                        d0,
                        s0,
                        dw,
                        sw,
                        mw,
                        y as int,
                        0,
                        i,
                    ),
                final(self.frame)@ == final(old(self).frame)@,
            decreases min_h - y,
        {
            proof {
                lemma_byte_in_frame(dw, self.size.height as int, y as int, 0);
                lemma_byte_in_frame(sw, other.size.height as int, y as int, 0);
            }
            let dst_begin = 4 * dst_w * y;
            let src_begin = 4 * src_w * y;
            let row_len = 4 * min_w;
            let mut k: usize = 0;
            while k < row_len
                invariant
                    dst_len == self.frame@.len(),
                    src_len == other.frame@.len(),
                    self.size == old(self).size,
                    self.wf(),
                    other.wf(),
                    self.frame@.len() == d0.len(),
                    s0 == other.frame@,
                    dw == self.size.width,
                    sw == other.size.width,
                    mw == min_w,
                    dw > 0,
                    mw > 0,
                    min_w as int == min(dw, sw),
                    min_h as int == min(self.size.height as int, other.size.height as int),
                    y < min_h,
                    dst_begin == 4 * dw * y,
                    src_begin == 4 * sw * y,
                    row_len == 4 * mw,
                    k <= row_len,
                    forall|i: int|
                        0 <= i < d0.len() ==> self.frame@[i] == partial_copy(
                            d0,
                            s0,
                            dw,
                            sw,
                            mw,
                            y as int,
                            k as int,
                            i,
                        ),
                    final(self.frame)@ == final(old(self).frame)@,
                decreases row_len - k,
            {
                proof {
                    lemma_byte_in_frame(dw, self.size.height as int, y as int, k as int);
                    lemma_byte_in_frame(sw, other.size.height as int, y as int, k as int);
                    lemma_row_col(dw, y as int, k as int);
                }
                let v = other.frame[src_begin + k];
                self.frame[dst_begin + k] = v;
                proof {
                    assert forall|i: int| 0 <= i < d0.len() implies self.frame@[i] == partial_copy(
                        d0,
                        s0,
                        dw,
                        sw,
                        mw,
                        y as int,
                        k + 1,
                        i,
                    ) by {
                        lemma_fundamental_div_mod(i, 4 * dw);
                        assert(i == 4 * dw * row_of(i, dw) + col_of(i, dw)) by (nonlinear_arith)
                            requires
                                i == (4 * dw) * (i / (4 * dw)) + i % (4 * dw),
                        ;
                    }
                }
                k = k + 1;
            }
            proof {
                assert forall|i: int| 0 <= i < d0.len() implies self.frame@[i] == partial_copy(
                    d0,
                    s0,
                    dw,
                    sw,
                    mw,
                    y + 1,
                    0,
                    i,
                ) by {
                    assert(col_of(i, dw) < 4 * dw) by {
                        lemma_fundamental_div_mod(i, 4 * dw);
                    }
                }
            }
            y = y + 1;
        }
        assert(self.frame@ =~= clipped_copy(d0, self.size, s0, other.size));
    }
}

} // verus!
