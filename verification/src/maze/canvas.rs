//! A pixel buffer that the maze is drawn on, with the origin at the bottom
//! left and a margin around the maze.
use vstd::prelude::*;
use crate::maze::common::MARGIN;

verus! {

pub const BACKGROUND_COLOR: u32 = 0x00ffffff;

pub const FOREGROUND_COLOR: u32 = 0xff000000;

/// A `width` by `height` buffer of pixels, stored row by row from the top;
/// drawing is shifted down by `offset` rows.
pub struct Canvas {
    pub width: i32,
    pub height: i32,
    pub offset: i32,
    pub buffer: Vec<u32>,
}

/// The corners of a line or rectangle given bottom-up, in buffer rows: the
/// ends ordered, the left end no less than `0`, the first row `height - 1 - y`
/// of the lower end (no less than `0`), the right end no more than
/// `width - 1`, and the last row `height - 1 - y` of the upper end (no more
/// than `height - 1`).
pub open spec fn normalized(width: int, height: int, sx: int, sy: int, ex: int, ey: int) -> (int, int, int, int) {
    let (sy, ey) = if sy > ey {
        (ey, sy)
    } else {
        (sy, ey)
    };
    let (sx, ex) = if sx > ex {
        (ex, sx)
    } else {
        (sx, ex)
    };
    let sx = if sx < 0 {
        0
    } else {
        sx
    };
    let t = height - sy - 1;
    let sy = if t < 0 {
        0
    } else {
        t
    };
    let ex = if ex >= width {
        width - 1
    } else {
        ex
    };
    let t = height - ey - 1;
    let ey = if t >= height {
        height - 1
    } else {
        t
    };
    (sx, sy, ex, ey)
}

/// A bound on sizes and coordinates under which every index computed in
/// `i32` arithmetic fits.
pub open spec fn small(v: int) -> bool {
    -0x4000 <= v <= 0x4000
}

impl Canvas {
    /// The size and offset are small and the size not negative.
    pub open spec fn fits(&self) -> bool {
        &&& 0 <= self.width && small(self.width as int)
        &&& 0 <= self.height && small(self.height as int)
        &&& small(self.offset as int)
        &&& self.buffer@.len() <= i32::MAX
    }
}

/// All four coordinates are small.
pub open spec fn coords_fit(sx: int, sy: int, ex: int, ey: int) -> bool {
    small(sx) && small(sy) && small(ex) && small(ey)
}

/// The buffer index of the first pixel of a line that starts at column `x`
/// of buffer row `y`.
pub open spec fn line_start(width: int, offset: int, x: int, y: int) -> int {
    (y - MARGIN - offset) * width + (x + MARGIN)
}

/// The pixel `p` rows up from `start`.
pub open spec fn vpix(start: int, width: int, p: int) -> int {
    start - p * width
}

/// The pixel `p` columns right of `start`.
pub open spec fn hpix(start: int, p: int) -> int {
    start + p
}

/// The pixel `x` columns right and `y` rows up from `start`.
pub open spec fn rpix(start: int, width: int, x: int, y: int) -> int {
    start - y * width + x
}

/// The pixels of a vertical line: `length` pixels up from `start`.
pub open spec fn vertical_pixels(start: int, width: int, length: int) -> Set<int> {
    Set::new(|k: int| exists|p: int| 0 <= p < length && k == #[trigger] vpix(start, width, p))
}

/// The pixels of a horizontal line: `length` pixels right from `start`.
pub open spec fn horizontal_pixels(start: int, length: int) -> Set<int> {
    Set::new(|k: int| start <= k < start + length)
}

/// The pixels of a `w` by `h` rectangle whose lower left pixel is `start`.
pub open spec fn rect_pixels(start: int, width: int, w: int, h: int) -> Set<int> {
    Set::new(|k: int| exists|x: int, y: int| 0 <= x < w && 0 <= y < h && k == #[trigger] rpix(start, width, x, y))
}

/// `after` is `before` with the pixels `ps` set to `color`.
pub open spec fn painted(before: Seq<u32>, after: Seq<u32>, ps: Set<int>, color: u32) -> bool {
    &&& after.len() == before.len()
    &&& forall|k: int| 0 <= k < after.len() ==> #[trigger] after[k] == if ps.contains(k) {
        color
    } else {
        before[k]
    }
}

impl Canvas {
    /// Fills the buffer with `(width + 1) * (height + 1)` background pixels.
    pub fn clear(&mut self)
        requires
            old(self).fits(),
        ensures
            final(self).buffer@ == Seq::new(
                ((old(self).width + 1) * (old(self).height + 1)) as nat,
                |i: int| BACKGROUND_COLOR,
            ),
            final(self).width == old(self).width,
            final(self).height == old(self).height,
            final(self).offset == old(self).offset,
    {
        self.buffer = Vec::new();
        proof {
            let w = self.width as int;
            let h = self.height as int;
            assert(0 <= (w + 1) * (h + 1) <= 0x4001 * 0x4001) by (nonlinear_arith)
                requires
                    0 <= w <= 0x4000,
                    0 <= h <= 0x4000,
            ;
        }
        let size = ((self.width + 1) * (self.height + 1)) as usize;
        let ghost (w0, h0, o0) = (self.width, self.height, self.offset);
        let mut i: usize = 0;
        while i < size
            invariant
                i <= size,
                self.width == w0,
                self.height == h0,
                self.offset == o0,
                self.buffer@ == Seq::new(i as nat, |k: int| BACKGROUND_COLOR),
            decreases size - i,
        {
            self.buffer.push(BACKGROUND_COLOR);
            i = i + 1;
            proof {
                assert(self.buffer@ =~= Seq::new(i as nat, |k: int| BACKGROUND_COLOR));
            }
        }
    }

    pub fn set_offset(&mut self, offset: i32)
        ensures
            final(self).offset == offset,
            final(self).width == old(self).width,
            final(self).height == old(self).height,
            final(self).buffer == old(self).buffer,
    {
        self.offset = offset;
    }

    /// The corners in buffer rows (see `normalized`).
    fn normalize_coords(&self, start_x: i32, start_y: i32, end_x: i32, end_y: i32) -> (r: (i32, i32, i32, i32))
        requires
            self.fits(),
            coords_fit(start_x as int, start_y as int, end_x as int, end_y as int),
        ensures
            (r.0 as int, r.1 as int, r.2 as int, r.3 as int) == normalized(
                self.width as int,
                self.height as int,
                start_x as int,
                start_y as int,
                end_x as int,
                end_y as int,
            ),
    {
        let (start_y, end_y) = if start_y > end_y {
            (end_y, start_y)
        } else {
            (start_y, end_y)
        };
        let (start_x, end_x) = if start_x > end_x {
            (end_x, start_x)
        } else {
            (start_x, end_x)
        };
        let start_x = if start_x < 0 {
            0
        } else {
            start_x
        };
        let start_y = {
            let t = self.height - start_y - 1;
            if t < 0 {
                0
            } else {
                t
            }
        };
        let end_x = if end_x >= self.width {
            self.width - 1
        } else {
            end_x
        };
        let end_y = {
            let t = self.height - end_y - 1;
            if t >= self.height {
                self.height - 1
            } else {
                t
            }
        };
        (start_x, start_y, end_x, end_y)
    }

    /// Draws a vertical line (both ends in column `start_x`) in the
    /// foreground colour.
    pub fn draw_vertical_line(&mut self, start_x: i32, start_y: i32, end_x: i32, end_y: i32)
        requires
            start_x == end_x,
            old(self).fits(),
            coords_fit(start_x as int, start_y as int, end_x as int, end_y as int),
            ({
                let (sx, sy, ex, ey) = normalized(
                    old(self).width as int,
                    old(self).height as int,
                    start_x as int,
                    start_y as int,
                    end_x as int,
                    end_y as int,
                );
                let start = line_start(old(self).width as int, old(self).offset as int, sx, sy);
                &&& forall|p: int| 0 <= p < sy - ey ==> 0 <= #[trigger] vpix(start, old(self).width as int, p) < old(self).buffer@.len()
            }),
        ensures
            ({
                let (sx, sy, ex, ey) = normalized(
                    old(self).width as int,
                    old(self).height as int,
                    start_x as int,
                    start_y as int,
                    end_x as int,
                    end_y as int,
                );
                let start = line_start(old(self).width as int, old(self).offset as int, sx, sy);
                painted(
                    old(self).buffer@,
                    final(self).buffer@,
                    vertical_pixels(start, old(self).width as int, sy - ey),
                    FOREGROUND_COLOR,
                )
            }),
            final(self).width == old(self).width,
            final(self).height == old(self).height,
            final(self).offset == old(self).offset,
    {
        let ghost before = self.buffer@;
        let (start_x, start_y, _end_x, end_y) = self.normalize_coords(start_x, start_y, end_x, end_y);
        let length = start_y - end_y;
        proof {
            let r = start_y - MARGIN - self.offset;
            let ww = self.width as int;
            assert(-0x10000 * 0x4000 <= r * ww <= 0x10000 * 0x4000) by (nonlinear_arith)
                requires
                    -0x10000 <= r <= 0x10000,
                    0 <= ww <= 0x4000,
            ;
        }
        let start_point = ((start_y - MARGIN - self.offset) * self.width) + (start_x + MARGIN);
        assert(start_point == line_start(self.width as int, self.offset as int, start_x as int, start_y as int));
        let ghost w = self.width as int;
        let mut pos: i32 = 0;
        while pos < length
            invariant
                0 <= pos <= length || length < 0 && pos == 0,
                w == self.width,
                0 <= w <= 0x4000,
                length <= 0x10000,
                self.width == old(self).width,
                self.height == old(self).height,
                self.offset == old(self).offset,
                self.buffer@.len() == before.len(),
                before.len() <= i32::MAX,
                forall|p: int| 0 <= p < length ==> 0 <= #[trigger] vpix(start_point as int, w, p) < before.len(),
                painted(before, self.buffer@, vertical_pixels(start_point as int, w, pos as int), FOREGROUND_COLOR),
            decreases length - pos,
        {
            let ghost b = self.buffer@;
            assert(0 <= vpix(start_point as int, w, pos as int) < before.len());
            proof {
                let pp = pos as int;
                assert(0 <= pp * w <= 0x10000 * 0x4000) by (nonlinear_arith)
                    requires
                        0 <= pp <= 0x10000,
                        0 <= w <= 0x4000,
                ;
            }
            let idx = (start_point - (pos * self.width)) as usize;
            self.buffer.set(idx, FOREGROUND_COLOR);
            proof {
                assert forall|k: int| 0 <= k < self.buffer@.len() implies #[trigger] self.buffer@[k] == if vertical_pixels(
                    start_point as int,
                    w,
                    pos + 1,
                ).contains(k) {
                    FOREGROUND_COLOR
                } else {
                    before[k]
                } by {
                    if vertical_pixels(start_point as int, w, pos + 1).contains(k) && k != idx {
                        let p = choose|p: int| 0 <= p < pos + 1 && k == #[trigger] vpix(start_point as int, w, p);
                        assert(p != pos);
                        assert(vertical_pixels(start_point as int, w, pos as int).contains(k));
                    }
                    if k == idx {
                        assert(k == vpix(start_point as int, w, pos as int));
                        assert(vertical_pixels(start_point as int, w, pos + 1).contains(k));
                    } else if !vertical_pixels(start_point as int, w, pos + 1).contains(k) {
                        assert(!vertical_pixels(start_point as int, w, pos as int).contains(k));
                    }
                }
            }
            pos = pos + 1;
        }
    }

    /// Draws a horizontal line (both ends in row `start_y`) in the
    /// foreground colour.
    pub fn draw_horizontal_line(&mut self, start_x: i32, start_y: i32, end_x: i32, end_y: i32)
        requires
            start_y == end_y,
            old(self).fits(),
            coords_fit(start_x as int, start_y as int, end_x as int, end_y as int),
            ({
                let (sx, sy, ex, ey) = normalized(
                    old(self).width as int,
                    old(self).height as int,
                    start_x as int,
                    start_y as int,
                    end_x as int,
                    end_y as int,
                );
                let start = line_start(old(self).width as int, old(self).offset as int, sx, sy);
                &&& forall|p: int| 0 <= p < ex - sx ==> 0 <= #[trigger] hpix(start, p) < old(self).buffer@.len()
            }),
        ensures
            ({
                let (sx, sy, ex, ey) = normalized(
                    old(self).width as int,
                    old(self).height as int,
                    start_x as int,
                    start_y as int,
                    end_x as int,
                    end_y as int,
                );
                let start = line_start(old(self).width as int, old(self).offset as int, sx, sy);
                painted(old(self).buffer@, final(self).buffer@, horizontal_pixels(start, ex - sx), FOREGROUND_COLOR)
            }),
            final(self).width == old(self).width,
            final(self).height == old(self).height,
            final(self).offset == old(self).offset,
    {
        let ghost before = self.buffer@;
        let (start_x, start_y, end_x, _end_y) = self.normalize_coords(start_x, start_y, end_x, end_y);
        let length = end_x - start_x;
        proof {
            let r = start_y - MARGIN - self.offset;
            let ww = self.width as int;
            assert(-0x10000 * 0x4000 <= r * ww <= 0x10000 * 0x4000) by (nonlinear_arith)
                requires
                    -0x10000 <= r <= 0x10000,
                    0 <= ww <= 0x4000,
            ;
        }
        let start_point = ((start_y - MARGIN - self.offset) * self.width) + (start_x + MARGIN);
        assert(start_point == line_start(self.width as int, self.offset as int, start_x as int, start_y as int));
        let mut pos: i32 = 0;
        while pos < length
            invariant
                0 <= pos <= length || length < 0 && pos == 0,
                self.width == old(self).width,
                self.height == old(self).height,
                self.offset == old(self).offset,
                self.buffer@.len() == before.len(),
                before.len() <= i32::MAX,
                forall|p: int| 0 <= p < length ==> 0 <= #[trigger] hpix(start_point as int, p) < before.len(),
                painted(before, self.buffer@, horizontal_pixels(start_point as int, pos as int), FOREGROUND_COLOR),
            decreases length - pos,
        {
            assert(0 <= hpix(start_point as int, pos as int) < before.len());
            self.buffer.set((start_point + pos) as usize, FOREGROUND_COLOR);
            pos = pos + 1;
        }
    }

    /// Fills a `width` by `height` rectangle whose lower left corner is at
    /// `(start_x, start_y)` with `color`.
    pub fn fill_square(&mut self, start_x: i32, start_y: i32, width: i32, height: i32, color: u32)
        requires
            start_x >= 0,
            start_y >= 0,
            width >= 0,
            height >= 0,
            old(self).fits(),
            coords_fit(start_x as int, start_y as int, width as int, height as int),
            ({
                let real_start_y = old(self).height - start_y - 1 - old(self).offset;
                let start = (real_start_y - MARGIN) * old(self).width + (start_x + MARGIN);
                forall|x: int, y: int|
                    0 <= x < width && 0 <= y < height ==> 0 <= #[trigger] rpix(start, old(self).width as int, x, y) < old(
                        self,
                    ).buffer@.len()
            }),
        ensures
            ({
                let real_start_y = old(self).height - start_y - 1 - old(self).offset;
                let start = (real_start_y - MARGIN) * old(self).width + (start_x + MARGIN);
                painted(old(self).buffer@, final(self).buffer@, rect_pixels(start, old(self).width as int, width as int, height as int), color)
            }),
            final(self).width == old(self).width,
            final(self).height == old(self).height,
            final(self).offset == old(self).offset,
    {
        let ghost before = self.buffer@;
        let ghost w = self.width as int;
        let real_start_y = self.height - start_y - 1 - self.offset;
        proof {
            let r = real_start_y - MARGIN;
            let ww = self.width as int;
            assert(-0x10000 * 0x4000 <= r * ww <= 0x10000 * 0x4000) by (nonlinear_arith)
                requires
                    -0x10000 <= r <= 0x10000,
                    0 <= ww <= 0x4000,
            ;
        }
        let start_point = ((real_start_y - MARGIN) * self.width) + (start_x + MARGIN);
        assert(start_point == (old(self).height - start_y - 1 - old(self).offset - MARGIN) * old(self).width + (
        start_x + MARGIN));
        let mut x_pos: i32 = 0;
        while x_pos < width
            invariant
                0 <= x_pos <= width,
                w == self.width,
                self.width == old(self).width,
                self.height == old(self).height,
                self.offset == old(self).offset,
                self.buffer@.len() == before.len(),
                before.len() <= i32::MAX,
                0 <= height <= 0x4000,
                0 <= w <= 0x4000,
                -0x50000000 <= start_point <= 0x50000000,
                width <= 0x4000,
                forall|x: int, y: int|
                    0 <= x < width && 0 <= y < height ==> 0 <= #[trigger] rpix(start_point as int, w, x, y) < before.len(),
                painted(before, self.buffer@, rect_pixels(start_point as int, w, x_pos as int, height as int), color),
            decreases width - x_pos,
        {
            let ghost col_start = self.buffer@;
            let mut y_pos: i32 = 0;
            while y_pos < height
                invariant
                    0 <= x_pos < width,
                    0 <= y_pos <= height,
                    w == self.width,
                    self.width == old(self).width,
                    self.height == old(self).height,
                    self.offset == old(self).offset,
                    self.buffer@.len() == before.len(),
                    0 <= height <= 0x4000,
                    0 <= w <= 0x4000,
                    -0x50000000 <= start_point <= 0x50000000,
                    width <= 0x4000,
                    forall|x: int, y: int|
                        0 <= x < width && 0 <= y < height ==> 0 <= #[trigger] rpix(start_point as int, w, x, y) < before.len(),
                    painted(before, col_start, rect_pixels(start_point as int, w, x_pos as int, height as int), color),
                    forall|k: int| 0 <= k < self.buffer@.len() ==> #[trigger] self.buffer@[k] == if (exists|y: int|
                        0 <= y < y_pos && k == #[trigger] rpix(start_point as int, w, x_pos as int, y)) {
                        color
                    } else {
                        col_start[k]
                    },
                decreases height - y_pos,
            {
                assert(0 <= rpix(start_point as int, w, x_pos as int, y_pos as int) < before.len());
                proof {
                    let yy = y_pos as int;
                    assert(0 <= yy * w <= 0x4000 * 0x4000) by (nonlinear_arith)
                        requires
                            0 <= yy <= 0x4000,
                            0 <= w <= 0x4000,
                    ;
                }
                let pos = start_point - (y_pos * self.width) + x_pos;
                let ghost b = self.buffer@;
                self.buffer.set(pos as usize, color);
                proof {
                    assert forall|k: int| 0 <= k < self.buffer@.len() implies #[trigger] self.buffer@[k] == if (exists|y: int|
                        0 <= y < y_pos + 1 && k == #[trigger] rpix(start_point as int, w, x_pos as int, y)) {
                        color
                    } else {
                        col_start[k]
                    } by {
                        if k == pos {
                            assert(k == rpix(start_point as int, w, x_pos as int, y_pos as int));
                        } else {
                            if exists|y: int| 0 <= y < y_pos + 1 && k == #[trigger] rpix(start_point as int, w, x_pos as int, y) {
                                let y = choose|y: int| 0 <= y < y_pos + 1 && k == #[trigger] rpix(start_point as int, w, x_pos as int, y);
                                assert(y != y_pos);
                            }
                        }
                    }
                }
                y_pos = y_pos + 1;
            }
            proof {
                assert forall|k: int| 0 <= k < self.buffer@.len() implies #[trigger] self.buffer@[k] == if rect_pixels(
                    start_point as int,
                    w,
                    x_pos + 1,
                    height as int,
                ).contains(k) {
                    color
                } else {
                    before[k]
                } by {
                    let in_col = exists|y: int| 0 <= y < height && k == #[trigger] rpix(start_point as int, w, x_pos as int, y);
                    if rect_pixels(start_point as int, w, x_pos + 1, height as int).contains(k) && !in_col {
                        let (x, y) = choose|x: int, y: int|
                            0 <= x < x_pos + 1 && 0 <= y < height && k == #[trigger] rpix(start_point as int, w, x, y);
                        assert(x != x_pos);
                        assert(rect_pixels(start_point as int, w, x_pos as int, height as int).contains(k));
                    }
                    if in_col {
                        let y = choose|y: int| 0 <= y < height && k == #[trigger] rpix(start_point as int, w, x_pos as int, y);
                        assert(rect_pixels(start_point as int, w, x_pos + 1, height as int).contains(k));
                    } else if !rect_pixels(start_point as int, w, x_pos + 1, height as int).contains(k) {
                        assert(!rect_pixels(start_point as int, w, x_pos as int, height as int).contains(k));
                    }
                }
            }
            x_pos = x_pos + 1;
        }
    }
}

} // verus!
