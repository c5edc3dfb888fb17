//! The software framebuffer: an addressable 2D color buffer with a current
//! draw color and a background color, bounds-checked pixel writes, and
//! read-back of the raw pixel store.

use vstd::prelude::*;
use vstd::pervasive::VecAdditionalExecFns;
use crate::ErrorKind;
use crate::game_of_life::{grid_index, lemma_grid_index_bounds, lemma_grid_index_injective};

verus! {

/// A solid RGB color.
#[derive(Clone, Copy, PartialEq, Eq, Structural, Debug)]
pub struct Color {
    pub r: u8,
    pub g: u8,
    pub b: u8,
}

impl Color {
    /// A color from its three channels.
    pub fn new(r: u8, g: u8, b: u8) -> (c: Color)
        ensures
            c == (Color { r, g, b }),
    {
        Color { r, g, b }
    }

    /// Opaque white, the initial draw color of a fresh framebuffer.
    pub fn white() -> (c: Color)
        ensures
            c == (Color { r: 255, g: 255, b: 255 }),
    {
        Color { r: 255, g: 255, b: 255 }
    }
}

/// An in-range flat index decomposes into in-range coordinates whose
/// row-major index is the original one.
pub proof fn lemma_index_to_coords(k: int, width: int, height: int)
    by (nonlinear_arith)
    requires
        1 <= width,
        0 <= k < width * height,
    ensures
        0 <= k % width < width,
        0 <= k / width < height,
        grid_index(k % width, k / width, width) == k,
{
}

/// A 2D color buffer of fixed positive dimensions. The pixel store is flat
/// and row-major: pixel (x, y) lives at index `y * width + x`.
pub struct FrameBuffer {
    pub width: usize,
    pub height: usize,
    pub pixels: Vec<Color>,
    pub background_color: Color,
    pub current_color: Color,
}

impl FrameBuffer {
    /// Well-formedness: positive dimensions that fit the signed pixel
    /// coordinates, and a pixel store of exactly `width * height` colors.
    pub open spec fn wf(&self) -> bool {
        &&& 1 <= self.width <= i32::MAX as int
        &&& 1 <= self.height <= i32::MAX as int
        &&& (self.width as int) * (self.height as int) <= usize::MAX as int
        &&& self.pixels@.len() == (self.width as int) * (self.height as int)
    }

    /// The color stored at in-range coordinates.
    pub open spec fn pixel(&self, x: int, y: int) -> Color {
        self.pixels@[grid_index(x, y, self.width as int)]
    }

    /// Whether (x, y) lies on the canvas.
    pub open spec fn in_bounds(&self, x: int, y: int) -> bool {
        0 <= x < self.width && 0 <= y < self.height
    }

    /// `cur` is `prev` with every pixel reset to `prev`'s background color
    /// and all other state kept.
    pub open spec fn clear_post(prev: FrameBuffer, cur: FrameBuffer) -> bool {
        &&& cur.width == prev.width
        &&& cur.height == prev.height
        &&& cur.background_color == prev.background_color
        &&& cur.current_color == prev.current_color
        &&& cur.wf()
        &&& forall|x: int, y: int|
            cur.in_bounds(x, y) ==> #[trigger] cur.pixel(x, y) == prev.background_color
    }

    /// A framebuffer whose every pixel holds the background color. Fails
    /// exactly on non-positive dimensions (and on a pixel count that the
    /// machine's addressable size cannot hold).
    pub fn new(width: i32, height: i32, background_color: Color) -> (r: Result<
        FrameBuffer,
        ErrorKind,
    >)
        ensures
            r is Ok <==> (1 <= width && 1 <= height && (width as int) * (height as int)
                <= usize::MAX as int),
            r matches Ok(fb) ==> fb.wf() && fb.width == width && fb.height == height
                && fb.background_color == background_color && fb.current_color == (Color {
                r: 255,
                g: 255,
                b: 255,
            }),
            r matches Ok(fb) ==> forall|x: int, y: int|
                fb.in_bounds(x, y) ==> #[trigger] fb.pixel(x, y) == background_color,
            r matches Err(e) ==> e == ErrorKind::InvalidDimensions,
    {
        if width < 1 || height < 1 {
            return Err(ErrorKind::InvalidDimensions);
        }
        let w = width as usize;
        let h = height as usize;
        let n: usize = match w.checked_mul(h) {
            Some(n) => n,
            None => {
                return Err(ErrorKind::InvalidDimensions);
            },
        };
        let mut pixels: Vec<Color> = Vec::new();
        let mut i: usize = 0;
        while i < n
            invariant
                i <= n,
                pixels@.len() == i,
                forall|k: int| 0 <= k < i ==> #[trigger] pixels@[k] == background_color,
            decreases n - i,
        {
            pixels.push(background_color);
            i = i + 1;
        }
        let fb = FrameBuffer {
            width: w,
            height: h,
            pixels,
            background_color,
            current_color: Color::white(),
        };
        proof {
            assert forall|x: int, y: int| fb.in_bounds(x, y) implies #[trigger] fb.pixel(x, y)
                == background_color by {
                lemma_grid_index_bounds(x, y, w as int, h as int);
            }
        }
        Ok(fb)
    }

    /// Overwrites the whole pixel store with one color; dimensions and the
    /// stored colors stay as they were.
    fn fill(&mut self, color: Color)
        requires
            old(self).wf(),
        ensures
            final(self).wf(),
            final(self).width == old(self).width,
            final(self).height == old(self).height,
            final(self).background_color == old(self).background_color,
            final(self).current_color == old(self).current_color,
            forall|x: int, y: int|
                final(self).in_bounds(x, y) ==> #[trigger] final(self).pixel(x, y) == color,
    {
        let n: usize = self.pixels.len();
        let mut pixels: Vec<Color> = Vec::new();
        let mut i: usize = 0;
        while i < n
            invariant
                i <= n,
                pixels@.len() == i,
                forall|k: int| 0 <= k < i ==> #[trigger] pixels@[k] == color,
            decreases n - i,
        {
            pixels.push(color);
            i = i + 1;
        }
        self.pixels = pixels;
        proof {
            assert forall|x: int, y: int| self.in_bounds(x, y) implies #[trigger] self.pixel(x, y)
                == color by {
                lemma_grid_index_bounds(x, y, self.width as int, self.height as int);
            }
        }
    }

    /// Resets every pixel to the stored background color.
    pub fn clear(&mut self)
        requires
            old(self).wf(),
        ensures
            FrameBuffer::clear_post(*old(self), *final(self)),
    {
        let background = self.background_color;
        self.fill(background);
    }

    /// Replaces the background color and clears the canvas to it; all
    /// prior drawing is lost.
    pub fn set_background_color(&mut self, color: Color)
        requires
            old(self).wf(),
        ensures
            final(self).wf(),
            final(self).width == old(self).width,
            final(self).height == old(self).height,
            final(self).background_color == color,
            final(self).current_color == old(self).current_color,
            forall|x: int, y: int|
                final(self).in_bounds(x, y) ==> #[trigger] final(self).pixel(x, y) == color,
    {
        self.background_color = color;
        self.fill(color);
    }

    /// Sets the draw color used by subsequent pixel writes; nothing else
    /// changes.
    pub fn set_color(&mut self, color: Color)
        requires
            old(self).wf(),
        ensures
            final(self).wf(),
            final(self).width == old(self).width,
            final(self).height == old(self).height,
            final(self).background_color == old(self).background_color,
            final(self).current_color == color,
            final(self).pixels@ == old(self).pixels@,
    {
        self.current_color = color;
    }

    /// Writes the current draw color at (x, y) if that lies on the canvas;
    /// out-of-range writes are silently ignored, so drawing code need not
    /// pre-clip.
    pub fn set_pixel(&mut self, x: i32, y: i32)
        requires
            old(self).wf(),
        ensures
            final(self).wf(),
            final(self).width == old(self).width,
            final(self).height == old(self).height,
            final(self).background_color == old(self).background_color,
            final(self).current_color == old(self).current_color,
            forall|i: int, j: int|
                final(self).in_bounds(i, j) ==> #[trigger] final(self).pixel(i, j) == (if i
                    == x && j == y {
                    old(self).current_color
                } else {
                    old(self).pixel(i, j)
                }),
            !old(self).in_bounds(x as int, y as int) ==> final(self).pixels@ == old(self).pixels@,
    {
        if x >= 0 && y >= 0 && (x as usize) < self.width && (y as usize) < self.height {
            proof {
                lemma_grid_index_bounds(x as int, y as int, self.width as int, self.height as int);
            }
            let idx: usize = (y as usize) * self.width + (x as usize);
            let color = self.current_color;
            self.pixels.set(idx, color);
            proof {
                assert forall|i: int, j: int| self.in_bounds(i, j) implies #[trigger] self.pixel(
                    i,
                    j,
                ) == (if i == x && j == y {
                    old(self).current_color
                } else {
                    old(self).pixel(i, j)
                }) by {
                    lemma_grid_index_bounds(i, j, self.width as int, self.height as int);
                    lemma_grid_index_injective(
                        i,
                        j,
                        x as int,
                        y as int,
                        self.width as int,
                        self.height as int,
                    );
                }
            }
        }
    }

    /// Writes the current draw color over the whole rectangle of the given
    /// origin and extent, clipped to the canvas.
    pub(crate) fn fill_rect(&mut self, x0: usize, y0: usize, rect_w: usize, rect_h: usize)
        requires
            old(self).wf(),
        ensures
            final(self).wf(),
            final(self).width == old(self).width,
            final(self).height == old(self).height,
            final(self).background_color == old(self).background_color,
            final(self).current_color == old(self).current_color,
            forall|i: int, j: int|
                final(self).in_bounds(i, j) ==> #[trigger] final(self).pixel(i, j) == (if x0 <= i
                    < x0 + rect_w && y0 <= j < y0 + rect_h {
                    old(self).current_color
                } else {
                    old(self).pixel(i, j)
                }),
    {
        if x0 >= self.width || y0 >= self.height {
            return ;
        }
        let w_clip: usize = if rect_w < self.width - x0 {
            rect_w
        } else {
            self.width - x0
        };
        let h_clip: usize = if rect_h < self.height - y0 {
            rect_h
        } else {
            self.height - y0
        };
        let mut di: usize = 0;
        while di < w_clip
            invariant
                self.wf(),
                self.width == old(self).width,
                self.height == old(self).height,
                self.background_color == old(self).background_color,
                self.current_color == old(self).current_color,
                di <= w_clip,
                x0 < self.width,
                y0 < self.height,
                x0 + w_clip <= self.width,
                y0 + h_clip <= self.height,
                w_clip <= rect_w,
                h_clip <= rect_h,
                x0 + rect_w >= x0 + w_clip,
                y0 + rect_h >= y0 + h_clip,
                self.width <= x0 + rect_w || w_clip == rect_w,
                self.height <= y0 + rect_h || h_clip == rect_h,
                forall|i: int, j: int|
                    self.in_bounds(i, j) ==> #[trigger] self.pixel(i, j) == (if x0 <= i < x0 + di
                        && y0 <= j < y0 + h_clip {
                        old(self).current_color
                    } else {
                        old(self).pixel(i, j)
                    }),
            decreases w_clip - di,
        {
            let mut dj: usize = 0;
            while dj < h_clip
                invariant
                    self.wf(),
                    self.width == old(self).width,
                    self.height == old(self).height,
                    self.background_color == old(self).background_color,
                    self.current_color == old(self).current_color,
                    di < w_clip,
                    dj <= h_clip,
                    x0 < self.width,
                    y0 < self.height,
                    x0 + w_clip <= self.width,
                    y0 + h_clip <= self.height,
                    forall|i: int, j: int|
                        self.in_bounds(i, j) ==> #[trigger] self.pixel(i, j) == (if (x0 <= i < x0
                            + di && y0 <= j < y0 + h_clip) || (i == x0 + di && y0 <= j < y0 + dj) {
                            old(self).current_color
                        } else {
                            old(self).pixel(i, j)
                        }),
                decreases h_clip - dj,
            {
                self.set_pixel((x0 + di) as i32, (y0 + dj) as i32);
                dj = dj + 1;
            }
            di = di + 1;
        }
    }

    /// An independent copy of the pixel store, for frame capture or for an
    /// external presentation layer.
    pub fn snapshot(&self) -> (r: Vec<Color>)
        requires
            self.wf(),
        ensures
            r@ == self.pixels@,
    {
        let n: usize = self.pixels.len();
        let mut out: Vec<Color> = Vec::new();
        let mut i: usize = 0;
        while i < n
            invariant
                i <= n,
                n == self.pixels@.len(),
                out@.len() == i,
                forall|k: int| 0 <= k < i ==> #[trigger] out@[k] == self.pixels@[k],
            decreases n - i,
        {
            out.push(self.pixels[i]);
            i = i + 1;
        }
        proof {
            assert(out@ =~= self.pixels@);
        }
        out
    }
}

/// Law: clearing is idempotent. If `b` is `a` cleared and `c` is `b`
/// cleared, then `c` holds exactly the pixel contents of `b`.
pub proof fn lemma_clear_idempotent(a: FrameBuffer, b: FrameBuffer, c: FrameBuffer)
    requires
        a.wf(),
        FrameBuffer::clear_post(a, b),
        FrameBuffer::clear_post(b, c),
    ensures
        c.pixels@ == b.pixels@,
{
    let w = b.width as int;
    let h = b.height as int;
    assert forall|k: int| 0 <= k < c.pixels@.len() implies c.pixels@[k] == b.pixels@[k] by {
        lemma_index_to_coords(k, w, h);
        let x = k % w;
        let y = k / w;
        assert(c.pixel(x, y) == b.background_color);
        assert(b.pixel(x, y) == a.background_color);
    }
    assert(c.pixels@ =~= b.pixels@);
}

} // verus!
