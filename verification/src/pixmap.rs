//! The grayscale surface draw commands are painted onto: one byte per
//! pixel, row-major, white-initialized.

use vstd::prelude::*;
use crate::geom::Rectangle;
use crate::style::WHITE;

verus! {

#[derive(Debug, Clone)]
pub struct Pixmap {
    pub width: u32,
    pub height: u32,
    pub data: Vec<u8>,
}

proof fn lemma_addr_inj(w: int, x1: int, y1: int, x2: int, y2: int)
    by (nonlinear_arith)
    requires
        0 <= x1 < w,
        0 <= x2 < w,
        y1 * w + x1 == y2 * w + x2,
    ensures
        x1 == x2,
        y1 == y2,
{
}

impl Pixmap {
    /// The buffer holds exactly one byte per pixel.
    pub open spec fn wf(self) -> bool {
        self.data@.len() == self.width * self.height
    }

    /// The byte index of pixel `(x, y)`.
    pub open spec fn addr(self, x: int, y: int) -> int {
        y * self.width + x
    }

    /// A white surface of the given dimensions.
    pub fn new(width: u32, height: u32) -> (r: Pixmap)
        requires
            width * height <= 100000000,
        ensures
            r.wf(),
            r.width == width,
            r.height == height,
            forall|k: int| 0 <= k < r.data@.len() ==> r.data@[k] == WHITE,
    {
        proof {
            assert(0 <= (width as int) * (height as int) <= 100000000) by (nonlinear_arith)
                requires
                    width * height <= 100000000,
                    0 <= width,
                    0 <= height,
            ;
        }
        let len = (width as usize) * (height as usize);
        let mut data: Vec<u8> = Vec::new();
        let mut k: usize = 0;
        while k < len
            invariant
                k <= len,
                data@.len() == k,
                forall|t: int| 0 <= t < k ==> data@[t] == WHITE,
            decreases len - k,
        {
            data.push(WHITE);
            k = k + 1;
        }
        Pixmap { width, height, data }
    }

    pub fn dims(&self) -> (r: (u32, u32))
        ensures
            r == (self.width, self.height),
    {
        (self.width, self.height)
    }

    /// Paint one pixel; coordinates off the surface are ignored.
    pub fn set_pixel(&mut self, x: u32, y: u32, color: u8)
        requires
            old(self).wf(),
        ensures
            final(self).wf(),
            final(self).width == old(self).width,
            final(self).height == old(self).height,
            x < old(self).width && y < old(self).height ==> final(self).data@
                == old(self).data@.update(old(self).addr(x as int, y as int), color),
            x >= old(self).width || y >= old(self).height ==> *final(self) == *old(self),
    {
        if x >= self.width || y >= self.height {
            return;
        }
        proof {
            assert(0 <= (y as int) * (self.width as int) + (x as int) < (self.width as int) * (self.height as int))
                by (nonlinear_arith)
                requires
                    0 <= x < self.width,
                    0 <= y < self.height,
            ;
            assert((self.width as int) * (self.height as int) < 0x10000000000000000) by (nonlinear_arith)
                requires
                    self.width <= 0xffffffffu32,
                    self.height <= 0xffffffffu32,
                    0 <= self.width,
                    0 <= self.height,
            ;
        }
        let addr64 = (y as u64) * (self.width as u64) + (x as u64);
        let n = self.data.len();
        let addr = addr64 as usize;
        self.data[addr] = color;
    }

    /// Invert the pixels of a rectangle that lies on the surface; every
    /// pixel outside the rectangle keeps its value.
    pub fn invert_region(&mut self, rect: &Rectangle)
        requires
            old(self).wf(),
            0 <= rect.min.x <= rect.max.x,
            0 <= rect.min.y <= rect.max.y,
            rect.max.x <= old(self).width,
            rect.max.y <= old(self).height,
        ensures
            final(self).wf(),
            final(self).width == old(self).width,
            final(self).height == old(self).height,
            forall|px: int, py: int| rect.min.x <= px < rect.max.x && rect.min.y <= py < rect.max.y
                ==> final(self).data@[#[trigger] old(self).addr(px, py)]
                    == 255 - old(self).data@[old(self).addr(px, py)],
            forall|px: int, py: int| 0 <= px < old(self).width && 0 <= py < old(self).height
                && !(rect.min.x <= px < rect.max.x && rect.min.y <= py < rect.max.y)
                ==> final(self).data@[#[trigger] old(self).addr(px, py)]
                    == old(self).data@[old(self).addr(px, py)],
    {
        let ghost orig = *self;
        let mut y: i32 = rect.min.y;
        while y < rect.max.y
            invariant
                self.wf(),
                self.width == orig.width,
                self.height == orig.height,
                0 <= rect.min.x <= rect.max.x,
                0 <= rect.min.y,
                rect.min.y <= y <= rect.max.y,
                rect.max.x <= orig.width,
                rect.max.y <= orig.height,
                orig.wf(),
                forall|px: int, py: int| rect.min.x <= px < rect.max.x && rect.min.y <= py < y
                    ==> self.data@[#[trigger] orig.addr(px, py)] == 255 - orig.data@[orig.addr(px, py)],
                forall|px: int, py: int| 0 <= px < orig.width && 0 <= py < orig.height
                    && !(rect.min.x <= px < rect.max.x && rect.min.y <= py < y)
                    ==> self.data@[#[trigger] orig.addr(px, py)] == orig.data@[orig.addr(px, py)],
            decreases rect.max.y - y,
        {
            let mut x: i32 = rect.min.x;
            while x < rect.max.x
                invariant
                    self.wf(),
                    self.width == orig.width,
                    self.height == orig.height,
                    0 <= rect.min.x <= x <= rect.max.x,
                    0 <= rect.min.y,
                    rect.min.y <= y < rect.max.y,
                    rect.max.x <= orig.width,
                    rect.max.y <= orig.height,
                    orig.wf(),
                    forall|px: int, py: int| rect.min.x <= px < rect.max.x && rect.min.y <= py < y
                        ==> self.data@[#[trigger] orig.addr(px, py)] == 255 - orig.data@[orig.addr(px, py)],
                    forall|px: int| rect.min.x <= px < x
                        ==> self.data@[#[trigger] orig.addr(px, y as int)]
                            == 255 - orig.data@[orig.addr(px, y as int)],
                    forall|px: int, py: int| 0 <= px < orig.width && 0 <= py < orig.height
                        && !(rect.min.x <= px < rect.max.x && rect.min.y <= py < y)
                        && !(rect.min.x <= px < x && py == y)
                        ==> self.data@[#[trigger] orig.addr(px, py)] == orig.data@[orig.addr(px, py)],
                decreases rect.max.x - x,
            {
                proof {
                    assert(0 <= (y as int) * (orig.width as int) + (x as int)
                        < (orig.width as int) * (orig.height as int)) by (nonlinear_arith)
                        requires
                            0 <= x,
                            x < rect.max.x,
                            rect.max.x <= orig.width,
                            0 <= y,
                            y < rect.max.y,
                            rect.max.y <= orig.height,
                    ;
                    assert((orig.width as int) * (orig.height as int) < 0x10000000000000000) by (nonlinear_arith)
                        requires
                            orig.width <= 0xffffffffu32,
                            orig.height <= 0xffffffffu32,
                            0 <= orig.width,
                            0 <= orig.height,
                    ;
                    assert forall|px: int, py: int| 0 <= px < orig.width && 0 <= py < orig.height
                        && (px != x as int || py != y as int)
                        implies #[trigger] orig.addr(px, py) != orig.addr(x as int, y as int) by {
                        if orig.addr(px, py) == orig.addr(x as int, y as int) {
                            lemma_addr_inj(orig.width as int, px, py, x as int, y as int);
                        }
                    }
                }
                let addr64 = (y as u64) * (self.width as u64) + (x as u64);
                let n = self.data.len();
                let addr = addr64 as usize;
                let ghost before = self.data@;
                let color = 255 - self.data[addr];
                self.data[addr] = color;
                proof {
                    assert(addr as int == orig.addr(x as int, y as int));
                    assert(self.data@ == before.update(orig.addr(x as int, y as int), color));
                    assert(before[orig.addr(x as int, y as int)] == orig.data@[orig.addr(x as int, y as int)]);
                    assert(color == 255 - orig.data@[orig.addr(x as int, y as int)]);
                    assert forall|px: int, py: int| rect.min.x <= px < rect.max.x && rect.min.y <= py < y
                        implies self.data@[#[trigger] orig.addr(px, py)]
                            == 255 - orig.data@[orig.addr(px, py)] by {
                        assert(0 <= py * (orig.width as int) + px
                            < (orig.width as int) * (orig.height as int)) by (nonlinear_arith)
                            requires
                                0 <= px,
                                px < orig.width,
                                0 <= py,
                                py < orig.height,
                        ;
                        if orig.addr(px, py) == orig.addr(x as int, y as int) {
                            lemma_addr_inj(orig.width as int, px, py, x as int, y as int);
                        }
                        assert(self.data@[orig.addr(px, py)] == before[orig.addr(px, py)]);
                    }
                    assert forall|px: int| rect.min.x <= px < x + 1
                        implies self.data@[#[trigger] orig.addr(px, y as int)]
                            == 255 - orig.data@[orig.addr(px, y as int)] by {
                        if px < x as int {
                            assert(0 <= (y as int) * (orig.width as int) + px
                                < (orig.width as int) * (orig.height as int)) by (nonlinear_arith)
                                requires
                                    0 <= px,
                                    px < orig.width,
                                    0 <= y,
                                    y < orig.height,
                            ;
                            if orig.addr(px, y as int) == orig.addr(x as int, y as int) {
                                lemma_addr_inj(orig.width as int, px, y as int, x as int, y as int);
                            }
                            assert(self.data@[orig.addr(px, y as int)] == before[orig.addr(px, y as int)]);
                        }
                    }
                    assert forall|px: int, py: int| 0 <= px < orig.width && 0 <= py < orig.height
                        && !(rect.min.x <= px < rect.max.x && rect.min.y <= py < y)
                        && !(rect.min.x <= px < x + 1 && py == y)
                        implies self.data@[#[trigger] orig.addr(px, py)]
                            == orig.data@[orig.addr(px, py)] by {
                        assert(0 <= py * (orig.width as int) + px
                            < (orig.width as int) * (orig.height as int)) by (nonlinear_arith)
                            requires
                                0 <= px,
                                px < orig.width,
                                0 <= py,
                                py < orig.height,
                        ;
                        if orig.addr(px, py) == orig.addr(x as int, y as int) {
                            lemma_addr_inj(orig.width as int, px, py, x as int, y as int);
                        }
                        assert(self.data@[orig.addr(px, py)] == before[orig.addr(px, py)]);
                    }
                }
                x = x + 1;
            }
            y = y + 1;
        }
    }
}

} // verus!
