use vstd::prelude::*;

verus! {

/// A frame buffer: one word for each pixel, row after row.
#[derive(Debug)]
pub struct Framebuffer {
    pub width: usize,
    pub height: usize,
    pub buf: Vec<u32>,
}

/// The place in the buffer of the pixel in column `x` of row `y`.
pub open spec fn pixel_index(width: usize, x: usize, y: usize) -> int {
    x + y * width
}

impl Framebuffer {
    /// A black frame buffer of the given size; `None` where the number of
    /// its pixels does not fit the machine's word.
    pub fn new(width: usize, height: usize) -> (r: Option<Framebuffer>)
        ensures
            match r {
                Some(fb) => fb.width == width && fb.height == height && fb.buf@ == Seq::new(
                    (width * height) as nat,
                    |i: int| 0u32,
                ),
                None => width * height > usize::MAX,
            },
    {
        let n = match width.checked_mul(height) {
            Some(n) => n,
            None => {
                return None;
            },
        };
        let mut buf: Vec<u32> = Vec::new();
        let mut i: usize = 0;
        while i < n
            invariant
                i <= n,
                buf@ == Seq::new(i as nat, |j: int| 0u32),
            decreases n - i,
        {
            buf.push(0);
            i += 1;
            assert(buf@ =~= Seq::new(i as nat, |j: int| 0u32));
        }
        Some(Framebuffer { width, height, buf })
    }

    /// Sets the pixel in column `x` of row `y` to `color`. A place outside
    /// the buffer is not drawn: the result says whether the pixel was set.
    pub fn draw_pixel(&mut self, x: usize, y: usize, color: u32) -> (r: bool)
        ensures
            final(self).width == old(self).width,
            final(self).height == old(self).height,
            r == (pixel_index(old(self).width, x, y) < old(self).buf.len()),
            r ==> final(self).buf@ == old(self).buf@.update(
                pixel_index(old(self).width, x, y),
                color,
            ),
            !r ==> final(self).buf@ == old(self).buf@,
    {
        let row = match y.checked_mul(self.width) {
            Some(r) => r,
            None => {
                return false;
            },
        };
        let idx = match x.checked_add(row) {
            Some(i) => i,
            None => {
                return false;
            },
        };
        if idx < self.buf.len() {
            self.buf.set(idx, color);
            true
        } else {
            false
        }
    }

    /// The width and the height of the frame buffer.
    pub fn size(&self) -> (r: (usize, usize))
        ensures
            r == (self.width, self.height),
    {
        (self.width, self.height)
    }
}

} // verus!
