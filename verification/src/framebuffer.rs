//! An owned RGBA pixel buffer with a current drawing color and
//! bounds-checked pixel writes; rows are stored flat, row-major.

use vstd::prelude::*;

use crate::color::Color;

verus! {

pub struct Framebuffer {
    pub width: u32,
    pub height: u32,
    pub data: Vec<Color>,
    pub background_color: Color,
    pub current_color: Color,
}

impl Framebuffer {
    /// Well-formedness: the flat buffer holds exactly one sample per pixel
    /// and the dimensions are non-degenerate and small enough that every
    /// pixel index fits comfortably in a machine word.
    pub open spec fn wf(&self) -> bool {
        &&& 1 <= self.width <= 4096
        &&& 1 <= self.height <= 4096
        &&& self.data.len() == (self.width as int) * (self.height as int)
    }

    /// The sample at column `x`, row `y`.
    pub open spec fn spec_pixel(&self, x: int, y: int) -> Color {
        self.data[y * (self.width as int) + x]
    }

    /// The two buffers have the same dimensions and the same fixed colors;
    /// only the pixel contents may differ.
    pub open spec fn same_shape(&self, other: &Framebuffer) -> bool {
        &&& self.width == other.width
        &&& self.height == other.height
        &&& self.background_color == other.background_color
        &&& self.current_color == other.current_color
    }

    /// A buffer of the given dimensions with every pixel set to the
    /// background color, and white as the initial drawing color.
    pub fn new(width: u32, height: u32, background_color: Color) -> (fb: Framebuffer)
        requires
            1 <= width <= 4096,
            1 <= height <= 4096,
        ensures
            fb.wf(),
            fb.width == width,
            fb.height == height,
            fb.background_color == background_color,
            fb.current_color == (Color { r: 255, g: 255, b: 255, a: 255 }),
            forall|k: int| 0 <= k < fb.data.len() ==> fb.data[k] == background_color,
    {
        proof {
            assert((width as int) * (height as int) <= 4096 * 4096) by (nonlinear_arith)
                requires
                    width <= 4096,
                    height <= 4096,
            ;
        }
        let n: usize = (width as usize) * (height as usize);
        let mut data: Vec<Color> = Vec::new();
        let mut k: usize = 0;
        while k < n
            invariant
                data.len() == k,
                k <= n,
                forall|i: int| 0 <= i < k ==> data[i] == background_color,
            decreases n - k,
        {
            data.push(background_color);
            k = k + 1;
        }
        Framebuffer {
            width,
            height,
            data,
            background_color,
            current_color: Color { r: 255, g: 255, b: 255, a: 255 },
        }
    }

    /// Resets every pixel to the background color.
    pub fn clear(&mut self)
        requires
            old(self).wf(),
        ensures
            final(self).wf(),
            final(self).same_shape(old(self)),
            final(self).data.len() == old(self).data.len(),
            forall|k: int|
                0 <= k < final(self).data.len() ==> final(self).data[k] == final(
                    self).background_color,
    {
        let n: usize = self.data.len();
        let mut k: usize = 0;
        while k < n
            invariant
                self.wf(),
                self.same_shape(old(self)),
                self.data.len() == n,
                k <= n,
                forall|i: int| 0 <= i < k ==> self.data[i] == self.background_color,
            decreases n - k,
        {
            let bg = self.background_color;
            self.data.set(k, bg);
            k = k + 1;
        }
    }

    /// Selects the color that subsequent pixel writes will store.
    pub fn set_current_color(&mut self, c: Color)
        ensures
            final(self).current_color == c,
            final(self).width == old(self).width,
            final(self).height == old(self).height,
            final(self).background_color == old(self).background_color,
            final(self).data == old(self).data,
            forall|px: int, py: int|
                final(self).spec_pixel(px, py) == old(self).spec_pixel(px, py),
    {
        self.current_color = c;
    }

    /// Writes the current color at `(x, y)`; writes outside the buffer are
    /// ignored rather than failing.
    pub fn set_pixel(&mut self, x: u32, y: u32)
        requires
            old(self).wf(),
        ensures
            final(self).wf(),
            final(self).same_shape(old(self)),
            final(self).data.len() == old(self).data.len(),
            x < old(self).width && y < old(self).height ==> {
                &&& 0 <= (y as int) * (old(self).width as int) + (x as int) < old(
                    self).data.len()
                &&& final(self).data[(y as int) * (old(self).width as int) + (x as int)] == old(
                    self).current_color
                &&& forall|k: int|
                    0 <= k < old(self).data.len() && k != (y as int) * (old(self).width as int)
                        + (x as int) ==> final(self).data[k] == old(self).data[k]
            },
            !(x < old(self).width && y < old(self).height) ==> final(self).data == old(self).data,
            x < old(self).width && y < old(self).height ==> final(self).spec_pixel(
                x as int,
                y as int,
            ) == old(self).current_color,
            forall|px: int, py: int|
                0 <= px < old(self).width && 0 <= py < old(self).height && !(px == x as int && py
                    == y as int) ==> final(self).spec_pixel(px, py) == old(self).spec_pixel(
                    px,
                    py,
                ),
    {
        if x < self.width && y < self.height {
            proof {
                assert((y as int) * (self.width as int) + (x as int) < (self.width as int) * (
                self.height as int) && (y as int) * (self.width as int) + (x as int)
                    < 0x100_0000) by (nonlinear_arith)
                    requires
                        y < self.height,
                        x < self.width,
                        self.width <= 4096,
                        self.height <= 4096,
                ;
            }
            let idx: usize = (y as usize) * (self.width as usize) + (x as usize);
            let c = self.current_color;
            self.data.set(idx, c);
            proof {
                let w = old(self).width as int;
                let h = old(self).height as int;
                assert forall|px: int, py: int|
                    0 <= px < w && 0 <= py < h && !(px == x as int && py == y as int) implies self.spec_pixel(
                    px,
                    py,
                ) == old(self).spec_pixel(px, py) by {
                    Framebuffer::lemma_pixel_index_injective(w, x as int, y as int, px, py);
                    assert(0 <= py * w + px < w * h) by (nonlinear_arith)
                        requires
                            0 <= px < w,
                            0 <= py < h,
                    ;
                }
            }
        }
    }

    /// Two pixel coordinates share a flat index only if they are the same
    /// pixel.
    pub proof fn lemma_pixel_index_injective(w: int, x1: int, y1: int, x2: int, y2: int)
        requires
            0 <= x1 < w,
            0 <= x2 < w,
        ensures
            (y1 * w + x1 == y2 * w + x2) <==> (x1 == x2 && y1 == y2),
    {
        assert((y1 * w + x1 == y2 * w + x2) <==> (x1 == x2 && y1 == y2)) by (nonlinear_arith)
            requires
                0 <= x1 < w,
                0 <= x2 < w,
        ;
    }

    /// Reads the sample at `(x, y)`.
    pub fn get_pixel(&self, x: u32, y: u32) -> (c: Color)
        requires
            self.wf(),
            x < self.width,
            y < self.height,
        ensures
            c == self.spec_pixel(x as int, y as int),
    {
        proof {
            assert((y as int) * (self.width as int) + (x as int) < (self.width as int) * (
            self.height as int) && (y as int) * (self.width as int) + (x as int)
                < 0x100_0000) by (nonlinear_arith)
                requires
                    y < self.height,
                    x < self.width,
                    self.width <= 4096,
                    self.height <= 4096,
            ;
        }
        let idx: usize = (y as usize) * (self.width as usize) + (x as usize);
        self.data[idx]
    }
}

} // verus!
