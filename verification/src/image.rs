//! A row-major RGBA image with 8 bits per channel.
use vstd::prelude::*;
use crate::color::Rgba32;

verus! {

/// Pixel `i` of an RGBA byte buffer.
pub open spec fn pixel_of(data: Seq<u8>, i: int) -> Rgba32 {
    Rgba32 { r: data[4 * i], g: data[4 * i + 1], b: data[4 * i + 2], a: data[4 * i + 3] }
}

proof fn lemma_pixel_index(i: int, w: int, h: int)
    requires
        0 <= i < w * h,
        w >= 0,
        h >= 0,
    ensures
        4 * i + 3 < 4 * w * h,
{
    assert(4 * i + 3 < 4 * w * h) by (nonlinear_arith)
        requires 0 <= i < w * h;
}

/// An image of `width * height` pixels stored row by row, four bytes per
/// pixel in red, green, blue, alpha order.
#[derive(Debug)]
pub struct RgbaImage {
    pub width: u32,
    pub height: u32,
    pub data: Vec<u8>,
}

impl RgbaImage {
    /// The buffer holds exactly the image's pixels.
    pub open spec fn wf(&self) -> bool {
        self.data@.len() == 4 * self.width * self.height
    }

    /// The pixels in row-major order.
    pub open spec fn pixels(&self) -> Seq<Rgba32> {
        Seq::new((self.width * self.height) as nat, |i: int| pixel_of(self.data@, i))
    }

    /// A transparent black image.
    pub fn new(width: u32, height: u32) -> (img: RgbaImage)
        requires
            4 * width * height <= usize::MAX,
        ensures
            img.wf(),
            img.width == width,
            img.height == height,
            forall|i: int| 0 <= i < width * height ==> #[trigger] img.pixels()[i] == Rgba32::zero_spec(),
    {
        proof {
            assert(width * height <= 4 * width * height) by (nonlinear_arith);
            assert(4 * width * height == (width * height) * 4) by (nonlinear_arith);
        }
        let n: usize = (width as usize) * (height as usize) * 4;
        let mut data: Vec<u8> = Vec::new();
        let mut i: usize = 0;
        while i < n
            invariant
                0 <= i <= n,
                data@.len() == i,
                forall|j: int| 0 <= j < i ==> #[trigger] data@[j] == 0,
            decreases n - i,
        {
            data.push(0);
            i = i + 1;
        }
        let img = RgbaImage { width, height, data };
        assert forall|i: int| 0 <= i < width * height implies #[trigger] img.pixels()[i] == Rgba32::zero_spec() by {
            lemma_pixel_index(i, width as int, height as int);
        }
        img
    }

    /// Pixel `i` in row-major order.
    pub fn get(&self, i: usize) -> (c: Rgba32)
        requires
            self.wf(),
            i < self.width * self.height,
        ensures
            c == self.pixels()[i as int],
    {
        proof {
            lemma_pixel_index(i as int, self.width as int, self.height as int);
            assert(4 * i + 3 < self.data@.len());
        }
        let _n = self.data.len();
        Rgba32::new(self.data[4 * i], self.data[4 * i + 1], self.data[4 * i + 2], self.data[4 * i + 3])
    }

    /// Sets pixel `i` in row-major order.
    pub fn set(&mut self, i: usize, c: Rgba32)
        requires
            old(self).wf(),
            i < old(self).width * old(self).height,
        ensures
            final(self).wf(),
            final(self).width == old(self).width,
            final(self).height == old(self).height,
            final(self).pixels() == old(self).pixels().update(i as int, c),
    {
        proof {
            lemma_pixel_index(i as int, self.width as int, self.height as int);
        }
        assert(4 * i + 3 < self.data@.len());
        let _n = self.data.len();
        let ghost before = self.pixels();
        let ghost old_data = self.data@;
        self.data.set(4 * i, c.r);
        self.data.set(4 * i + 1, c.g);
        self.data.set(4 * i + 2, c.b);
        self.data.set(4 * i + 3, c.a);
        assert forall|j: int| 0 <= j < before.len() implies #[trigger] self.pixels()[j] == before.update(i as int, c)[j] by {
            lemma_pixel_index(j, self.width as int, self.height as int);
            if j != i {
                assert(self.data@[4 * j] == old_data[4 * j]);
                assert(self.data@[4 * j + 1] == old_data[4 * j + 1]);
                assert(self.data@[4 * j + 2] == old_data[4 * j + 2]);
                assert(self.data@[4 * j + 3] == old_data[4 * j + 3]);
            }
        }
        assert(self.pixels() =~= before.update(i as int, c));
    }
}

} // verus!
