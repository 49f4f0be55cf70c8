use vstd::prelude::*;

verus! {

/// An 8-bit RGB colour.
#[derive(Clone, Copy, Debug, PartialEq, Eq, Structural)]
pub struct Rgb {
    pub r: u8,
    pub g: u8,
    pub b: u8,
}

/// Number of bytes of a `width x height` RGB image.
pub open spec fn frame_len(width: nat, height: nat) -> int {
    (width * height * 3) as int
}

/// Offset of the first byte of pixel `(x, y)` in a row-major RGB buffer.
pub open spec fn pixel_offset(width: nat, x: nat, y: nat) -> int {
    ((y * width + x) * 3) as int
}

pub proof fn lemma_pixel_offset_bounds(width: nat, height: nat, x: nat, y: nat)
    requires
        x < width,
        y < height,
    ensures
        0 <= pixel_offset(width, x, y),
        pixel_offset(width, x, y) + 3 <= frame_len(width, height),
{
    assert(y * width + x < height * width) by (nonlinear_arith)
        requires
            x < width,
            y < height,
    ;
    assert(width * height == height * width) by (nonlinear_arith);
}

/// An RGB image with 8-bit channels, stored row by row.
pub struct RgbFrame {
    width: u32,
    height: u32,
    data: Vec<u8>,
}

impl RgbFrame {
    #[verifier::type_invariant]
    spec fn well_formed(self) -> bool {
        self.data@.len() == frame_len(self.width as nat, self.height as nat)
    }

    pub closed spec fn spec_width(self) -> nat {
        self.width as nat
    }

    pub closed spec fn spec_height(self) -> nat {
        self.height as nat
    }

    /// The raw bytes, three per pixel, row by row.
    pub closed spec fn bytes(self) -> Seq<u8> {
        self.data@
    }

    /// The colour of pixel `(x, y)`.
    pub open spec fn pixel(self, x: nat, y: nat) -> Rgb {
        let o = pixel_offset(self.spec_width(), x, y);
        Rgb { r: self.bytes()[o], g: self.bytes()[o + 1], b: self.bytes()[o + 2] }
    }

    /// A black image of the given size.
    pub fn new(width: u32, height: u32) -> (r: RgbFrame)
        requires
            frame_len(width as nat, height as nat) <= usize::MAX,
        ensures
            r.spec_width() == width,
            r.spec_height() == height,
            r.bytes() == Seq::new(frame_len(width as nat, height as nat) as nat, |i: int| 0u8),
    {
        let len: usize = (width as usize) * (height as usize) * 3;
        let mut data: Vec<u8> = Vec::new();
        let mut i: usize = 0;
        while i < len
            invariant
                i <= len,
                data@ == Seq::new(i as nat, |k: int| 0u8),
            decreases len - i,
        {
            data.push(0u8);
            i = i + 1;
            assert(data@ =~= Seq::new(i as nat, |k: int| 0u8));
        }
        RgbFrame { width, height, data }
    }

    /// Wraps a raw buffer, provided it holds exactly three bytes per pixel.
    pub fn from_raw(width: u32, height: u32, data: Vec<u8>) -> (r: Option<RgbFrame>)
        ensures
            r is Some <==> data@.len() == frame_len(width as nat, height as nat),
            r matches Some(f) ==> f.spec_width() == width && f.spec_height() == height
                && f.bytes() == data@,
    {
        let w = width as u64;
        let h = height as u64;
        // width * height fits in u64; the factor 3 may not.
        assert(w * h <= 0xffff_fffe_0000_0001u64) by (nonlinear_arith)
            requires
                w <= 0xffff_ffffu64,
                h <= 0xffff_ffffu64,
        ;
        let area = w * h;
        if area > (data.len() as u64) / 3 || area * 3 != data.len() as u64 {
            None
        } else {
            Some(RgbFrame { width, height, data })
        }
    }

    pub fn width(&self) -> (r: u32)
        ensures
            r == self.spec_width(),
    {
        self.width
    }

    pub fn height(&self) -> (r: u32)
        ensures
            r == self.spec_height(),
    {
        self.height
    }

    /// The raw bytes.
    pub fn as_raw(&self) -> (r: &Vec<u8>)
        ensures
            r@ == self.bytes(),
            r@.len() == frame_len(self.spec_width(), self.spec_height()),
    {
        proof {
            use_type_invariant(self);
        }
        &self.data
    }

    /// Gives up the raw bytes.
    pub fn into_raw(self) -> (r: Vec<u8>)
        ensures
            r@ == self.bytes(),
            r@.len() == frame_len(self.spec_width(), self.spec_height()),
    {
        proof {
            use_type_invariant(&self);
        }
        self.data
    }

    /// The colour of pixel `(x, y)`.
    pub fn get_pixel(&self, x: u32, y: u32) -> (r: Rgb)
        requires
            x < self.spec_width(),
            y < self.spec_height(),
        ensures
            r == self.pixel(x as nat, y as nat),
    {
        proof {
            use_type_invariant(self);
            lemma_pixel_offset_bounds(self.width as nat, self.height as nat, x as nat, y as nat);
        }
        let len = self.data.len();
        proof {
            assert((y as int) * (self.width as int) + (x as int) + 1 <= len as int / 3) by (
            nonlinear_arith)
                requires
                    ((y as int) * (self.width as int) + (x as int)) * 3 + 3 <= len as int,
            ;
        }
        let o: usize = ((y as usize) * (self.width as usize) + (x as usize)) * 3;
        Rgb { r: self.data[o], g: self.data[o + 1], b: self.data[o + 2] }
    }

    /// Overwrites pixel `(x, y)` with `c`.
    pub fn put_pixel(&mut self, x: u32, y: u32, c: Rgb)
        requires
            x < old(self).spec_width(),
            y < old(self).spec_height(),
        ensures
            final(self).spec_width() == old(self).spec_width(),
            final(self).spec_height() == old(self).spec_height(),
            final(self).bytes() == old(self).bytes().update(
                pixel_offset(old(self).spec_width(), x as nat, y as nat),
                c.r,
            ).update(pixel_offset(old(self).spec_width(), x as nat, y as nat) + 1, c.g).update(
                pixel_offset(old(self).spec_width(), x as nat, y as nat) + 2,
                c.b,
            ),
    {
        proof {
            use_type_invariant(&*self);
            lemma_pixel_offset_bounds(self.width as nat, self.height as nat, x as nat, y as nat);
        }
        let len = self.data.len();
        proof {
            assert((y as int) * (self.width as int) + (x as int) + 1 <= len as int / 3) by (
            nonlinear_arith)
                requires
                    ((y as int) * (self.width as int) + (x as int)) * 3 + 3 <= len as int,
            ;
        }
        let o: usize = ((y as usize) * (self.width as usize) + (x as usize)) * 3;
        let mut frame = RgbFrame { width: 0, height: 0, data: Vec::new() };
        std::mem::swap(self, &mut frame);
        let RgbFrame { width, height, mut data } = frame;
        data.set(o, c.r);
        data.set(o + 1, c.g);
        data.set(o + 2, c.b);
        *self = RgbFrame { width, height, data };
    }
}

} // verus!
