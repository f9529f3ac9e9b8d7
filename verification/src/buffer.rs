use vstd::prelude::*;
use crate::Resolution;

verus! {

/// Two images of one size: one to show and one to draw into. `swap` makes
/// the drawn one the shown one, so that a reader never sees an image that
/// is only partly drawn.
pub struct FrameBuffer {
    res: Resolution,
    front_buffer: Vec<u8>,
    rear_buffer: Vec<u8>,
    swap: bool,
}

impl FrameBuffer {
    /// The size that both images were made for.
    pub closed spec fn resolution(&self) -> Resolution {
        self.res
    }

    /// The bytes of the image that is shown.
    pub closed spec fn readable(&self) -> Seq<u8> {
        if self.swap {
            self.front_buffer@
        } else {
            self.rear_buffer@
        }
    }

    /// The bytes of the image that is drawn into.
    pub closed spec fn writable(&self) -> Seq<u8> {
        if self.swap {
            self.rear_buffer@
        } else {
            self.front_buffer@
        }
    }

    /// Both images have four bytes for each pixel. This holds of a new
    /// buffer and is kept by `swap`, and by drawing as long as the image
    /// drawn into keeps its length.
    pub open spec fn wf(&self) -> bool {
        &&& self.readable().len() == self.resolution().bytes()
        &&& self.writable().len() == self.resolution().bytes()
    }

    /// Makes two images of size `res` with every byte at 255: white and
    /// fully opaque.
    pub fn new(res: Resolution) -> (buffer: FrameBuffer)
        requires
            res.bytes() <= usize::MAX,
        ensures
            buffer.wf(),
            buffer.resolution() == res,
            buffer.readable() == Seq::new(res.bytes() as nat, |i: int| 255u8),
            buffer.writable() == Seq::new(res.bytes() as nat, |i: int| 255u8),
    {
        proof {
            assert(res.width * res.height <= 4 * (res.width * res.height)) by (nonlinear_arith);
        }
        let pixels: usize = res.width as usize * res.height as usize;
        let bytes: usize = 4 * pixels;
        let front_buffer: Vec<u8> = vec![255u8; bytes];
        let rear_buffer: Vec<u8> = vec![255u8; bytes];
        proof {
            assert(front_buffer@ =~= Seq::new(res.bytes() as nat, |i: int| 255u8));
            assert(rear_buffer@ =~= Seq::new(res.bytes() as nat, |i: int| 255u8));
        }
        FrameBuffer { res, front_buffer, rear_buffer, swap: true }
    }

    /// The image to show.
    pub fn read_buffer(&self) -> (image: &Vec<u8>)
        ensures
            image@ == self.readable(),
    {
        if self.swap {
            &self.front_buffer
        } else {
            &self.rear_buffer
        }
    }

    /// The image to draw into. What is written through the result becomes
    /// the drawn image; the shown image and the size stay as they are.
    pub fn write_buffer(&mut self) -> (image: &mut Vec<u8>)
        ensures
            image@ == old(self).writable(),
            final(self).writable() == final(image)@,
            final(self).readable() == old(self).readable(),
            final(self).resolution() == old(self).resolution(),
    {
        if self.swap {
            &mut self.rear_buffer
        } else {
            &mut self.front_buffer
        }
    }

    /// Exchanges the two images: what was drawn is now shown.
    pub fn swap(&mut self)
        ensures
            final(self).readable() == old(self).writable(),
            final(self).writable() == old(self).readable(),
            final(self).resolution() == old(self).resolution(),
            old(self).wf() ==> final(self).wf(),
    {
        self.swap = !self.swap;
    }
}

} // verus!
