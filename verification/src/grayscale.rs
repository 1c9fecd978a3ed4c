//! A rectangle of eight-bit grayscale pixels.

use vstd::prelude::*;

verus! {

/// A rectangle of grayscale pixels, one byte each. A map of `size` `(w, h)`
/// holds `w * h` pixels.
pub struct GrayscaleMap {
    pixels: Vec<u8>,
    size: (usize, usize),
}

impl GrayscaleMap {
    /// There is one pixel for each place of the rectangle.
    #[verifier::type_invariant]
    pub closed spec fn well_formed(&self) -> bool {
        self.pixels@.len() == self.size.0 * self.size.1
    }

    /// The pixels of the map.
    pub closed spec fn spec_pixels(&self) -> Seq<u8> {
        self.pixels@
    }

    /// The two sides of the rectangle.
    pub closed spec fn spec_size(&self) -> (usize, usize) {
        self.size
    }

    /// The pixels of the map, as many as the product of its two sides.
    pub fn pixels(&self) -> (p: &Vec<u8>)
        ensures
            p@ == self.spec_pixels(),
            p@.len() == self.spec_size().0 * self.spec_size().1,
    {
        proof {
            use_type_invariant(self);
        }
        &self.pixels
    }

    /// The two sides of the rectangle.
    pub fn size(&self) -> (s: (usize, usize))
        ensures
            s == self.spec_size(),
    {
        self.size
    }
}

/// A map of the given size over the given pixels. There must be as many
/// pixels as the size asks for.
pub fn new_map(size: (usize, usize), pixels: Vec<u8>) -> (m: GrayscaleMap)
    requires
        pixels@.len() == size.0 * size.1,
    ensures
        m.spec_size() == size,
        m.spec_pixels() == pixels@,
{
    GrayscaleMap { pixels, size }
}

} // verus!
