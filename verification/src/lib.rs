//! Filtered, multi-resolution environment maps on a cube.
//!
//! An environment map is kept as the six faces of a cube. From a captured
//! cube the crate builds a pyramid of levels, each half as wide and more
//! blurred than the one above it, by an approximate Gaussian blur that runs
//! over the faces and across their edges.
//!
//! The crate holds the discrete half of that work and proves it: the topology
//! of the six faces ([`cubemap`]), the way the raster of a face goes on in the
//! neighbour across an edge ([`edge`], [`tap`]), the traversal of the blur and
//! of the resampling passes ([`blur`], [`cubemaputils`], [`cubeimage`]), and
//! the order in which a pyramid is built ([`pyramid`], [`context`],
//! [`prefilter`]), with the proof that a build depends on the captured cube
//! alone ([`rebuild`]). The arithmetic on samples is handed in by the caller
//! as functions, so the crate holds no numbers of its own but indices.

use vstd::prelude::*;

pub mod blur;
pub mod context;
pub mod cubeimage;
pub mod cubemap;
pub mod cubemaputils;
pub mod edge;
pub mod prefilter;
pub mod pyramid;
pub mod raster;
pub mod rebuild;
pub mod tap;
pub mod vector;

verus! {

/// A rectangular raster: `data` holds `width * height` pixels, row by row.
#[derive(Debug, Copy, Clone)]
pub struct Image<T> {
    pub data: T,
    pub width: usize,
    pub height: usize,
}

impl<T> Image<Vec<T>> {
    /// Borrows the pixels as a slice, keeping the dimensions.
    pub fn as_ref(&self) -> (r: Image<&[T]>)
        ensures
            r.data@ == self.data@,
            r.width == self.width,
            r.height == self.height,
    {
        Image { data: self.data.as_slice(), width: self.width, height: self.height }
    }

    /// Borrows the pixels as a mutable slice, keeping the dimensions. What is
    /// written through the slice is what the image holds afterwards.
    pub fn as_mut(&mut self) -> (r: Image<&mut [T]>)
        ensures
            r.data@ == old(self).data@,
            r.width == old(self).width,
            r.height == old(self).height,
            final(self).data@ == final(r.data)@,
            final(self).width == old(self).width,
            final(self).height == old(self).height,
    {
        Image { data: self.data.as_mut_slice(), width: self.width, height: self.height }
    }
}

} // verus!
