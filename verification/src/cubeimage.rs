//! Cube images: six faces of one width, and the passes of the pyramid from
//! one cube image to another.

use crate::blur::{
    BlurError, buffer_views, cube_blurred, cube_stopped, face_views, footprint_fails, Pass,
    pass_of, Site, spherical_blur_phase, StandardCubeMapTrait,
};
use crate::cubemaputils::{downsample_2x, downsampled, holes_filled, upsample_fill_hole_2x};
use crate::tap::Tap;
use crate::Image;
use vstd::prelude::*;

verus! {

/// The six faces of a cube, each `size` texels wide and stored row by row.
pub struct CubeImage<T> {
    pub size: usize,
    pub faces: Vec<Vec<T>>,
}

impl<T> CubeImage<T> {
    /// Six faces of `size * size` texels each.
    pub open spec fn wf(&self) -> bool {
        &&& self.faces@.len() == 6
        &&& forall|f: int|
            0 <= f < 6 ==> (#[trigger] self.faces@[f])@.len() == self.size * self.size
    }

    /// The texels, face by face. The width is no part of it: `wf` ties the
    /// number of texels of every face to `size`.
    pub open spec fn view(&self) -> Seq<Seq<T>> {
        Seq::new(self.faces@.len(), |f: int| self.faces@[f]@)
    }

    /// One face as an image.
    pub fn face(&self, face: usize) -> (image: Image<&[T]>)
        requires
            self.wf(),
            face < 6,
        ensures
            image.data@ == self@[face as int],
            image.width == self.size,
            image.height == self.size,
    {
        Image { data: self.faces[face].as_slice(), width: self.size, height: self.size }
    }
}

impl<T: Copy> CubeImage<T> {
    /// A cube with every texel set to `fill`.
    pub fn new(size: usize, fill: T) -> (cube: Self)
        requires
            size * size <= usize::MAX,
        ensures
            cube.wf(),
            cube.size == size,
            forall|f: int, i: int|
                0 <= f < 6 && 0 <= i < size * size ==> (#[trigger] cube@[f][i]) == fill,
    {
        let count = size * size;
        let mut faces: Vec<Vec<T>> = Vec::new();
        let mut f: usize = 0;
        while f < 6
            invariant
                count == size * size,
                f <= 6,
                faces@.len() == f,
                forall|g: int| 0 <= g < f ==> (#[trigger] faces@[g])@.len() == count,
                forall|g: int, i: int|
                    0 <= g < f && 0 <= i < count ==> (#[trigger] faces@[g]@[i]) == fill,
            decreases 6 - f,
        {
            let mut texels: Vec<T> = Vec::new();
            let mut i: usize = 0;
            while i < count
                invariant
                    i <= count,
                    texels@.len() == i,
                    forall|j: int| 0 <= j < i ==> (#[trigger] texels@[j]) == fill,
                decreases count - i,
            {
                texels.push(fill);
                i += 1;
            }
            faces.push(texels);
            f += 1;
        }
        CubeImage { size, faces }
    }
}

/// The faces of a cube as a list of slices, as the blur reads them.
pub fn borrow_faces<'a, T>(cube: &'a CubeImage<T>) -> (faces: Vec<&'a [T]>)
    ensures
        face_views(faces@) == cube@,
        faces@.len() == cube.faces@.len(),
        forall|f: int| 0 <= f < faces@.len() ==> (#[trigger] faces@[f])@ == cube.faces@[f]@,
{
    let mut faces: Vec<&'a [T]> = Vec::new();
    let mut f: usize = 0;
    while f < cube.faces.len()
        invariant
            f <= cube.faces@.len(),
            faces@.len() == f,
            forall|g: int| 0 <= g < f ==> (#[trigger] faces@[g])@ == cube.faces@[g]@,
        decreases cube.faces@.len() - f,
    {
        faces.push(cube.faces[f].as_slice());
        f += 1;
    }
    proof {
        assert(face_views(faces@) =~= cube@);
    }
    faces
}

/// A copy of the texels of a face.
pub fn copy_of<T: Copy>(src: &[T]) -> (texels: Vec<T>)
    ensures
        texels@ == src@,
{
    let mut texels: Vec<T> = Vec::new();
    let mut i: usize = 0;
    while i < src.len()
        invariant
            i <= src@.len(),
            texels@.len() == i,
            forall|j: int| 0 <= j < i ==> texels@[j] == src@[j],
        decreases src@.len() - i,
    {
        texels.push(src[i]);
        i += 1;
    }
    assert(texels@ =~= src@);
    texels
}

/// Copies the texels of one face over another of the same size.
pub fn copy_texels<T: Copy>(dst: &mut [T], src: &[T])
    requires
        old(dst)@.len() == src@.len(),
    ensures
        final(dst)@ == src@,
{
    let mut i: usize = 0;
    while i < src.len()
        invariant
            dst@.len() == src@.len(),
            i <= src@.len(),
            forall|j: int| 0 <= j < i ==> dst@[j] == src@[j],
        decreases src@.len() - i,
    {
        dst[i] = src[i];
        i += 1;
    }
    assert(dst@ =~= src@);
}

/// Converts the texels of one face into another of the same size.
pub fn convert_texels<T: Copy, U, C: Fn(T) -> U>(dst: &mut [U], src: &[T], convert: &C)
    requires
        old(dst)@.len() == src@.len(),
        forall|texel: T| call_requires(*convert, (texel,)),
    ensures
        final(dst)@.len() == src@.len(),
        forall|i: int|
            0 <= i < src@.len() ==> call_ensures(*convert, (src@[i],), #[trigger] final(dst)@[i]),
{
    let mut i: usize = 0;
    while i < src.len()
        invariant
            dst@.len() == src@.len(),
            i <= src@.len(),
            forall|texel: T| call_requires(*convert, (texel,)),
            forall|j: int| 0 <= j < i ==> call_ensures(*convert, (src@[j],), #[trigger] dst@[j]),
        decreases src@.len() - i,
    {
        dst[i] = convert(src[i]);
        i += 1;
    }
}

impl<T: Copy> CubeImage<T> {
    /// Copies the texels of a cube of the same width.
    pub fn copy_from(&mut self, src: &CubeImage<T>)
        requires
            old(self).wf(),
            src.wf(),
            src.size == old(self).size,
        ensures
            final(self).wf(),
            final(self).size == old(self).size,
            final(self)@ == src@,
    {
        let mut f: usize = 0;
        while f < 6
            invariant
                f <= 6,
                self.wf(),
                src.wf(),
                self.size == old(self).size,
                src.size == self.size,
                forall|g: int| 0 <= g < f ==> (#[trigger] self.faces@[g])@ == src.faces@[g]@,
            decreases 6 - f,
        {
            copy_texels(self.faces[f].as_mut_slice(), src.faces[f].as_slice());
            f += 1;
        }
        assert(self@ =~= src@);
    }

    /// Halves a cube into this one: every face of this cube is made of the
    /// blocks of two by two texels in the raster, twice as wide as this cube, at
    /// the start of the face of `src`.
    pub fn downsample_from<V: Fn(T, T, T, T) -> T>(&mut self, src: &CubeImage<T>, average: &V)
        requires
            old(self).wf(),
            src.wf(),
            src.size >= 2 * old(self).size,
            forall|a: T, b: T, c: T, d: T| call_requires(*average, (a, b, c, d)),
        ensures
            final(self).wf(),
            final(self).size == old(self).size,
            forall|f: int|
                0 <= f < 6 ==> downsampled(
                    *average,
                    src@[f],
                    old(self).size as int,
                    #[trigger] final(self)@[f],
                ),
    {
        let size = self.size;
        proof {
            assert(4 * size * size <= src.size * src.size) by (nonlinear_arith)
                requires
                    src.size >= 2 * size,
            ;
        }
        let mut f: usize = 0;
        while f < 6
            invariant
                f <= 6,
                self.wf(),
                src.wf(),
                self.size == size,
                4 * size * size <= src.size * src.size,
                forall|a: T, b: T, c: T, d: T| call_requires(*average, (a, b, c, d)),
                forall|g: int|
                    0 <= g < f ==> downsampled(
                        *average,
                        src.faces@[g]@,
                        size as int,
                        #[trigger] self.faces@[g]@,
                    ),
            decreases 6 - f,
        {
            downsample_2x(self.faces[f].as_mut_slice(), src.faces[f].as_slice(), size, average);
            f += 1;
        }
        assert forall|f: int| 0 <= f < 6 implies downsampled(
            *average,
            src@[f],
            size as int,
            #[trigger] self@[f],
        ) by {
            assert(self.faces@[f]@ == self@[f]);
        }
    }

    /// Fills the holes of this cube from a cube half as wide.
    pub fn fill_holes_from<B: Fn(T, T) -> T>(&mut self, src: &CubeImage<T>, blend: &B)
        requires
            old(self).wf(),
            src.wf(),
            old(self).size == 2 * src.size,
            forall|d: T, s: T| call_requires(*blend, (d, s)),
        ensures
            final(self).wf(),
            final(self).size == old(self).size,
            forall|f: int|
                0 <= f < 6 ==> holes_filled(
                    *blend,
                    old(self)@[f],
                    src@[f],
                    src.size as int,
                    #[trigger] final(self)@[f],
                ),
    {
        let size = src.size;
        proof {
            assert((2 * size) * (2 * size) == 4 * size * size) by (nonlinear_arith);
        }
        let mut f: usize = 0;
        while f < 6
            invariant
                f <= 6,
                self.wf(),
                src.wf(),
                src.size == size,
                self.size == 2 * size,
                self.size == old(self).size,
                (2 * size) * (2 * size) == 4 * size * size,
                forall|d: T, s: T| call_requires(*blend, (d, s)),
                forall|g: int| f <= g < 6 ==> (#[trigger] self.faces@[g]) == old(self).faces@[g],
                forall|g: int|
                    0 <= g < f ==> holes_filled(
                        *blend,
                        old(self).faces@[g]@,
                        src.faces@[g]@,
                        size as int,
                        #[trigger] self.faces@[g]@,
                    ),
            decreases 6 - f,
        {
            let over = src.faces[f].as_slice();
            upsample_fill_hole_2x(self.faces[f].as_mut_slice(), over, size, blend);
            f += 1;
        }
        assert forall|f: int| 0 <= f < 6 implies holes_filled(
            *blend,
            old(self)@[f],
            src@[f],
            size as int,
            #[trigger] self@[f],
        ) by {
            assert(self.faces@[f]@ == self@[f]);
        }
    }

    /// Converts this cube into one of the same width.
    pub fn convert_into<U, C: Fn(T) -> U>(&self, dst: &mut CubeImage<U>, convert: &C)
        requires
            self.wf(),
            old(dst).wf(),
            old(dst).size == self.size,
            forall|texel: T| call_requires(*convert, (texel,)),
        ensures
            final(dst).wf(),
            final(dst).size == old(dst).size,
            forall|f: int, i: int|
                0 <= f < 6 && 0 <= i < self.size * self.size ==> call_ensures(
                    *convert,
                    (self@[f][i],),
                    #[trigger] final(dst)@[f][i],
                ),
    {
        let mut f: usize = 0;
        while f < 6
            invariant
                f <= 6,
                self.wf(),
                dst.wf(),
                dst.size == self.size,
                dst.size == old(dst).size,
                forall|texel: T| call_requires(*convert, (texel,)),
                forall|g: int, i: int|
                    0 <= g < f && 0 <= i < self.size * self.size ==> call_ensures(
                        *convert,
                        (self.faces@[g]@[i],),
                        #[trigger] dst.faces@[g]@[i],
                    ),
            decreases 6 - f,
        {
            convert_texels(dst.faces[f].as_mut_slice(), self.faces[f].as_slice(), convert);
            f += 1;
        }
    }
}

/// Whether `after` holds what a blur pass may leave of the cube `source` in
/// a cube that held `before`: the texels of the pass are blurred, the others
/// are as they were.
pub open spec fn blurred_into<T, W, F: Fn(Site<W>) -> Vec<Tap>, A: Fn(T, T, W) -> T>(
    footprint: F,
    accumulate: A,
    zero: T,
    kernel: Seq<W>,
    pass: Pass<W>,
    source: Seq<Seq<T>>,
    before: Seq<Seq<T>>,
    after: Seq<Seq<T>>,
) -> bool {
    &&& cube_blurred(footprint, accumulate, zero, source, kernel, pass, after)
    &&& after.len() == before.len()
    &&& forall|f: int| 0 <= f < after.len() ==> (#[trigger] after[f]).len() == before[f].len()
    &&& forall|f: int, i: int|
        0 <= f < 6 && pass.size * pass.size <= i < before[f].len() ==> (#[trigger] after[f][i])
            == before[f][i]
}

impl<T: Copy> CubeImage<T> {
    /// Blurs the cube `src` into this one: one pass over faces `size` texels
    /// wide, which both cubes are wide enough to hold.
    pub fn blur_from<W: Copy, F: Fn(Site<W>) -> Vec<Tap>, A: Fn(T, T, W) -> T>(
        &mut self,
        src: &CubeImage<T>,
        size: usize,
        kernel: &[W],
        kernel_scale: W,
        phase: usize,
        footprint: &F,
        zero: T,
        accumulate: &A,
    ) -> (r: Result<(), BlurError>)
        requires
            old(self).wf(),
            src.wf(),
            1 <= size <= src.size,
            size <= old(self).size,
            old(self).size * old(self).size <= isize::MAX,
            phase < 3,
            kernel@.len() % 2 == 1,
            forall|site: Site<W>| call_requires(*footprint, (site,)),
            forall|s: T, v: T, w: W| call_requires(*accumulate, (s, v, w)),
        ensures
            final(self).wf(),
            final(self).size == old(self).size,
            r.is_ok() ==> blurred_into(
                *footprint,
                *accumulate,
                zero,
                kernel@,
                pass_of(size, kernel@.len(), kernel_scale, phase, false),
                src@,
                old(self)@,
                final(self)@,
            ),
            r.is_err() ==> r.unwrap_err().x < size && r.unwrap_err().y < size && footprint_fails(
                *footprint,
                pass_of(size, kernel@.len(), kernel_scale, phase, false),
                kernel@.len(),
                r.unwrap_err().face,
                r.unwrap_err().x,
                r.unwrap_err().y,
            ),
            r.is_err() ==> cube_stopped(
                *footprint,
                *accumulate,
                zero,
                src@,
                kernel@,
                pass_of(size, kernel@.len(), kernel_scale, phase, false),
                r.unwrap_err(),
                old(self)@,
                final(self)@,
            ),
    {
        proof {
            assert(size * size <= src.size * src.size && size * size <= self.size * self.size)
                by (nonlinear_arith)
                requires
                    1 <= size <= src.size,
                    size <= self.size,
            ;
        }
        let faces = borrow_faces(src);
        let r = spherical_blur_phase(
            self.faces.as_mut_slice(),
            faces.as_slice(),
            size,
            kernel,
            kernel_scale,
            phase,
            StandardCubeMapTrait,
            footprint,
            zero,
            accumulate,
        );
        proof {
            assert(buffer_views(self.faces@) =~= self@);
            assert(buffer_views(old(self).faces@) =~= old(self)@);
        }
        r
    }
}

} // verus!
