//! A processing context: the buffers of a pyramid, allocated once, and the
//! building of the pyramid in them.

use crate::blur::{BlurError, cube_stopped, footprint_fails, Pass, pass_of, Site};
use crate::cubeimage::{blurred_into, copy_of, CubeImage};
use crate::cubemap::{CubeFace, lemma_face_identity};
use crate::cubemaputils::{
    downsampled, halved, holes_filled, level_size, MipPyramidGenSetup, passes_of,
};
use crate::pyramid::{first_step, lemma_schedule, next_step, schedule, schedule_len, Step};
use crate::tap::Tap;
use crate::Image;
use vstd::prelude::*;

verus! {

/// The number of times the finest level can be halved.
pub const LOG_SIZE: usize = 6;

/// The width of the finest level in texels.
pub const SIZE: usize = 64;

/// The width of a level of the pyramid.
pub open spec fn level_width(level: int) -> nat {
    halved(SIZE as nat, level as nat)
}

/// The widths of the levels, written out.
pub proof fn lemma_level_widths()
    ensures
        level_width(0) == 64,
        level_width(1) == 32,
        level_width(2) == 16,
        level_width(3) == 8,
        level_width(4) == 4,
        level_width(5) == 2,
        level_width(6) == 1,
{
    reveal_with_fuel(halved, 8);
}

/// What a context holds, as its contracts see it: texels by level, face and
/// index.
pub struct PyramidView<T, U> {
    /// The captured cube.
    pub raw: Seq<Seq<T>>,
    /// The levels of the pyramid, finest first.
    pub levels: Seq<Seq<Seq<T>>>,
    /// The levels of the pyramid as converted for display.
    pub converted: Seq<Seq<Seq<U>>>,
    /// The first of the two cubes that the blur passes through.
    pub temp1: Seq<Seq<T>>,
    /// The second of the two cubes that the blur passes through.
    pub temp2: Seq<Seq<T>>,
}

/// Whether `cube` holds six faces of `width * width` texels.
pub open spec fn is_cube<T>(cube: Seq<Seq<T>>, width: nat) -> bool {
    &&& cube.len() == 6
    &&& forall|f: int| 0 <= f < 6 ==> (#[trigger] cube[f]).len() == width * width
}

impl<T, U> PyramidView<T, U> {
    /// The captured cube and the two cubes of the blur are as wide as the
    /// finest level; there is a level for each width down to one texel.
    pub open spec fn wf(self) -> bool {
        &&& is_cube(self.raw, SIZE as nat)
        &&& is_cube(self.temp1, SIZE as nat)
        &&& is_cube(self.temp2, SIZE as nat)
        &&& self.levels.len() == LOG_SIZE + 1
        &&& self.converted.len() == LOG_SIZE + 1
        &&& forall|level: int|
            0 <= level <= LOG_SIZE ==> is_cube(#[trigger] self.levels[level], level_width(level))
        &&& forall|level: int|
            0 <= level <= LOG_SIZE ==> is_cube(
                #[trigger] self.converted[level],
                level_width(level),
            )
    }
}

/// The buffers in which a pyramid is built: the captured cube, the levels of
/// the pyramid in the working format and in the format for display, and two
/// cubes for the blur to pass through.
pub struct Context<T, U> {
    raw_cube: CubeImage<T>,
    env_cube_levels: Vec<CubeImage<T>>,
    converted_cube_levels: Vec<CubeImage<U>>,
    temp1: CubeImage<T>,
    temp2: CubeImage<T>,
}

/// The texels of a list of cubes.
pub open spec fn level_views<T>(levels: Seq<CubeImage<T>>) -> Seq<Seq<Seq<T>>> {
    Seq::new(levels.len(), |level: int| levels[level]@)
}

/// Whether the cubes of a list have the widths of the levels.
pub open spec fn levels_wf<T>(levels: Seq<CubeImage<T>>) -> bool {
    &&& levels.len() == LOG_SIZE + 1
    &&& forall|level: int|
        0 <= level <= LOG_SIZE ==> (#[trigger] levels[level]).wf() && levels[level].size
            == level_width(level)
}

impl<T, U> Context<T, U> {
    /// What the context holds.
    pub closed spec fn view(&self) -> PyramidView<T, U> {
        PyramidView {
            raw: self.raw_cube@,
            levels: level_views(self.env_cube_levels@),
            converted: level_views(self.converted_cube_levels@),
            temp1: self.temp1@,
            temp2: self.temp2@,
        }
    }

    /// Whether every buffer has the size that goes with its place.
    pub closed spec fn wf(&self) -> bool {
        &&& self.raw_cube.wf() && self.raw_cube.size == SIZE
        &&& self.temp1.wf() && self.temp1.size == SIZE
        &&& self.temp2.wf() && self.temp2.size == SIZE
        &&& levels_wf(self.env_cube_levels@)
        &&& levels_wf(self.converted_cube_levels@)
    }

    /// A context with well-formed buffers holds a well-formed pyramid.
    pub proof fn lemma_view_wf(&self)
        requires
            self.wf(),
        ensures
            self@.wf(),
    {
        assert forall|level: int| 0 <= level <= LOG_SIZE implies is_cube(
            #[trigger] self@.levels[level],
            level_width(level),
        ) by {
            assert(self.env_cube_levels@[level].wf());
        }
        assert forall|level: int| 0 <= level <= LOG_SIZE implies is_cube(
            #[trigger] self@.converted[level],
            level_width(level),
        ) by {
            assert(self.converted_cube_levels@[level].wf());
        }
    }

    /// The width of the finest level.
    pub fn image_size(&self) -> (size: usize)
        ensures
            size == SIZE,
    {
        SIZE
    }

    /// One face of one level of the pyramid, as converted for display.
    pub fn output_image(&self, mip_level: usize, cube_face: usize) -> (image: Image<&[U]>)
        requires
            self.wf(),
            mip_level <= LOG_SIZE,
            cube_face < 6,
        ensures
            image.data@ == self@.converted[mip_level as int][cube_face as int],
            image.width == level_width(mip_level as int),
            image.height == level_width(mip_level as int),
    {
        assert(self.converted_cube_levels@[mip_level as int].wf());
        self.converted_cube_levels[mip_level].face(cube_face)
    }

    /// One face of one level of the pyramid, in the working format.
    pub fn level_image(&self, mip_level: usize, cube_face: usize) -> (image: Image<&[T]>)
        requires
            self.wf(),
            mip_level <= LOG_SIZE,
            cube_face < 6,
        ensures
            image.data@ == self@.levels[mip_level as int][cube_face as int],
            image.width == level_width(mip_level as int),
            image.height == level_width(mip_level as int),
    {
        assert(self.env_cube_levels@[mip_level as int].wf());
        self.env_cube_levels[mip_level].face(cube_face)
    }

    /// One face of the captured cube.
    pub fn raw_image(&self, cube_face: usize) -> (image: Image<&[T]>)
        requires
            self.wf(),
            cube_face < 6,
        ensures
            image.data@ == self@.raw[cube_face as int],
            image.width == SIZE,
            image.height == SIZE,
    {
        self.raw_cube.face(cube_face)
    }

    /// Replaces one face of the captured cube, if `texels` holds a face of
    /// the width of the finest level; says whether it did.
    pub fn set_raw_image(&mut self, cube_face: usize, texels: Vec<T>) -> (done: bool)
        requires
            old(self).wf(),
            cube_face < 6,
        ensures
            final(self).wf(),
            done == (texels@.len() == SIZE * SIZE),
            done ==> final(self)@ == (PyramidView {
                raw: old(self)@.raw.update(cube_face as int, texels@),
                ..old(self)@
            }),
            !done ==> final(self)@ == old(self)@,
    {
        if texels.len() != SIZE * SIZE {
            return false;
        }
        self.raw_cube.faces[cube_face] = texels;
        proof {
            assert(self.raw_cube@ =~= old(self)@.raw.update(cube_face as int, texels@));
        }
        true
    }
}

impl<T: Copy, U: Copy> Context<T, U> {
    /// A context with every texel of the working buffers set to `zero` and
    /// every texel of the converted levels set to `blank`.
    pub fn new(zero: T, blank: U) -> (context: Self)
        ensures
            context.wf(),
            context@.wf(),
            forall|f: int, i: int|
                0 <= f < 6 && 0 <= i < SIZE * SIZE ==> (#[trigger] context@.raw[f][i]) == zero,
            forall|level: int, f: int, i: int|
                0 <= level <= LOG_SIZE && 0 <= f < 6 && 0 <= i < level_width(level) * level_width(
                    level,
                ) ==> (#[trigger] context@.levels[level][f][i]) == zero,
            forall|level: int, f: int, i: int|
                0 <= level <= LOG_SIZE && 0 <= f < 6 && 0 <= i < level_width(level) * level_width(
                    level,
                ) ==> (#[trigger] context@.converted[level][f][i]) == blank,
    {
        let mut env_cube_levels: Vec<CubeImage<T>> = Vec::new();
        let mut converted_cube_levels: Vec<CubeImage<U>> = Vec::new();
        let mut lod: usize = 0;
        while lod <= LOG_SIZE
            invariant
                lod <= LOG_SIZE + 1,
                env_cube_levels@.len() == lod,
                converted_cube_levels@.len() == lod,
                forall|level: int|
                    0 <= level < lod ==> (#[trigger] env_cube_levels@[level]).wf()
                        && env_cube_levels@[level].size == level_width(level),
                forall|level: int|
                    0 <= level < lod ==> (#[trigger] converted_cube_levels@[level]).wf()
                        && converted_cube_levels@[level].size == level_width(level),
                forall|level: int, f: int, i: int|
                    0 <= level < lod && 0 <= f < 6 && 0 <= i < level_width(level) * level_width(
                        level,
                    ) ==> (#[trigger] env_cube_levels@[level]@[f][i]) == zero,
                forall|level: int, f: int, i: int|
                    0 <= level < lod && 0 <= f < 6 && 0 <= i < level_width(level) * level_width(
                        level,
                    ) ==> (#[trigger] converted_cube_levels@[level]@[f][i]) == blank,
            decreases LOG_SIZE + 1 - lod,
        {
            let size = level_size(SIZE, lod);
            proof {
                lemma_level_widths();
                assert(size * size <= 4096) by (nonlinear_arith)
                    requires
                        size <= 64,
                ;
            }
            env_cube_levels.push(CubeImage::new(size, zero));
            converted_cube_levels.push(CubeImage::new(size, blank));
            lod += 1;
        }
        let context = Context {
            raw_cube: CubeImage::new(SIZE, zero),
            env_cube_levels,
            converted_cube_levels,
            temp1: CubeImage::new(SIZE, zero),
            temp2: CubeImage::new(SIZE, zero),
        };
        proof {
            context.lemma_view_wf();
        }
        context
    }
}

/// Whether `after` is what `stamper` may leave of the face `before` of the
/// captured cube: what it gives back for the face, if that is a face of the
/// same size, and else the face as it was.
pub open spec fn face_stamped<T, S: Fn(CubeFace, Vec<T>) -> Vec<T>>(
    stamper: S,
    face: CubeFace,
    before: Seq<T>,
    after: Seq<T>,
) -> bool {
    exists|handed: Vec<T>, given: Vec<T>|
        handed@ == before && #[trigger] call_ensures(stamper, (face, handed), given) && after == (
        if given@.len() == SIZE * SIZE {
            given@
        } else {
            before
        })
}

impl<T: Copy, U> Context<T, U> {
    /// Stamps a capture onto the captured cube: `stamper` is handed each face
    /// in turn, in the fixed order of the faces, and gives back the face
    /// with the capture laid over it.
    pub fn stamp<S: Fn(CubeFace, Vec<T>) -> Vec<T>>(&mut self, stamper: &S)
        requires
            old(self).wf(),
            forall|face: CubeFace, texels: Vec<T>| call_requires(*stamper, (face, texels)),
        ensures
            final(self).wf(),
            final(self)@ == (PyramidView { raw: final(self)@.raw, ..old(self)@ }),
            forall|face: CubeFace| #[trigger]
                face_stamped(
                    *stamper,
                    face,
                    old(self)@.raw[face.ordinal()],
                    final(self)@.raw[face.ordinal()],
                ),
    {
        let mut f: usize = 0;
        while f < 6
            invariant
                f <= 6,
                self.wf(),
                forall|face: CubeFace, texels: Vec<T>| call_requires(*stamper, (face, texels)),
                self@ == (PyramidView { raw: self@.raw, ..old(self)@ }),
                forall|g: int| f <= g < 6 ==> self@.raw[g] == old(self)@.raw[g],
                forall|face: CubeFace|
                    face.ordinal() < f ==> #[trigger] face_stamped(
                        *stamper,
                        face,
                        old(self)@.raw[face.ordinal()],
                        self@.raw[face.ordinal()],
                    ),
            decreases 6 - f,
        {
            let face = CubeFace::from_ordinal(f).unwrap();
            let handed = copy_of(self.raw_cube.faces[f].as_slice());
            let ghost before = self@;
            let given = stamper(face, handed);
            let done = self.set_raw_image(f, given);
            proof {
                assert forall|other: CubeFace|
                    other.ordinal() < f + 1 implies #[trigger] face_stamped(
                    *stamper,
                    other,
                    old(self)@.raw[other.ordinal()],
                    self@.raw[other.ordinal()],
                ) by {
                    if other.ordinal() == f {
                        lemma_face_identity(other, face);
                        assert(handed@ == old(self)@.raw[f as int] && call_ensures(
                            *stamper,
                            (face, handed),
                            given,
                        ));
                    } else {
                        assert(self@.raw[other.ordinal()] == before.raw[other.ordinal()]);
                    }
                }
            }
            f += 1;
        }
        proof {
            assert forall|face: CubeFace| #[trigger]
                face_stamped(
                    *stamper,
                    face,
                    old(self)@.raw[face.ordinal()],
                    self@.raw[face.ordinal()],
                ) by {
                lemma_face_identity(face, face);
            }
        }
    }
}

/// The arithmetic that the building of a pyramid leaves to its caller.
pub struct Numerics<T, F, A, V, B, C> {
    /// The sum of no samples.
    pub zero: T,
    /// Where the taps of the kernel lie for a texel.
    pub footprint: F,
    /// A sum with one more sample added in under its weight.
    pub accumulate: A,
    /// The average of a block of two by two texels, handed over row by row.
    pub average: V,
    /// A texel blended with the texel of the level below that lies over it.
    pub blend: B,
    /// A texel converted for display.
    pub convert: C,
}

/// Whether every function of the arithmetic can be called on every argument.
pub open spec fn callable<T, U, W, F: Fn(Site<W>) -> Vec<Tap>, A: Fn(T, T, W) -> T, V: Fn(
    T,
    T,
    T,
    T,
) -> T, B: Fn(T, T) -> T, C: Fn(T) -> U>(numerics: Numerics<T, F, A, V, B, C>) -> bool {
    &&& forall|site: Site<W>| call_requires(numerics.footprint, (site,))
    &&& forall|s: T, v: T, w: W| call_requires(numerics.accumulate, (s, v, w))
    &&& forall|a: T, b: T, c: T, d: T| call_requires(numerics.average, (a, b, c, d))
    &&& forall|d: T, s: T| call_requires(numerics.blend, (d, s))
    &&& forall|texel: T| call_requires(numerics.convert, (texel,))
}

/// Whether a plan can be carried out in a context: no more levels than the
/// context holds, and a kernel with a middle.
pub open spec fn plan_fits<W>(setup: MipPyramidGenSetup<W>) -> bool {
    &&& setup.levels@.len() <= LOG_SIZE + 1
    &&& setup.kernel@.len() % 2 == 1
}

/// The blur pass that a step of the building carries out.
pub open spec fn pass_at<W>(
    kernel_len: nat,
    levels: Seq<(W, usize)>,
    level: usize,
    phase: usize,
) -> Pass<
    W,
> {
    pass_of(level_width(level as int) as usize, kernel_len, levels[level as int].0, phase, false)
}

/// Whether `after` is what a step of the building may leave of `before`.
///
/// A blur pass goes through the two spare cubes: its first phase reads the
/// level and writes the first, its second reads the first and writes the
/// second, its third reads the second and writes the level.
pub open spec fn applies<T, U, W, F: Fn(Site<W>) -> Vec<Tap>, A: Fn(T, T, W) -> T, V: Fn(
    T,
    T,
    T,
    T,
) -> T, B: Fn(T, T) -> T, C: Fn(T) -> U>(
    step: Step,
    kernel: Seq<W>,
    levels: Seq<(W, usize)>,
    numerics: Numerics<T, F, A, V, B, C>,
    before: PyramidView<T, U>,
    after: PyramidView<T, U>,
) -> bool {
    match step {
        Step::Seed => after == (PyramidView {
            levels: before.levels.update(0, before.raw),
            ..before
        }),
        Step::Downsample { level } => {
            &&& after == (PyramidView {
                levels: before.levels.update(level as int, after.levels[level as int]),
                ..before
            })
            &&& is_cube(after.levels[level as int], level_width(level as int))
            &&& forall|f: int|
                0 <= f < 6 ==> downsampled(
                    numerics.average,
                    before.levels[level - 1][f],
                    level_width(level as int) as int,
                    #[trigger] after.levels[level as int][f],
                )
        },
        Step::Blur { level, pass, phase } => {
            let blur = pass_at(kernel.len(), levels, level, phase);
            if phase == 0 {
                &&& after == (PyramidView { temp1: after.temp1, ..before })
                &&& blurred_into(
                    numerics.footprint,
                    numerics.accumulate,
                    numerics.zero,
                    kernel,
                    blur,
                    before.levels[level as int],
                    before.temp1,
                    after.temp1,
                )
            } else if phase == 1 {
                &&& after == (PyramidView { temp2: after.temp2, ..before })
                &&& blurred_into(
                    numerics.footprint,
                    numerics.accumulate,
                    numerics.zero,
                    kernel,
                    blur,
                    before.temp1,
                    before.temp2,
                    after.temp2,
                )
            } else {
                &&& after == (PyramidView {
                    levels: before.levels.update(level as int, after.levels[level as int]),
                    ..before
                })
                &&& blurred_into(
                    numerics.footprint,
                    numerics.accumulate,
                    numerics.zero,
                    kernel,
                    blur,
                    before.temp2,
                    before.levels[level as int],
                    after.levels[level as int],
                )
            }
        },
        Step::FillHoles { level } => {
            &&& after == (PyramidView {
                levels: before.levels.update(level - 1, after.levels[level - 1]),
                ..before
            })
            &&& is_cube(after.levels[level - 1], level_width(level - 1))
            &&& forall|f: int|
                0 <= f < 6 ==> holes_filled(
                    numerics.blend,
                    before.levels[level - 1][f],
                    before.levels[level as int][f],
                    level_width(level as int) as int,
                    #[trigger] after.levels[level - 1][f],
                )
        },
        Step::Convert { level } => {
            &&& after == (PyramidView {
                converted: before.converted.update(level as int, after.converted[level as int]),
                ..before
            })
            &&& is_cube(after.converted[level as int], level_width(level as int))
            &&& forall|f: int, i: int|
                0 <= f < 6 && 0 <= i < level_width(level as int) * level_width(level as int)
                    ==> call_ensures(
                    numerics.convert,
                    (before.levels[level as int][f][i],),
                    #[trigger] after.converted[level as int][f][i],
                )
        },
    }
}

/// Whether `after` is what the steps, taken one after the other, may leave of
/// `before`.
pub open spec fn runs<T, U, W, F: Fn(Site<W>) -> Vec<Tap>, A: Fn(T, T, W) -> T, V: Fn(
    T,
    T,
    T,
    T,
) -> T, B: Fn(T, T) -> T, C: Fn(T) -> U>(
    steps: Seq<Step>,
    kernel: Seq<W>,
    levels: Seq<(W, usize)>,
    numerics: Numerics<T, F, A, V, B, C>,
    before: PyramidView<T, U>,
    after: PyramidView<T, U>,
) -> bool
    decreases steps.len(),
{
    if steps.len() == 0 {
        after == before
    } else {
        exists|between: PyramidView<T, U>|
            runs(steps.drop_last(), kernel, levels, numerics, before, between)
                && #[trigger] applies(steps.last(), kernel, levels, numerics, between, after)
    }
}

/// One more step taken.
pub proof fn lemma_runs_step<T, U, W, F: Fn(Site<W>) -> Vec<Tap>, A: Fn(T, T, W) -> T, V: Fn(
    T,
    T,
    T,
    T,
) -> T, B: Fn(T, T) -> T, C: Fn(T) -> U>(
    steps: Seq<Step>,
    step: Step,
    kernel: Seq<W>,
    levels: Seq<(W, usize)>,
    numerics: Numerics<T, F, A, V, B, C>,
    before: PyramidView<T, U>,
    between: PyramidView<T, U>,
    after: PyramidView<T, U>,
)
    requires
        runs(steps, kernel, levels, numerics, before, between),
        applies(step, kernel, levels, numerics, between, after),
    ensures
        runs(steps.push(step), kernel, levels, numerics, before, after),
{
    let all = steps.push(step);
    assert(all.drop_last() =~= steps);
    assert(all.last() == step);
    assert(runs(all.drop_last(), kernel, levels, numerics, before, between) && applies(
        all.last(),
        kernel,
        levels,
        numerics,
        between,
        after,
    ));
}

/// Whether `after` is what a blur pass that stopped at the texel named by
/// `error` may leave of `before`: the cube that the pass writes is blurred up
/// to the texel, and nothing else has changed.
pub open spec fn refused<T, U, W, F: Fn(Site<W>) -> Vec<Tap>, A: Fn(T, T, W) -> T, V, B, C>(
    step: Step,
    kernel: Seq<W>,
    levels: Seq<(W, usize)>,
    numerics: Numerics<T, F, A, V, B, C>,
    before: PyramidView<T, U>,
    after: PyramidView<T, U>,
    error: BlurError,
) -> bool {
    match step {
        Step::Blur { level, pass, phase } => {
            let blur = pass_at(kernel.len(), levels, level, phase);
            if phase == 0 {
                &&& after == (PyramidView { temp1: after.temp1, ..before })
                &&& cube_stopped(
                    numerics.footprint,
                    numerics.accumulate,
                    numerics.zero,
                    before.levels[level as int],
                    kernel,
                    blur,
                    error,
                    before.temp1,
                    after.temp1,
                )
            } else if phase == 1 {
                &&& after == (PyramidView { temp2: after.temp2, ..before })
                &&& cube_stopped(
                    numerics.footprint,
                    numerics.accumulate,
                    numerics.zero,
                    before.temp1,
                    kernel,
                    blur,
                    error,
                    before.temp2,
                    after.temp2,
                )
            } else {
                &&& after == (PyramidView {
                    levels: before.levels.update(level as int, after.levels[level as int]),
                    ..before
                })
                &&& cube_stopped(
                    numerics.footprint,
                    numerics.accumulate,
                    numerics.zero,
                    before.temp2,
                    kernel,
                    blur,
                    error,
                    before.levels[level as int],
                    after.levels[level as int],
                )
            }
        },
        _ => false,
    }
}

/// The blur pass that could not be carried out, and the texel whose
/// footprint it could not use.
#[derive(Debug, Copy, Clone, PartialEq, Eq, Structural)]
pub struct ProcessError {
    pub level: usize,
    pub pass: usize,
    pub phase: usize,
    pub texel: BlurError,
}

impl ProcessError {
    /// The step that could not be carried out.
    pub open spec fn step(self) -> Step {
        Step::Blur { level: self.level, pass: self.pass, phase: self.phase }
    }
}

impl<T: Copy, U> Context<T, U> {
    /// The captured cube becomes the finest level.
    fn seed(&mut self)
        requires
            old(self).wf(),
        ensures
            final(self).wf(),
            final(self)@ == (PyramidView {
                levels: old(self)@.levels.update(0, old(self)@.raw),
                ..old(self)@
            }),
    {
        proof {
            lemma_level_widths();
        }
        self.env_cube_levels[0].copy_from(&self.raw_cube);
        proof {
            assert(level_views(self.env_cube_levels@) =~= old(self)@.levels.update(
                0,
                old(self)@.raw,
            ));
        }
    }

    /// A level is halved from the level above it.
    fn downsample<V: Fn(T, T, T, T) -> T>(&mut self, level: usize, average: &V)
        requires
            old(self).wf(),
            1 <= level <= LOG_SIZE,
            forall|a: T, b: T, c: T, d: T| call_requires(*average, (a, b, c, d)),
        ensures
            final(self).wf(),
            final(self)@ == (PyramidView {
                levels: old(self)@.levels.update(level as int, final(self)@.levels[level as int]),
                ..old(self)@
            }),
            is_cube(final(self)@.levels[level as int], level_width(level as int)),
            forall|f: int|
                0 <= f < 6 ==> downsampled(
                    *average,
                    old(self)@.levels[level - 1][f],
                    level_width(level as int) as int,
                    #[trigger] final(self)@.levels[level as int][f],
                ),
    {
        proof {
            lemma_level_widths();
        }
        let (upper, lower) = self.env_cube_levels.as_mut_slice().split_at_mut(level);
        lower[0].downsample_from(&upper[level - 1], average);
        proof {
            assert(level_views(self.env_cube_levels@) =~= old(self)@.levels.update(
                level as int,
                self@.levels[level as int],
            ));
            assert(self.env_cube_levels@[level as int].wf());
        }
    }

    /// The holes of the level above `level` are filled from `level`.
    fn fill_holes<B: Fn(T, T) -> T>(&mut self, level: usize, blend: &B)
        requires
            old(self).wf(),
            1 <= level <= LOG_SIZE,
            forall|d: T, s: T| call_requires(*blend, (d, s)),
        ensures
            final(self).wf(),
            final(self)@ == (PyramidView {
                levels: old(self)@.levels.update(level - 1, final(self)@.levels[level - 1]),
                ..old(self)@
            }),
            is_cube(final(self)@.levels[level - 1], level_width(level - 1)),
            forall|f: int|
                0 <= f < 6 ==> holes_filled(
                    *blend,
                    old(self)@.levels[level - 1][f],
                    old(self)@.levels[level as int][f],
                    level_width(level as int) as int,
                    #[trigger] final(self)@.levels[level - 1][f],
                ),
    {
        proof {
            lemma_level_widths();
        }
        let (upper, lower) = self.env_cube_levels.as_mut_slice().split_at_mut(level);
        upper[level - 1].fill_holes_from(&lower[0], blend);
        proof {
            assert(level_views(self.env_cube_levels@) =~= old(self)@.levels.update(
                level - 1,
                self@.levels[level - 1],
            ));
            assert(self.env_cube_levels@[level - 1].wf());
        }
    }

    /// A level is converted for display.
    fn convert<C: Fn(T) -> U>(&mut self, level: usize, convert: &C)
        requires
            old(self).wf(),
            level <= LOG_SIZE,
            forall|texel: T| call_requires(*convert, (texel,)),
        ensures
            final(self).wf(),
            final(self)@ == (PyramidView {
                converted: old(self)@.converted.update(
                    level as int,
                    final(self)@.converted[level as int],
                ),
                ..old(self)@
            }),
            is_cube(final(self)@.converted[level as int], level_width(level as int)),
            forall|f: int, i: int|
                0 <= f < 6 && 0 <= i < level_width(level as int) * level_width(level as int)
                    ==> call_ensures(
                    *convert,
                    (old(self)@.levels[level as int][f][i],),
                    #[trigger] final(self)@.converted[level as int][f][i],
                ),
    {
        self.env_cube_levels[level].convert_into(&mut self.converted_cube_levels[level], convert);
        proof {
            assert(level_views(self.converted_cube_levels@) =~= old(self)@.converted.update(
                level as int,
                self@.converted[level as int],
            ));
            assert(self.converted_cube_levels@[level as int].wf());
        }
    }
}

impl<T: Copy, U> Context<T, U> {
    /// One phase of a blur pass over a level, through the two spare cubes.
    fn blur<W: Copy, F: Fn(Site<W>) -> Vec<Tap>, A: Fn(T, T, W) -> T>(
        &mut self,
        level: usize,
        phase: usize,
        kernel: &[W],
        kernel_scale: W,
        footprint: &F,
        zero: T,
        accumulate: &A,
    ) -> (r: Result<(), BlurError>)
        requires
            old(self).wf(),
            level <= LOG_SIZE,
            phase < 3,
            kernel@.len() % 2 == 1,
            forall|site: Site<W>| call_requires(*footprint, (site,)),
            forall|s: T, v: T, w: W| call_requires(*accumulate, (s, v, w)),
        ensures
            final(self).wf(),
            r.is_ok() && phase == 0 ==> final(self)@ == (PyramidView {
                temp1: final(self)@.temp1,
                ..old(self)@
            }) && blurred_into(
                *footprint,
                *accumulate,
                zero,
                kernel@,
                pass_of(
                    level_width(level as int) as usize,
                    kernel@.len(),
                    kernel_scale,
                    phase,
                    false,
                ),
                old(self)@.levels[level as int],
                old(self)@.temp1,
                final(self)@.temp1,
            ),
            r.is_ok() && phase == 1 ==> final(self)@ == (PyramidView {
                temp2: final(self)@.temp2,
                ..old(self)@
            }) && blurred_into(
                *footprint,
                *accumulate,
                zero,
                kernel@,
                pass_of(
                    level_width(level as int) as usize,
                    kernel@.len(),
                    kernel_scale,
                    phase,
                    false,
                ),
                old(self)@.temp1,
                old(self)@.temp2,
                final(self)@.temp2,
            ),
            r.is_ok() && phase == 2 ==> final(self)@ == (PyramidView {
                levels: old(self)@.levels.update(level as int, final(self)@.levels[level as int]),
                ..old(self)@
            }) && blurred_into(
                *footprint,
                *accumulate,
                zero,
                kernel@,
                pass_of(
                    level_width(level as int) as usize,
                    kernel@.len(),
                    kernel_scale,
                    phase,
                    false,
                ),
                old(self)@.temp2,
                old(self)@.levels[level as int],
                final(self)@.levels[level as int],
            ),
            r.is_err() && phase == 0 ==> final(self)@ == (PyramidView {
                temp1: final(self)@.temp1,
                ..old(self)@
            }) && cube_stopped(
                *footprint,
                *accumulate,
                zero,
                old(self)@.levels[level as int],
                kernel@,
                pass_of(
                    level_width(level as int) as usize,
                    kernel@.len(),
                    kernel_scale,
                    phase,
                    false,
                ),
                r.unwrap_err(),
                old(self)@.temp1,
                final(self)@.temp1,
            ),
            r.is_err() && phase == 1 ==> final(self)@ == (PyramidView {
                temp2: final(self)@.temp2,
                ..old(self)@
            }) && cube_stopped(
                *footprint,
                *accumulate,
                zero,
                old(self)@.temp1,
                kernel@,
                pass_of(
                    level_width(level as int) as usize,
                    kernel@.len(),
                    kernel_scale,
                    phase,
                    false,
                ),
                r.unwrap_err(),
                old(self)@.temp2,
                final(self)@.temp2,
            ),
            r.is_err() && phase == 2 ==> final(self)@ == (PyramidView {
                levels: old(self)@.levels.update(level as int, final(self)@.levels[level as int]),
                ..old(self)@
            }) && cube_stopped(
                *footprint,
                *accumulate,
                zero,
                old(self)@.temp2,
                kernel@,
                pass_of(
                    level_width(level as int) as usize,
                    kernel@.len(),
                    kernel_scale,
                    phase,
                    false,
                ),
                r.unwrap_err(),
                old(self)@.levels[level as int],
                final(self)@.levels[level as int],
            ),
    {
        proof {
            lemma_level_widths();
        }
        let size = self.env_cube_levels[level].size;
        proof {
            assert(size * size <= 4096) by (nonlinear_arith)
                requires
                    size <= 64,
            ;
        }
        if phase == 0 {
            self.temp1.blur_from(
                &self.env_cube_levels[level],
                size,
                kernel,
                kernel_scale,
                phase,
                footprint,
                zero,
                accumulate,
            )
        } else if phase == 1 {
            self.temp2.blur_from(
                &self.temp1,
                size,
                kernel,
                kernel_scale,
                phase,
                footprint,
                zero,
                accumulate,
            )
        } else {
            let r = self.env_cube_levels[level].blur_from(
                &self.temp2,
                size,
                kernel,
                kernel_scale,
                phase,
                footprint,
                zero,
                accumulate,
            );
            proof {
                assert(level_views(self.env_cube_levels@) =~= old(self)@.levels.update(
                    level as int,
                    self@.levels[level as int],
                ));
            }
            r
        }
    }

    /// Carries out one step of the building of a pyramid.
    pub fn apply<W: Copy, F: Fn(Site<W>) -> Vec<Tap>, A: Fn(T, T, W) -> T, V: Fn(
        T,
        T,
        T,
        T,
    ) -> T, B: Fn(T, T) -> T, C: Fn(T) -> U>(
        &mut self,
        step: Step,
        setup: &MipPyramidGenSetup<W>,
        numerics: &Numerics<T, F, A, V, B, C>,
    ) -> (r: Result<(), ProcessError>)
        requires
            old(self).wf(),
            plan_fits(*setup),
            step.valid(passes_of(setup.levels@)),
            callable(*numerics),
        ensures
            final(self).wf(),
            r.is_ok() ==> applies(
                step,
                setup.kernel@,
                setup.levels@,
                *numerics,
                old(self)@,
                final(self)@,
            ),
            r.is_err() ==> refused(
                step,
                setup.kernel@,
                setup.levels@,
                *numerics,
                old(self)@,
                final(self)@,
                r.unwrap_err().texel,
            ),
            r.is_err() ==> step == (Step::Blur {
                level: r.unwrap_err().level,
                pass: r.unwrap_err().pass,
                phase: r.unwrap_err().phase,
            }) && footprint_fails(
                numerics.footprint,
                pass_at(
                    setup.kernel@.len(),
                    setup.levels@,
                    r.unwrap_err().level,
                    r.unwrap_err().phase,
                ),
                setup.kernel@.len(),
                r.unwrap_err().texel.face,
                r.unwrap_err().texel.x,
                r.unwrap_err().texel.y,
            ),
    {
        match step {
            Step::Seed => {
                self.seed();
                Ok(())
            },
            Step::Downsample { level } => {
                self.downsample(level, &numerics.average);
                Ok(())
            },
            Step::Blur { level, pass, phase } => {
                let kernel_scale = setup.levels[level].0;
                match self.blur(
                    level,
                    phase,
                    setup.kernel.as_slice(),
                    kernel_scale,
                    &numerics.footprint,
                    numerics.zero,
                    &numerics.accumulate,
                ) {
                    Ok(()) => Ok(()),
                    Err(texel) => Err(ProcessError { level, pass, phase, texel }),
                }
            },
            Step::FillHoles { level } => {
                self.fill_holes(level, &numerics.blend);
                Ok(())
            },
            Step::Convert { level } => {
                self.convert(level, &numerics.convert);
                Ok(())
            },
        }
    }

    /// Builds the pyramid from the captured cube: every step of the schedule
    /// of the plan is carried out, in its order. The building stops at the
    /// first blur pass that cannot be carried out and names it; the steps
    /// before it have then been carried out, and the pass itself up to the
    /// texel that it names.
    pub fn process<W: Copy, F: Fn(Site<W>) -> Vec<Tap>, A: Fn(T, T, W) -> T, V: Fn(
        T,
        T,
        T,
        T,
    ) -> T, B: Fn(T, T) -> T, C: Fn(T) -> U>(
        &mut self,
        setup: &MipPyramidGenSetup<W>,
        numerics: &Numerics<T, F, A, V, B, C>,
    ) -> (r: Result<(), ProcessError>)
        requires
            old(self).wf(),
            plan_fits(*setup),
            callable(*numerics),
        ensures
            final(self).wf(),
            old(self)@.wf(),
            final(self)@.wf(),
            r.is_ok() ==> runs(
                schedule(passes_of(setup.levels@)),
                setup.kernel@,
                setup.levels@,
                *numerics,
                old(self)@,
                final(self)@,
            ),
            r.is_err() ==> exists|between: PyramidView<T, U>|
                runs(
                    schedule(passes_of(setup.levels@)).take(
                        r.unwrap_err().step().position(passes_of(setup.levels@)) as int,
                    ),
                    setup.kernel@,
                    setup.levels@,
                    *numerics,
                    old(self)@,
                    between,
                ) && #[trigger] refused(
                    r.unwrap_err().step(),
                    setup.kernel@,
                    setup.levels@,
                    *numerics,
                    between,
                    final(self)@,
                    r.unwrap_err().texel,
                ),
            r.is_err() ==> (Step::Blur {
                level: r.unwrap_err().level,
                pass: r.unwrap_err().pass,
                phase: r.unwrap_err().phase,
            }).valid(passes_of(setup.levels@)) && footprint_fails(
                numerics.footprint,
                pass_at(
                    setup.kernel@.len(),
                    setup.levels@,
                    r.unwrap_err().level,
                    r.unwrap_err().phase,
                ),
                setup.kernel@.len(),
                r.unwrap_err().texel.face,
                r.unwrap_err().texel.x,
                r.unwrap_err().texel.y,
            ),
    {
        proof {
            self.lemma_view_wf();
        }
        let passes = setup.passes();
        let ghost plan = schedule(passes@);
        let mut next = Some(first_step());
        let ghost mut done: nat = 0;
        proof {
            lemma_schedule(passes@, Step::Seed);
        }
        loop
            invariant_except_break
                self.wf(),
                old(self)@.wf(),
                plan_fits(*setup),
                callable(*numerics),
                passes@ == passes_of(setup.levels@),
                plan == schedule(passes@),
                plan.len() == schedule_len(passes@),
                done <= plan.len(),
                match next {
                    Some(step) => step.valid(passes@) && step.position(passes@) == done,
                    None => done == plan.len(),
                },
                runs(
                    plan.take(done as int),
                    setup.kernel@,
                    setup.levels@,
                    *numerics,
                    old(self)@,
                    self@,
                ),
            ensures
                self.wf(),
                runs(plan, setup.kernel@, setup.levels@, *numerics, old(self)@, self@),
            decreases plan.len() - done,
        {
            match next {
                None => {
                    proof {
                        assert(plan.take(done as int) =~= plan);
                    }
                    break ;
                },
                Some(step) => {
                    let ghost before = self@;
                    proof {
                        lemma_schedule(passes@, step);
                    }
                    match self.apply(step, setup, numerics) {
                        Ok(()) => {},
                        Err(e) => {
                            proof {
                                assert(e.step() == step);
                                assert(runs(
                                    plan.take(step.position(passes@) as int),
                                    setup.kernel@,
                                    setup.levels@,
                                    *numerics,
                                    old(self)@,
                                    before,
                                ) && refused(
                                    e.step(),
                                    setup.kernel@,
                                    setup.levels@,
                                    *numerics,
                                    before,
                                    self@,
                                    e.texel,
                                ));
                            }
                            proof {
                                self.lemma_view_wf();
                            }
                            return Err(e);
                        },
                    }
                    proof {
                        lemma_runs_step(
                            plan.take(done as int),
                            step,
                            setup.kernel@,
                            setup.levels@,
                            *numerics,
                            old(self)@,
                            before,
                            self@,
                        );
                        assert(plan.take(done as int).push(step) =~= plan.take(done as int + 1));
                    }
                    next = next_step(passes.as_slice(), step);
                    proof {
                        done = done + 1;
                    }
                },
            }
        }
            proof {
            self.lemma_view_wf();
        }
        Ok(())
    }
}

} // verus!
