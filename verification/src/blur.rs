//! A linear-time approximation of a Gaussian blur on the sphere, carried out
//! on the faces of a cube.
//!
//! A pass walks every texel of every face and adds up the samples under a
//! one-dimensional kernel laid across the face. Where the kernel leaves the
//! face it goes on in the neighbour across the edge. The pass owns the walk
//! and the addressing; where the taps of a kernel lie, and how samples are
//! added up, is arithmetic that the caller supplies.

use crate::cubemap::{CubeFace, face_at, lemma_face_identity};
use crate::raster::{lemma_index_bound, lemma_index_order, texel_index};
use crate::tap::{lemma_tap_folds, Tap};
use vstd::prelude::*;

verus! {

/// A kernel laid out around its middle: the weight at each distance from the
/// middle, on either side of it.
pub open spec fn mirrored<W>(half: Seq<W>) -> Seq<W> {
    Seq::new(
        (2 * half.len() - 1) as nat,
        |i: int|
            if i < half.len() - 1 {
                half[half.len() - 1 - i]
            } else {
                half[i - (half.len() - 1)]
            },
    )
}

/// Whether `sum` can come out of adding up the first `n` weights, one after
/// the other, starting at `zero`.
pub open spec fn adds_up_to<W, S: Fn(W, W) -> W>(
    adder: S,
    zero: W,
    weights: Seq<W>,
    n: nat,
    sum: W,
) -> bool
    decreases n,
{
    if n == 0 {
        sum == zero
    } else {
        exists|before: W|
            adds_up_to(adder, zero, weights, (n - 1) as nat, before) && #[trigger] call_ensures(
                adder,
                (before, weights[n - 1]),
                sum,
            )
    }
}

/// Whether `kernel` is the kernel made of the weights `raw` at the distances
/// from the middle, which add up to `sum`, and of their quotients `half`.
pub open spec fn kernel_from<W, G: Fn(usize, W) -> W, S: Fn(W, W) -> W, N: Fn(W, W) -> W>(
    weight: G,
    adder: S,
    normalize: N,
    zero: W,
    radius: usize,
    sigma: W,
    raw: Seq<W>,
    sum: W,
    half: Seq<W>,
    kernel: Seq<W>,
) -> bool {
    &&& raw.len() == radius + 1
    &&& half.len() == radius + 1
    &&& forall|k: int|
        0 <= k <= radius ==> call_ensures(weight, (k as usize, sigma), #[trigger] raw[k])
    &&& adds_up_to(adder, zero, mirrored(raw), (2 * radius + 1) as nat, sum)
    &&& forall|k: int|
        0 <= k <= radius ==> call_ensures(normalize, (raw[k], sum), #[trigger] half[k])
    &&& mirrored(half) == kernel
}

/// Whether `kernel` can be the kernel of the given radius: the weights that
/// `weight` gives for the distances from the middle, each divided by
/// `normalize` by what they all add up to.
pub open spec fn is_kernel<W, G: Fn(usize, W) -> W, S: Fn(W, W) -> W, N: Fn(W, W) -> W>(
    weight: G,
    adder: S,
    normalize: N,
    zero: W,
    radius: usize,
    sigma: W,
    kernel: Seq<W>,
) -> bool {
    exists|raw: Seq<W>, sum: W, half: Seq<W>| #[trigger]
        kernel_from(weight, adder, normalize, zero, radius, sigma, raw, sum, half, kernel)
}

/// Builds a kernel with `radius` weights on either side of its middle.
///
/// `weight` gives the weight at a distance from the middle, for the given
/// sigma; the weights of the whole kernel are added up from `zero` by `adder`,
/// first to last, and `normalize` divides each weight by the sum. The kernel
/// is the same on both sides of its middle.
pub fn gaussian_kernel<W: Copy, G: Fn(usize, W) -> W, S: Fn(W, W) -> W, N: Fn(W, W) -> W>(
    radius: usize,
    sigma: W,
    weight: &G,
    zero: W,
    adder: &S,
    normalize: &N,
) -> (kernel: Vec<W>)
    requires
        2 * radius + 1 <= usize::MAX,
        forall|distance: usize, sigma: W| call_requires(*weight, (distance, sigma)),
        forall|a: W, b: W| call_requires(*adder, (a, b)),
        forall|w: W, sum: W| call_requires(*normalize, (w, sum)),
    ensures
        kernel@.len() == 2 * radius + 1,
        forall|i: int| 0 <= i <= 2 * radius ==> #[trigger] kernel@[i] == kernel@[2 * radius - i],
        is_kernel(*weight, *adder, *normalize, zero, radius, sigma, kernel@),
{
    let mut raw: Vec<W> = Vec::new();
    let mut k: usize = 0;
    while k <= radius
        invariant
            2 * radius + 1 <= usize::MAX,
            forall|distance: usize, sigma: W| call_requires(*weight, (distance, sigma)),
            k <= radius + 1,
            raw@.len() == k,
            forall|j: int|
                0 <= j < k ==> call_ensures(*weight, (j as usize, sigma), #[trigger] raw@[j]),
        decreases radius + 1 - k,
    {
        raw.push(weight(k, sigma));
        k += 1;
    }
    let len = 2 * radius + 1;
    let mut sum = zero;
    let mut i: usize = 0;
    while i < len
        invariant
            len == 2 * radius + 1,
            raw@.len() == radius + 1,
            forall|a: W, b: W| call_requires(*adder, (a, b)),
            i <= len,
            adds_up_to(*adder, zero, mirrored(raw@), i as nat, sum),
        decreases len - i,
    {
        let w = if i < radius {
            raw[radius - i]
        } else {
            raw[i - radius]
        };
        let ghost before = sum;
        sum = adder(sum, w);
        i += 1;
        proof {
            assert(mirrored(raw@)[i - 1] == w);
            assert(adds_up_to(*adder, zero, mirrored(raw@), (i - 1) as nat, before) && call_ensures(
                *adder,
                (before, mirrored(raw@)[i - 1]),
                sum,
            ));
        }
    }
    let mut half: Vec<W> = Vec::new();
    let mut k: usize = 0;
    while k <= radius
        invariant
            2 * radius + 1 <= usize::MAX,
            raw@.len() == radius + 1,
            forall|w: W, sum: W| call_requires(*normalize, (w, sum)),
            k <= radius + 1,
            half@.len() == k,
            forall|j: int|
                0 <= j < k ==> call_ensures(*normalize, (raw@[j], sum), #[trigger] half@[j]),
        decreases radius + 1 - k,
    {
        half.push(normalize(raw[k], sum));
        k += 1;
    }
    let mut kernel: Vec<W> = Vec::new();
    let mut i: usize = 0;
    while i < len
        invariant
            len == 2 * radius + 1,
            half@.len() == radius + 1,
            i <= len,
            kernel@.len() == i,
            forall|j: int| 0 <= j < i ==> #[trigger] kernel@[j] == mirrored(half@)[j],
        decreases len - i,
    {
        let w = if i < radius {
            half[radius - i]
        } else {
            half[i - radius]
        };
        kernel.push(w);
        i += 1;
    }
    proof {
        assert(kernel@ =~= mirrored(half@));
        assert(kernel_from(
            *weight,
            *adder,
            *normalize,
            zero,
            radius,
            sigma,
            raw@,
            sum,
            half@,
            kernel@,
        ));
    }
    kernel
}

/// How the texels of a face are laid over it.
pub trait CubeMapTrait {
    /// Whether the outermost texels sit on the edges of the face, instead of
    /// half a texel inside.
    spec fn stretched(&self) -> bool;

    /// Whether the outermost texels sit on the edges of the face, instead of
    /// half a texel inside.
    fn edge_stretch_fixup(&self) -> (stretched: bool)
        ensures
            stretched == self.stretched(),
    ;
}

/// Texel centres lie half a texel inside the edges of the face.
#[derive(Debug, Clone, Copy)]
pub struct StandardCubeMapTrait;

impl CubeMapTrait for StandardCubeMapTrait {
    open spec fn stretched(&self) -> bool {
        false
    }

    fn edge_stretch_fixup(&self) -> (stretched: bool) {
        false
    }
}

/// The outermost texel centres lie on the edges of the face.
#[derive(Debug, Clone, Copy)]
pub struct StretchedCubeMapTrait;

impl CubeMapTrait for StretchedCubeMapTrait {
    open spec fn stretched(&self) -> bool {
        true
    }

    fn edge_stretch_fixup(&self) -> (stretched: bool) {
        true
    }
}

/// The axis of a face along which a pass runs when it does not run outwards
/// from the middle of the face.
#[derive(Debug, Copy, Clone, PartialEq, Eq, Structural)]
pub enum FaceAxis {
    U,
    V,
}

/// How a pass treats a face.
#[derive(Debug, Copy, Clone, PartialEq, Eq, Structural)]
pub enum BlurMode {
    /// The axis of the pass runs through the face: the kernel lies along the
    /// line from the middle of the face through the texel, and may leave the
    /// face through any edge.
    Radial,
    /// The axis of the pass runs beside the face, along the given axis of it:
    /// the kernel lies along that axis, and leaves the face only through the
    /// two edges at its ends.
    Directional(FaceAxis),
}

/// The positive face of the axis that a phase is aligned to.
pub open spec fn phase_axis_spec(phase: int) -> CubeFace {
    if phase == 0 {
        CubeFace::PositiveX
    } else if phase == 1 {
        CubeFace::PositiveY
    } else {
        CubeFace::PositiveZ
    }
}

/// How the pass of the given phase treats a face: by whether the axis of the
/// phase runs through the face, along its `u` or along its `v`.
pub open spec fn blur_mode_spec(face: CubeFace, phase: int) -> BlurMode {
    let axis = phase_axis_spec(phase);
    if face.abs_spec() == axis {
        BlurMode::Radial
    } else if face.u_face_spec().abs_spec() == axis {
        BlurMode::Directional(FaceAxis::U)
    } else {
        BlurMode::Directional(FaceAxis::V)
    }
}

/// The positive face of the axis that a phase is aligned to.
pub fn phase_axis(phase: usize) -> (axis: CubeFace)
    requires
        phase < 3,
    ensures
        axis == phase_axis_spec(phase as int),
        axis.ordinal() == 2 * phase,
{
    if phase == 0 {
        CubeFace::PositiveX
    } else if phase == 1 {
        CubeFace::PositiveY
    } else {
        CubeFace::PositiveZ
    }
}

/// How the pass of the given phase treats a face.
pub fn blur_mode(face: CubeFace, phase: usize) -> (mode: BlurMode)
    requires
        phase < 3,
    ensures
        mode == blur_mode_spec(face, phase as int),
{
    let axis = phase_axis(phase);
    if face.abs() == axis {
        BlurMode::Radial
    } else if face.u_face().abs() == axis {
        BlurMode::Directional(FaceAxis::U)
    } else {
        BlurMode::Directional(FaceAxis::V)
    }
}

/// What is the same for every texel of a pass.
#[derive(Debug, Copy, Clone)]
pub struct Pass<W> {
    /// The width of a face in texels.
    pub size: usize,
    /// The number of weights of the kernel on either side of its middle.
    pub kernel_radius: usize,
    /// The distance between two taps at the middle of a face, in texels.
    pub kernel_scale: W,
    /// The axis that the pass is aligned to, as a number below three.
    pub phase: usize,
    /// Whether the outermost texels sit on the edges of the faces.
    pub stretched: bool,
}

/// A texel for which a pass asks where the taps of its kernel lie.
#[derive(Debug, Copy, Clone)]
pub struct Site<W> {
    pub pass: Pass<W>,
    pub face: CubeFace,
    /// How the pass treats the face.
    pub mode: BlurMode,
    pub x: usize,
    pub y: usize,
}

impl<W> Pass<W> {
    /// The texel `(x, y)` of `face`, as this pass asks for it.
    pub open spec fn site(self, face: CubeFace, x: usize, y: usize) -> Site<W> {
        Site { pass: self, face, mode: blur_mode_spec(face, self.phase as int), x, y }
    }

    /// Whether the pass fits a kernel of `len` weights: the phase names an
    /// axis, the kernel has a middle, and the faces are not empty and not too
    /// large to be addressed.
    pub open spec fn fits(self, len: nat) -> bool {
        &&& self.phase < 3
        &&& len == 2 * self.kernel_radius + 1
        &&& 1 <= self.size
        &&& self.size * self.size <= isize::MAX
    }
}

/// The pass that `spherical_blur_phase` carries out on its arguments.
pub open spec fn pass_of<W>(
    size: usize,
    kernel_len: nat,
    kernel_scale: W,
    phase: usize,
    stretched: bool,
) -> Pass<W> {
    Pass { size, kernel_radius: (kernel_len / 2) as usize, kernel_scale, phase, stretched }
}

/// The contents of the faces handed to a pass.
pub open spec fn face_views<T>(faces: Seq<&[T]>) -> Seq<Seq<T>> {
    Seq::new(faces.len(), |i: int| faces[i]@)
}

/// The contents of the faces that a pass writes.
pub open spec fn buffer_views<T>(faces: Seq<Vec<T>>) -> Seq<Seq<T>> {
    Seq::new(faces.len(), |i: int| faces[i]@)
}

/// Whether `faces` holds the six faces of a cube `size` texels wide, and no
/// more.
pub open spec fn holds_cube<T>(faces: Seq<Seq<T>>, size: int) -> bool {
    &&& faces.len() == 6
    &&& forall|f: int| 0 <= f < 6 ==> (#[trigger] faces[f]).len() >= size * size
}

/// The sample that a tap taken from `face` reads.
pub open spec fn sample_at<T>(faces: Seq<Seq<T>>, face: CubeFace, size: int, tap: Tap) -> T {
    faces[tap.face_spec(face).ordinal()][tap.index_spec(face, size)]
}

/// The samples that the taps of one kernel read, in the order of the taps.
pub open spec fn samples_at<T>(
    faces: Seq<Seq<T>>,
    face: CubeFace,
    size: int,
    taps: Seq<Tap>,
) -> Seq<
    T,
> {
    Seq::new(taps.len(), |k: int| sample_at(faces, face, size, taps[k]))
}

/// Whether every tap names a texel.
pub open spec fn taps_in_range(taps: Seq<Tap>, size: int) -> bool {
    forall|k: int| 0 <= k < taps.len() ==> (#[trigger] taps[k]).in_range(size)
}

/// Whether a footprint can be used: it has one tap for each weight of the
/// kernel, and every tap names a texel.
pub open spec fn footprint_fits(taps: Seq<Tap>, size: int, len: nat) -> bool {
    taps.len() == len && taps_in_range(taps, size)
}

/// Reads the samples that the taps of one kernel name, or nothing if a tap
/// names no texel.
pub fn gather<T: Copy>(in_faces: &[&[T]], face: CubeFace, size: usize, taps: &Vec<Tap>) -> (r:
    Option<Vec<T>>)
    requires
        1 <= size,
        size * size <= isize::MAX,
        holds_cube(face_views(in_faces@), size as int),
    ensures
        r.is_some() <==> taps_in_range(taps@, size as int),
        r.is_some() ==> r.unwrap()@ == samples_at(face_views(in_faces@), face, size as int, taps@),
{
    let mut samples: Vec<T> = Vec::new();
    let mut k: usize = 0;
    while k < taps.len()
        invariant
            1 <= size,
            size * size <= isize::MAX,
            holds_cube(face_views(in_faces@), size as int),
            k <= taps.len(),
            samples.len() == k,
            forall|j: int| 0 <= j < k ==> (#[trigger] taps@[j]).in_range(size as int),
            forall|j: int|
                0 <= j < k ==> #[trigger] samples@[j] == sample_at(
                    face_views(in_faces@),
                    face,
                    size as int,
                    taps@[j],
                ),
        decreases taps.len() - k,
    {
        match taps[k].resolve(face, size) {
            Some(address) => {
                let f = address.face.as_ordinal();
                assert(face_views(in_faces@)[f as int] == in_faces@[f as int]@);
                let image = in_faces[f];
                samples.push(image[address.index]);
            },
            None => {
                return None;
            },
        }
        k += 1;
    }
    assert(samples@ =~= samples_at(face_views(in_faces@), face, size as int, taps@));
    Some(samples)
}

/// Whether `sum` can come out of starting at `zero` and adding in, one after
/// the other, the first `n` samples with their weights.
pub open spec fn folds_to<T, W, A: Fn(T, T, W) -> T>(
    accumulate: A,
    zero: T,
    samples: Seq<T>,
    kernel: Seq<W>,
    n: nat,
    sum: T,
) -> bool
    decreases n,
{
    if n == 0 {
        sum == zero
    } else {
        exists|before: T|
            folds_to(accumulate, zero, samples, kernel, (n - 1) as nat, before)
                && #[trigger] call_ensures(
                accumulate,
                (before, samples[n - 1], kernel[n - 1]),
                sum,
            )
    }
}

/// One more sample added in.
pub proof fn lemma_fold_step<T, W, A: Fn(T, T, W) -> T>(
    accumulate: A,
    zero: T,
    samples: Seq<T>,
    kernel: Seq<W>,
    n: nat,
    before: T,
    sum: T,
)
    requires
        n < samples.len(),
        n < kernel.len(),
        folds_to(accumulate, zero, samples, kernel, n, before),
        call_ensures(accumulate, (before, samples[n as int], kernel[n as int]), sum),
    ensures
        folds_to(accumulate, zero, samples, kernel, n + 1, sum),
{
    let next = n + 1;
    assert(folds_to(accumulate, zero, samples, kernel, (next - 1) as nat, before) && call_ensures(
        accumulate,
        (before, samples[next - 1], kernel[next - 1]),
        sum,
    ));
}

/// Adds the samples up under the kernel: starting at `zero`, each sample in
/// turn is added in with its weight.
pub fn weigh<T: Copy, W: Copy, A: Fn(T, T, W) -> T>(
    samples: &Vec<T>,
    kernel: &[W],
    zero: T,
    accumulate: &A,
) -> (sum: T)
    requires
        samples.len() == kernel.len(),
        forall|s: T, v: T, w: W| call_requires(*accumulate, (s, v, w)),
    ensures
        folds_to(*accumulate, zero, samples@, kernel@, kernel@.len(), sum),
{
    let mut sum = zero;
    let mut k: usize = 0;
    while k < kernel.len()
        invariant
            samples.len() == kernel.len(),
            forall|s: T, v: T, w: W| call_requires(*accumulate, (s, v, w)),
            k <= kernel.len(),
            folds_to(*accumulate, zero, samples@, kernel@, k as nat, sum),
        decreases kernel.len() - k,
    {
        let ghost before = sum;
        let ghost m = k as nat;
        sum = accumulate(sum, samples[k], kernel[k]);
        k += 1;
        proof {
            lemma_fold_step(*accumulate, zero, samples@, kernel@, m, before, sum);
        }
    }
    sum
}

/// The value of one texel after a pass, from the taps of its footprint: the
/// samples that the taps name, added up under the kernel. Nothing if the
/// footprint cannot be used.
pub fn blur_texel<T: Copy, W: Copy, A: Fn(T, T, W) -> T>(
    in_faces: &[&[T]],
    face: CubeFace,
    size: usize,
    kernel: &[W],
    taps: &Vec<Tap>,
    zero: T,
    accumulate: &A,
) -> (r: Option<T>)
    requires
        1 <= size,
        size * size <= isize::MAX,
        holds_cube(face_views(in_faces@), size as int),
        forall|s: T, v: T, w: W| call_requires(*accumulate, (s, v, w)),
    ensures
        r.is_some() <==> footprint_fits(taps@, size as int, kernel@.len()),
        r.is_some() ==> folds_to(
            *accumulate,
            zero,
            samples_at(face_views(in_faces@), face, size as int, taps@),
            kernel@,
            kernel@.len(),
            r.unwrap(),
        ),
{
    if taps.len() != kernel.len() {
        return None;
    }
    match gather(in_faces, face, size, taps) {
        Some(samples) => Some(weigh(&samples, kernel, zero, accumulate)),
        None => None,
    }
}

/// The texel whose footprint a pass could not use: it has another number of
/// taps than the kernel has weights, or one of its taps names no texel.
#[derive(Debug, Copy, Clone, PartialEq, Eq, Structural)]
pub struct BlurError {
    pub face: CubeFace,
    pub x: usize,
    pub y: usize,
}

/// Whether `value` is what a pass may leave in texel `(x, y)` of `face`: the
/// samples under a footprint that `footprint` gives for the texel, added up
/// under the kernel.
pub open spec fn texel_blurred<T, W, F: Fn(Site<W>) -> Vec<Tap>, A: Fn(T, T, W) -> T>(
    footprint: F,
    accumulate: A,
    zero: T,
    faces: Seq<Seq<T>>,
    kernel: Seq<W>,
    pass: Pass<W>,
    face: CubeFace,
    x: usize,
    y: usize,
    value: T,
) -> bool {
    exists|taps: Vec<Tap>| #[trigger]
        call_ensures(footprint, (pass.site(face, x, y),), taps) && footprint_fits(
            taps@,
            pass.size as int,
            kernel.len(),
        ) && folds_to(
            accumulate,
            zero,
            samples_at(faces, face, pass.size as int, taps@),
            kernel,
            kernel.len(),
            value,
        )
}

/// Whether `footprint` may give, for texel `(x, y)` of `face`, a footprint
/// that cannot be used.
pub open spec fn footprint_fails<W, F: Fn(Site<W>) -> Vec<Tap>>(
    footprint: F,
    pass: Pass<W>,
    len: nat,
    face: CubeFace,
    x: usize,
    y: usize,
) -> bool {
    exists|taps: Vec<Tap>| #[trigger]
        call_ensures(footprint, (pass.site(face, x, y),), taps) && !footprint_fits(
            taps@,
            pass.size as int,
            len,
        )
}

/// Whether `out` holds `face` as a pass may leave it.
pub open spec fn face_blurred<T, W, F: Fn(Site<W>) -> Vec<Tap>, A: Fn(T, T, W) -> T>(
    footprint: F,
    accumulate: A,
    zero: T,
    faces: Seq<Seq<T>>,
    kernel: Seq<W>,
    pass: Pass<W>,
    face: CubeFace,
    out: Seq<T>,
) -> bool {
    forall|x: usize, y: usize|
        x < pass.size && y < pass.size ==> texel_blurred(
            footprint,
            accumulate,
            zero,
            faces,
            kernel,
            pass,
            face,
            x,
            y,
            out[#[trigger] texel_index(pass.size as int, (x as int, y as int))],
        )
}

/// Whether `out` holds the six faces as a pass may leave them.
pub open spec fn cube_blurred<T, W, F: Fn(Site<W>) -> Vec<Tap>, A: Fn(T, T, W) -> T>(
    footprint: F,
    accumulate: A,
    zero: T,
    faces: Seq<Seq<T>>,
    kernel: Seq<W>,
    pass: Pass<W>,
    out: Seq<Seq<T>>,
) -> bool {
    forall|face: CubeFace| #[trigger]
        face_blurred(footprint, accumulate, zero, faces, kernel, pass, face, out[face.ordinal()])
}

/// Whether `after` is what a pass that stopped at the texel named by `error`
/// may leave of the face `before` that holds the texel: the texels before it,
/// row by row, are blurred, and the texel and those after it are as they
/// were.
pub open spec fn face_stopped<T, W, F: Fn(Site<W>) -> Vec<Tap>, A: Fn(T, T, W) -> T>(
    footprint: F,
    accumulate: A,
    zero: T,
    faces: Seq<Seq<T>>,
    kernel: Seq<W>,
    pass: Pass<W>,
    error: BlurError,
    before: Seq<T>,
    after: Seq<T>,
) -> bool {
    &&& after.len() == before.len()
    &&& forall|i: int|
        texel_index(pass.size as int, (error.x as int, error.y as int)) <= i < before.len()
            ==> after[i] == before[i]
    &&& forall|x: usize, y: usize|
        x < pass.size && (y < error.y || (y == error.y && x < error.x)) ==> texel_blurred(
            footprint,
            accumulate,
            zero,
            faces,
            kernel,
            pass,
            error.face,
            x,
            y,
            after[#[trigger] texel_index(pass.size as int, (x as int, y as int))],
        )
}

/// Whether `after` is what a pass that stopped at the texel named by `error`
/// may leave of the cube `before`: the footprint of the texel cannot be
/// used, the faces before the face of the texel are blurred, that face is
/// blurred up to the texel, and the faces after it are as they were.
pub open spec fn cube_stopped<T, W, F: Fn(Site<W>) -> Vec<Tap>, A: Fn(T, T, W) -> T>(
    footprint: F,
    accumulate: A,
    zero: T,
    faces: Seq<Seq<T>>,
    kernel: Seq<W>,
    pass: Pass<W>,
    error: BlurError,
    before: Seq<Seq<T>>,
    after: Seq<Seq<T>>,
) -> bool {
    &&& error.x < pass.size && error.y < pass.size
    &&& footprint_fails(footprint, pass, kernel.len(), error.face, error.x, error.y)
    &&& after.len() == before.len()
    &&& forall|f: int| 0 <= f < after.len() ==> (#[trigger] after[f]).len() == before[f].len()
    &&& forall|f: int, i: int|
        0 <= f < 6 && pass.size * pass.size <= i < before[f].len() ==> (#[trigger] after[f][i])
            == before[f][i]
    &&& forall|face: CubeFace|
        face.ordinal() < error.face.ordinal() ==> #[trigger] face_blurred(
            footprint,
            accumulate,
            zero,
            faces,
            kernel,
            pass,
            face,
            after[face.ordinal()],
        )
    &&& face_stopped(
        footprint,
        accumulate,
        zero,
        faces,
        kernel,
        pass,
        error,
        before[error.face.ordinal()],
        after[error.face.ordinal()],
    )
    &&& forall|f: int|
        error.face.ordinal() < f < before.len() ==> (#[trigger] after[f]) == before[f]
}

/// Blurs one face: every texel of `out_face` becomes the sum, under the
/// kernel, of the samples under the footprint that `footprint` gives for it.
///
/// `footprint` is asked once for each texel, row by row. The pass stops at
/// the first footprint that cannot be used and names its texel; the texels
/// before it are then done and the others are as they were.
pub fn blur_face<T: Copy, W: Copy, F: Fn(Site<W>) -> Vec<Tap>, A: Fn(T, T, W) -> T>(
    out_face: &mut [T],
    in_faces: &[&[T]],
    face: CubeFace,
    kernel: &[W],
    pass: Pass<W>,
    footprint: &F,
    zero: T,
    accumulate: &A,
) -> (r: Result<(), BlurError>)
    requires
        pass.fits(kernel@.len()),
        holds_cube(face_views(in_faces@), pass.size as int),
        old(out_face)@.len() >= pass.size * pass.size,
        forall|site: Site<W>| call_requires(*footprint, (site,)),
        forall|s: T, v: T, w: W| call_requires(*accumulate, (s, v, w)),
    ensures
        final(out_face)@.len() == old(out_face)@.len(),
        forall|i: int|
            pass.size * pass.size <= i < old(out_face)@.len() ==> final(out_face)@[i] == old(
                out_face,
            )@[i],
        r.is_ok() ==> face_blurred(
            *footprint,
            *accumulate,
            zero,
            face_views(in_faces@),
            kernel@,
            pass,
            face,
            final(out_face)@,
        ),
        r.is_err() ==> r.unwrap_err().face == face && r.unwrap_err().x < pass.size
            && r.unwrap_err().y < pass.size && footprint_fails(
            *footprint,
            pass,
            kernel@.len(),
            face,
            r.unwrap_err().x,
            r.unwrap_err().y,
        ),
        r.is_err() ==> forall|i: int|
            texel_index(pass.size as int, (r.unwrap_err().x as int, r.unwrap_err().y as int)) <= i
                < old(out_face)@.len() ==> final(out_face)@[i] == old(out_face)@[i],
        r.is_err() ==> forall|x: usize, y: usize|
            x < pass.size && (y < r.unwrap_err().y || (y == r.unwrap_err().y && x
                < r.unwrap_err().x)) ==> texel_blurred(
                *footprint,
                *accumulate,
                zero,
                face_views(in_faces@),
                kernel@,
                pass,
                face,
                x,
                y,
                final(out_face)@[#[trigger] texel_index(pass.size as int, (x as int, y as int))],
            ),
{
    let size = pass.size;
    let mode = blur_mode(face, pass.phase);
    let ghost faces = face_views(in_faces@);
    let mut y: usize = 0;
    while y < size
        invariant
            size == pass.size,
            pass.fits(kernel@.len()),
            holds_cube(face_views(in_faces@), size as int),
            faces == face_views(in_faces@),
            mode == blur_mode_spec(face, pass.phase as int),
            forall|site: Site<W>| call_requires(*footprint, (site,)),
            forall|s: T, v: T, w: W| call_requires(*accumulate, (s, v, w)),
            y <= size,
            out_face@.len() == old(out_face)@.len(),
            out_face@.len() >= size * size,
            forall|i: int| size * y <= i < out_face@.len() ==> out_face@[i] == old(out_face)@[i],
            forall|x: usize, v: usize|
                x < size && v < y ==> texel_blurred(
                    *footprint,
                    *accumulate,
                    zero,
                    faces,
                    kernel@,
                    pass,
                    face,
                    x,
                    v,
                    out_face@[#[trigger] texel_index(size as int, (x as int, v as int))],
                ),
        decreases size - y,
    {
        let mut x: usize = 0;
        while x < size
            invariant
                size == pass.size,
                pass.fits(kernel@.len()),
                holds_cube(face_views(in_faces@), size as int),
                faces == face_views(in_faces@),
                mode == blur_mode_spec(face, pass.phase as int),
                forall|site: Site<W>| call_requires(*footprint, (site,)),
                forall|s: T, v: T, w: W| call_requires(*accumulate, (s, v, w)),
                y < size,
                x <= size,
                out_face@.len() == old(out_face)@.len(),
                out_face@.len() >= size * size,
                forall|i: int|
                    size * y + x <= i < out_face@.len() ==> out_face@[i] == old(out_face)@[i],
                forall|u: usize, v: usize|
                    u < size && (v < y || (v == y && u < x)) ==> texel_blurred(
                        *footprint,
                        *accumulate,
                        zero,
                        faces,
                        kernel@,
                        pass,
                        face,
                        u,
                        v,
                        out_face@[#[trigger] texel_index(size as int, (u as int, v as int))],
                    ),
            decreases size - x,
        {
            proof {
                lemma_index_bound(size as int, x as int, y as int);
            }
            let taps = footprint(Site { pass, face, mode, x, y });
            match blur_texel(in_faces, face, size, kernel, &taps, zero, accumulate) {
                Some(value) => {
                    let ghost before = out_face@;
                    out_face[x + size * y] = value;
                    proof {
                        assert forall|u: usize, v: usize|
                            u < size && (v < y || (v == y && u < x + 1)) implies texel_blurred(
                            *footprint,
                            *accumulate,
                            zero,
                            faces,
                            kernel@,
                            pass,
                            face,
                            u,
                            v,
                            out_face@[#[trigger] texel_index(size as int, (u as int, v as int))],
                        ) by {
                            lemma_index_order(size as int, u as int, v as int, x as int, y as int);
                            if u == x && v == y {
                            } else {
                                assert(out_face@[texel_index(size as int, (u as int, v as int))]
                                    == before[texel_index(size as int, (u as int, v as int))]);
                            }
                        }
                    }
                },
                None => {
                    return Err(BlurError { face, x, y });
                },
            }
            x += 1;
        }
        proof {
            assert(size * (y + 1) == size * y + size) by (nonlinear_arith);
        }
        y += 1;
    }
    Ok(())
}

/// Performs one pass of the blur over the six faces of a cube.
///
/// Every texel of the six faces of `out_faces` becomes the sum, under
/// `kernel`, of the samples of `in_faces` under the footprint that
/// `footprint` gives for it: starting at `zero`, `accumulate` adds each
/// sample in with its weight. The faces are done in their fixed order. The
/// pass stops at the first footprint that cannot be used and names its
/// texel.
pub fn spherical_blur_phase<T: Copy, W: Copy, Trait: CubeMapTrait, F: Fn(Site<W>) -> Vec<
    Tap,
>, A: Fn(T, T, W) -> T>(
    out_faces: &mut [Vec<T>],
    in_faces: &[&[T]],
    size: usize,
    kernel: &[W],
    kernel_scale: W,
    phase: usize,
    cube_map_trait: Trait,
    footprint: &F,
    zero: T,
    accumulate: &A,
) -> (r: Result<(), BlurError>)
    requires
        phase < 3,
        kernel@.len() % 2 == 1,
        1 <= size,
        size * size <= isize::MAX,
        holds_cube(face_views(in_faces@), size as int),
        holds_cube(buffer_views(old(out_faces)@), size as int),
        forall|site: Site<W>| call_requires(*footprint, (site,)),
        forall|s: T, v: T, w: W| call_requires(*accumulate, (s, v, w)),
    ensures
        final(out_faces)@.len() == old(out_faces)@.len(),
        forall|f: int|
            0 <= f < old(out_faces)@.len() ==> (#[trigger] final(out_faces)@[f])@.len() == old(
                out_faces,
            )@[f]@.len(),
        forall|f: int, i: int|
            0 <= f < 6 && size * size <= i < old(out_faces)@[f]@.len() ==> (
            #[trigger] final(out_faces)@[f]@[i]) == old(out_faces)@[f]@[i],
        r.is_ok() ==> cube_blurred(
            *footprint,
            *accumulate,
            zero,
            face_views(in_faces@),
            kernel@,
            pass_of(size, kernel@.len(), kernel_scale, phase, cube_map_trait.stretched()),
            buffer_views(final(out_faces)@),
        ),
        r.is_err() ==> r.unwrap_err().x < size && r.unwrap_err().y < size && footprint_fails(
            *footprint,
            pass_of(size, kernel@.len(), kernel_scale, phase, cube_map_trait.stretched()),
            kernel@.len(),
            r.unwrap_err().face,
            r.unwrap_err().x,
            r.unwrap_err().y,
        ),
        r.is_err() ==> cube_stopped(
            *footprint,
            *accumulate,
            zero,
            face_views(in_faces@),
            kernel@,
            pass_of(size, kernel@.len(), kernel_scale, phase, cube_map_trait.stretched()),
            r.unwrap_err(),
            buffer_views(old(out_faces)@),
            buffer_views(final(out_faces)@),
        ),
{
    let pass = Pass {
        size,
        kernel_radius: kernel.len() / 2,
        kernel_scale,
        phase,
        stretched: cube_map_trait.edge_stretch_fixup(),
    };
    let mut f: usize = 0;
    while f < 6
        invariant
            pass == pass_of(size, kernel@.len(), kernel_scale, phase, cube_map_trait.stretched()),
            pass.fits(kernel@.len()),
            holds_cube(face_views(in_faces@), size as int),
            holds_cube(buffer_views(old(out_faces)@), size as int),
            forall|site: Site<W>| call_requires(*footprint, (site,)),
            forall|s: T, v: T, w: W| call_requires(*accumulate, (s, v, w)),
            f <= 6,
            out_faces@.len() == old(out_faces)@.len(),
            forall|g: int|
                0 <= g < out_faces@.len() ==> (#[trigger] out_faces@[g])@.len() == old(
                    out_faces,
                )@[g]@.len(),
            forall|g: int| f <= g < out_faces@.len() ==> (#[trigger] out_faces@[g]) == old(
                out_faces,
            )@[g],
            forall|g: int, i: int|
                0 <= g < 6 && size * size <= i < old(out_faces)@[g]@.len() ==> (
                #[trigger] out_faces@[g]@[i]) == old(out_faces)@[g]@[i],
            forall|face: CubeFace|
                face.ordinal() < f ==> #[trigger] face_blurred(
                    *footprint,
                    *accumulate,
                    zero,
                    face_views(in_faces@),
                    kernel@,
                    pass,
                    face,
                    out_faces@[face.ordinal()]@,
                ),
        decreases 6 - f,
    {
        let face = CubeFace::from_ordinal(f).unwrap();
        assert(buffer_views(old(out_faces)@)[f as int] == old(out_faces)@[f as int]@);
        let ghost before = out_faces@;
        let done = blur_face(
            out_faces[f].as_mut_slice(),
            in_faces,
            face,
            kernel,
            pass,
            footprint,
            zero,
            accumulate,
        );
        match done {
            Ok(()) => {},
            Err(e) => {
                proof {
                    assert forall|other: CubeFace|
                        other.ordinal() < e.face.ordinal() implies #[trigger] face_blurred(
                        *footprint,
                        *accumulate,
                        zero,
                        face_views(in_faces@),
                        kernel@,
                        pass,
                        other,
                        out_faces@[other.ordinal()]@,
                    ) by {
                        assert(out_faces@[other.ordinal()] == before[other.ordinal()]);
                        assert(buffer_views(out_faces@)[other.ordinal()]
                            == out_faces@[other.ordinal()]@);
                    }
                    assert(buffer_views(out_faces@)[f as int] == out_faces@[f as int]@);
                    assert forall|g: int| e.face.ordinal() < g < old(out_faces)@.len() implies (
                    #[trigger] buffer_views(out_faces@)[g]) == buffer_views(old(out_faces)@)[g] by {
                        assert(out_faces@[g] == before[g]);
                    }
                    assert forall|g: int| 0 <= g < out_faces@.len() implies (
                    #[trigger] buffer_views(out_faces@)[g]).len() == buffer_views(
                        old(out_faces)@,
                    )[g].len() by {
                        assert(out_faces@[g]@.len() == old(out_faces)@[g]@.len());
                    }
                    assert forall|g: int, i: int|
                        0 <= g < 6 && size * size <= i < buffer_views(
                            old(out_faces)@,
                        )[g].len() implies (#[trigger] buffer_views(out_faces@)[g][i])
                        == buffer_views(old(out_faces)@)[g][i] by {
                        if g == f {
                        } else {
                            assert(out_faces@[g] == before[g]);
                        }
                    }
                }
                return Err(e);
            },
        }
        proof {
            assert forall|other: CubeFace| other.ordinal() < f + 1 implies #[trigger] face_blurred(
                *footprint,
                *accumulate,
                zero,
                face_views(in_faces@),
                kernel@,
                pass,
                other,
                out_faces@[other.ordinal()]@,
            ) by {
                if other.ordinal() == f {
                    lemma_face_identity(other, face);
                } else {
                    assert(out_faces@[other.ordinal()] == before[other.ordinal()]);
                }
            }
        }
        f += 1;
    }
    proof {
        assert forall|face: CubeFace| #[trigger]
            face_blurred(
                *footprint,
                *accumulate,
                zero,
                face_views(in_faces@),
                kernel@,
                pass,
                face,
                buffer_views(out_faces@)[face.ordinal()],
            ) by {
            lemma_face_identity(face, face);
            assert(buffer_views(out_faces@)[face.ordinal()] == out_faces@[face.ordinal()]@);
        }
    }
    Ok(())
}

/// Whether every texel of the six faces holds `value`.
pub open spec fn uniform<T>(faces: Seq<Seq<T>>, size: int, value: T) -> bool {
    forall|f: int, i: int|
        0 <= f < 6 && 0 <= i < size * size ==> (#[trigger] faces[f][i]) == value
}

/// As many samples as asked for, each of them `value`.
pub open spec fn constant_samples<T>(len: nat, value: T) -> Seq<T> {
    Seq::new(len, |k: int| value)
}

/// Whether adding up `value` under every weight of the kernel gives `value`
/// again: what it means for the weights to add up to one, said of the
/// arithmetic that `accumulate` carries out.
pub open spec fn sums_to_itself<T, W, A: Fn(T, T, W) -> T>(
    accumulate: A,
    zero: T,
    kernel: Seq<W>,
    value: T,
) -> bool {
    forall|sum: T|
        #[trigger] folds_to(
            accumulate,
            zero,
            constant_samples(kernel.len(), value),
            kernel,
            kernel.len(),
            sum,
        ) ==> sum == value
}

/// On a cube that holds one value everywhere, every tap reads that value,
/// whichever face it is taken from and whichever edge it crosses.
pub proof fn lemma_uniform_samples<T>(
    faces: Seq<Seq<T>>,
    face: CubeFace,
    size: int,
    taps: Seq<Tap>,
    value: T,
)
    requires
        uniform(faces, size, value),
        taps_in_range(taps, size),
    ensures
        samples_at(faces, face, size, taps) == constant_samples(taps.len(), value),
{
    assert forall|k: int| 0 <= k < taps.len() implies sample_at(faces, face, size, taps[k])
        == value by {
        lemma_tap_folds(taps[k], face, size);
        lemma_face_identity(taps[k].face_spec(face), face);
    }
    assert(samples_at(faces, face, size, taps) =~= constant_samples(taps.len(), value));
}

/// A pass over a cube that holds one value everywhere leaves that value
/// everywhere: for every phase, every footprint that can be used, and every
/// kernel whose weights add up to one.
pub proof fn lemma_blur_keeps_uniform<T, W, F: Fn(Site<W>) -> Vec<Tap>, A: Fn(T, T, W) -> T>(
    footprint: F,
    accumulate: A,
    zero: T,
    faces: Seq<Seq<T>>,
    kernel: Seq<W>,
    pass: Pass<W>,
    out: Seq<Seq<T>>,
    value: T,
)
    requires
        1 <= pass.size,
        cube_blurred(footprint, accumulate, zero, faces, kernel, pass, out),
        uniform(faces, pass.size as int, value),
        sums_to_itself(accumulate, zero, kernel, value),
    ensures
        uniform(out, pass.size as int, value),
{
    let n = pass.size as int;
    assert forall|f: int, i: int| 0 <= f < 6 && 0 <= i < n * n implies (#[trigger] out[f][i])
        == value by {
        let face = face_at(f);
        let x = (i % n) as usize;
        let y = (i / n) as usize;
        vstd::arithmetic::div_mod::lemma_fundamental_div_mod(i, n);
        vstd::arithmetic::div_mod::lemma_div_pos_is_pos(i, n);
        assert(i / n < n) by (nonlinear_arith)
            requires
                0 <= i < n * n,
                0 < n,
                i == n * (i / n) + i % n,
                0 <= i % n,
        ;
        assert(texel_index(n, (x as int, y as int)) == i);
        assert(face_blurred(
            footprint,
            accumulate,
            zero,
            faces,
            kernel,
            pass,
            face,
            out[face.ordinal()],
        ));
        assert(texel_blurred(
            footprint,
            accumulate,
            zero,
            faces,
            kernel,
            pass,
            face,
            x,
            y,
            out[f][texel_index(n, (x as int, y as int))],
        ));
        let taps = choose|taps: Vec<Tap>| #[trigger]
            call_ensures(footprint, (pass.site(face, x, y),), taps) && footprint_fits(
                taps@,
                n,
                kernel.len(),
            ) && folds_to(
                accumulate,
                zero,
                samples_at(faces, face, n, taps@),
                kernel,
                kernel.len(),
                out[f][i],
            );
        lemma_uniform_samples(faces, face, n, taps@, value);
    }
}

/// The three phases, each run once on what the one before has left, leave a
/// cube that holds one value everywhere as it is.
pub proof fn lemma_three_phases_keep_uniform<T, W, F: Fn(Site<W>) -> Vec<Tap>, A: Fn(
    T,
    T,
    W,
) -> T>(
    footprint: F,
    accumulate: A,
    zero: T,
    kernel: Seq<W>,
    passes: (Pass<W>, Pass<W>, Pass<W>),
    faces: Seq<Seq<T>>,
    first: Seq<Seq<T>>,
    second: Seq<Seq<T>>,
    third: Seq<Seq<T>>,
    value: T,
)
    requires
        1 <= passes.0.size,
        passes.1.size == passes.0.size,
        passes.2.size == passes.0.size,
        passes.0.phase == 0,
        passes.1.phase == 1,
        passes.2.phase == 2,
        cube_blurred(footprint, accumulate, zero, faces, kernel, passes.0, first),
        cube_blurred(footprint, accumulate, zero, first, kernel, passes.1, second),
        cube_blurred(footprint, accumulate, zero, second, kernel, passes.2, third),
        uniform(faces, passes.0.size as int, value),
        sums_to_itself(accumulate, zero, kernel, value),
    ensures
        uniform(third, passes.0.size as int, value),
{
    lemma_blur_keeps_uniform(footprint, accumulate, zero, faces, kernel, passes.0, first, value);
    lemma_blur_keeps_uniform(footprint, accumulate, zero, first, kernel, passes.1, second, value);
    lemma_blur_keeps_uniform(footprint, accumulate, zero, second, kernel, passes.2, third, value);
}

} // verus!
