//! Resampling between the levels of a pyramid: halving a face, and filling
//! the holes of a face from the level below it.

use crate::blur::{gaussian_kernel, is_kernel};
use crate::raster::{lemma_index_bound, lemma_index_order, texel_index};
use vstd::prelude::*;

verus! {

/// Whether `value` can be the average of the block of two by two texels of
/// `src`, a face `2 * size` texels wide, that lies under texel `(x, y)` of
/// the face half as wide. The texels of the block are handed to `average` row
/// by row.
pub open spec fn averages_block<T, F: Fn(T, T, T, T) -> T>(
    average: F,
    src: Seq<T>,
    size: int,
    x: int,
    y: int,
    value: T,
) -> bool {
    call_ensures(
        average,
        (
            src[texel_index(2 * size, (2 * x, 2 * y))],
            src[texel_index(2 * size, (2 * x + 1, 2 * y))],
            src[texel_index(2 * size, (2 * x, 2 * y + 1))],
            src[texel_index(2 * size, (2 * x + 1, 2 * y + 1))],
        ),
        value,
    )
}

/// Whether `dst` holds the face `src` at half its width.
pub open spec fn downsampled<T, F: Fn(T, T, T, T) -> T>(
    average: F,
    src: Seq<T>,
    size: int,
    dst: Seq<T>,
) -> bool {
    forall|x: int, y: int|
        0 <= x < size && 0 <= y < size ==> averages_block(
            average,
            src,
            size,
            x,
            y,
            dst[#[trigger] texel_index(size, (x, y))],
        )
}

/// Halves a face: each texel of `dst`, a face `size` texels wide, becomes the
/// average of the two by two texels of `src` under it.
pub fn downsample_2x<T: Copy, F: Fn(T, T, T, T) -> T>(
    dst: &mut [T],
    src: &[T],
    size: usize,
    average: &F,
)
    requires
        old(dst)@.len() >= size * size,
        src@.len() >= 4 * size * size,
        forall|a: T, b: T, c: T, d: T| call_requires(*average, (a, b, c, d)),
    ensures
        final(dst)@.len() == old(dst)@.len(),
        forall|i: int| size * size <= i < old(dst)@.len() ==> final(dst)@[i] == old(dst)@[i],
        downsampled(*average, src@, size as int, final(dst)@),
{
    if size == 0 {
        return ;
    }
    let limit = src.len();
    proof {
        lemma_width(size as int);
    }
    let width: usize = 2 * size;
    let mut y: usize = 0;
    while y < size
        invariant
            1 <= size,
            width == 2 * size,
            4 * size * size <= usize::MAX,
            src@.len() >= 4 * size * size,
            forall|a: T, b: T, c: T, d: T| call_requires(*average, (a, b, c, d)),
            y <= size,
            dst@.len() == old(dst)@.len(),
            dst@.len() >= size * size,
            forall|i: int| size * y <= i < dst@.len() ==> dst@[i] == old(dst)@[i],
            forall|u: int, v: int|
                0 <= u < size && 0 <= v < y ==> averages_block(
                    *average,
                    src@,
                    size as int,
                    u,
                    v,
                    dst@[#[trigger] texel_index(size as int, (u, v))],
                ),
        decreases size - y,
    {
        let mut x: usize = 0;
        while x < size
            invariant
                1 <= size,
                width == 2 * size,
                4 * size * size <= usize::MAX,
                src@.len() >= 4 * size * size,
                forall|a: T, b: T, c: T, d: T| call_requires(*average, (a, b, c, d)),
                y < size,
                x <= size,
                dst@.len() == old(dst)@.len(),
                dst@.len() >= size * size,
                forall|i: int| size * y + x <= i < dst@.len() ==> dst@[i] == old(dst)@[i],
                forall|u: int, v: int|
                    0 <= u < size && 0 <= v && (v < y || (v == y && u < x)) ==> averages_block(
                        *average,
                        src@,
                        size as int,
                        u,
                        v,
                        dst@[#[trigger] texel_index(size as int, (u, v))],
                    ),
            decreases size - x,
        {
            proof {
                lemma_index_bound(size as int, x as int, y as int);
                lemma_index_bound(2 * size, 2 * x, 2 * y);
                lemma_index_bound(2 * size, 2 * x + 1, 2 * y);
                lemma_index_bound(2 * size, 2 * x, 2 * y + 1);
                lemma_index_bound(2 * size, 2 * x + 1, 2 * y + 1);
                lemma_width(size as int);
            }
            let upper = 2 * x + width * (2 * y);
            let lower = 2 * x + width * (2 * y + 1);
            let value = average(src[upper], src[upper + 1], src[lower], src[lower + 1]);
            let ghost before = dst@;
            dst[x + size * y] = value;
            proof {
                assert forall|u: int, v: int|
                    0 <= u < size && 0 <= v && (v < y || (v == y && u < x + 1))
                    implies averages_block(
                    *average,
                    src@,
                    size as int,
                    u,
                    v,
                    dst@[#[trigger] texel_index(size as int, (u, v))],
                ) by {
                    lemma_index_order(size as int, u, v, x as int, y as int);
                    if u == x && v == y {
                    } else {
                        assert(dst@[texel_index(size as int, (u, v))] == before[texel_index(
                            size as int,
                            (u, v),
                        )]);
                    }
                }
            }
            x += 1;
        }
        proof {
            assert(size * (y + 1) == size * y + size) by (nonlinear_arith);
        }
        y += 1;
    }
}

/// A face twice as wide has four times the texels.
proof fn lemma_width(size: int)
    ensures
        (2 * size) * (2 * size) == 4 * size * size,
        4 * size * size == 4 * (size * size),
        size >= 1 ==> 2 * size <= 4 * size * size,
{
    assert((2 * size) * (2 * size) == 4 * size * size && 4 * size * size == 4 * (size * size))
        by (nonlinear_arith);
    if size >= 1 {
        assert(2 * size <= 4 * size * size) by (nonlinear_arith)
            requires
                size >= 1,
        ;
    }
}

/// Whether `after` holds the face `before`, `2 * size` texels wide, with
/// every texel blended with the texel of `src`, the face half as wide, that
/// lies over it. `blend` is handed the texel and then the texel of `src`.
pub open spec fn holes_filled<T, F: Fn(T, T) -> T>(
    blend: F,
    before: Seq<T>,
    src: Seq<T>,
    size: int,
    after: Seq<T>,
) -> bool {
    forall|x: int, y: int|
        0 <= x < 2 * size && 0 <= y < 2 * size ==> call_ensures(
            blend,
            (before[texel_index(2 * size, (x, y))], src[texel_index(size, (x / 2, y / 2))]),
            after[#[trigger] texel_index(2 * size, (x, y))],
        )
}

/// Fills the holes of a face from the face half as wide: each texel of `dst`,
/// a face `2 * size` texels wide, is blended with the texel of `src` that
/// lies over it.
pub fn upsample_fill_hole_2x<T: Copy, F: Fn(T, T) -> T>(
    dst: &mut [T],
    src: &[T],
    size: usize,
    blend: &F,
)
    requires
        old(dst)@.len() >= 4 * size * size,
        src@.len() >= size * size,
        forall|d: T, s: T| call_requires(*blend, (d, s)),
    ensures
        final(dst)@.len() == old(dst)@.len(),
        forall|i: int|
            4 * size * size <= i < old(dst)@.len() ==> final(dst)@[i] == old(dst)@[i],
        holes_filled(*blend, old(dst)@, src@, size as int, final(dst)@),
{
    if size == 0 {
        return ;
    }
    let limit = dst.len();
    proof {
        lemma_width(size as int);
    }
    let width: usize = 2 * size;
    let mut y: usize = 0;
    while y < width
        invariant
            1 <= size,
            width == 2 * size,
            4 * size * size <= usize::MAX,
            src@.len() >= size * size,
            forall|d: T, s: T| call_requires(*blend, (d, s)),
            y <= width,
            dst@.len() == old(dst)@.len(),
            dst@.len() >= 4 * size * size,
            forall|i: int| width * y <= i < dst@.len() ==> dst@[i] == old(dst)@[i],
            forall|u: int, v: int|
                0 <= u < width && 0 <= v < y ==> call_ensures(
                    *blend,
                    (
                        old(dst)@[texel_index(2 * size, (u, v))],
                        src@[texel_index(size as int, (u / 2, v / 2))],
                    ),
                    dst@[#[trigger] texel_index(2 * size, (u, v))],
                ),
        decreases width - y,
    {
        let mut x: usize = 0;
        while x < width
            invariant
                1 <= size,
                width == 2 * size,
                4 * size * size <= usize::MAX,
                src@.len() >= size * size,
                forall|d: T, s: T| call_requires(*blend, (d, s)),
                y < width,
                x <= width,
                dst@.len() == old(dst)@.len(),
                dst@.len() >= 4 * size * size,
                forall|i: int| width * y + x <= i < dst@.len() ==> dst@[i] == old(dst)@[i],
                forall|u: int, v: int|
                    0 <= u < width && 0 <= v && (v < y || (v == y && u < x)) ==> call_ensures(
                        *blend,
                        (
                            old(dst)@[texel_index(2 * size, (u, v))],
                            src@[texel_index(size as int, (u / 2, v / 2))],
                        ),
                        dst@[#[trigger] texel_index(2 * size, (u, v))],
                    ),
            decreases width - x,
        {
            proof {
                lemma_index_bound(2 * size, x as int, y as int);
                lemma_index_bound(size as int, x as int / 2, y as int / 2);
                lemma_width(size as int);
            }
            let over = src[x / 2 + size * (y / 2)];
            let ghost before = dst@;
            let value = blend(dst[x + width * y], over);
            dst[x + width * y] = value;
            proof {
                assert forall|u: int, v: int|
                    0 <= u < width && 0 <= v && (v < y || (v == y && u < x + 1))
                    implies call_ensures(
                    *blend,
                    (
                        old(dst)@[texel_index(2 * size, (u, v))],
                        src@[texel_index(size as int, (u / 2, v / 2))],
                    ),
                    dst@[#[trigger] texel_index(2 * size, (u, v))],
                ) by {
                    lemma_index_order(2 * size, u, v, x as int, y as int);
                    if u == x && v == y {
                    } else {
                        assert(dst@[texel_index(2 * size, (u, v))] == before[texel_index(
                            2 * size,
                            (u, v),
                        )]);
                    }
                }
            }
            x += 1;
        }
        proof {
            assert(width * (y + 1) == width * y + width) by (nonlinear_arith);
        }
        y += 1;
    }
    proof {
        assert(width * width == 4 * size * size) by (nonlinear_arith)
            requires
                width == 2 * size,
        ;
    }
}

/// Whether `blend` leaves `texel` as it is, whatever it is blended with: what
/// it means for a texel to be fully covered.
pub open spec fn kept_by<T, F: Fn(T, T) -> T>(blend: F, texel: T) -> bool {
    forall|over: T, value: T|
        #[trigger] call_ensures(blend, (texel, over), value) ==> value == texel
}

/// Filling the holes of a face never alters a texel that is fully covered,
/// whatever the face above it holds.
pub proof fn lemma_fill_keeps_covered<T, F: Fn(T, T) -> T>(
    blend: F,
    before: Seq<T>,
    src: Seq<T>,
    size: int,
    after: Seq<T>,
    x: int,
    y: int,
)
    requires
        holes_filled(blend, before, src, size, after),
        0 <= x < 2 * size,
        0 <= y < 2 * size,
        kept_by(blend, before[texel_index(2 * size, (x, y))]),
    ensures
        after[texel_index(2 * size, (x, y))] == before[texel_index(2 * size, (x, y))],
{
    let i = texel_index(2 * size, (x, y));
    assert(call_ensures(blend, (before[i], src[texel_index(size, (x / 2, y / 2))]), after[i]));
}

/// Halving a face that is fully covered and filling its holes from the half
/// gives the face back, texel by texel.
pub proof fn lemma_fill_after_downsample<T, A: Fn(T, T, T, T) -> T, F: Fn(T, T) -> T>(
    average: A,
    blend: F,
    fine: Seq<T>,
    coarse: Seq<T>,
    size: int,
    after: Seq<T>,
)
    requires
        downsampled(average, fine, size, coarse),
        holes_filled(blend, fine, coarse, size, after),
        forall|i: int| 0 <= i < 4 * size * size ==> kept_by(blend, #[trigger] fine[i]),
    ensures
        forall|x: int, y: int|
            0 <= x < 2 * size && 0 <= y < 2 * size ==> after[#[trigger] texel_index(
                2 * size,
                (x, y),
            )] == fine[texel_index(2 * size, (x, y))],
{
    assert forall|x: int, y: int|
        0 <= x < 2 * size && 0 <= y < 2 * size implies after[#[trigger] texel_index(
        2 * size,
        (x, y),
    )] == fine[texel_index(2 * size, (x, y))] by {
        lemma_index_bound(2 * size, x, y);
        lemma_width(size);
        lemma_fill_keeps_covered(blend, fine, coarse, size, after, x, y);
    }
}

/// What a pyramid is planned from.
pub struct MipPyramidGenParams<W> {
    /// The resolution of the kernel: the number of texels in the interval
    /// from the middle of the Gaussian to one sigma.
    pub kernel_resolution: W,
    /// The size of the kernel, as a ratio to sigma.
    pub kernel_width: W,
    /// The base 2 logarithm of the sigma of the finest level.
    pub log2_min_sigma: W,
    pub high_quality: bool,
    pub num_levels: usize,
    pub size: usize,
}

/// The plan of a pyramid: the kernel that every pass uses and, for each
/// level, finest first, the scale of the kernel and the number of passes.
pub struct MipPyramidGenSetup<W> {
    pub kernel: Vec<W>,
    pub levels: Vec<(W, usize)>,
}

/// The numbers of passes of a list of levels.
pub open spec fn passes_of<W>(levels: Seq<(W, usize)>) -> Seq<usize> {
    Seq::new(levels.len(), |level: int| levels[level].1)
}

impl<W> MipPyramidGenSetup<W> {
    /// The number of passes of each level.
    pub fn passes(&self) -> (passes: Vec<usize>)
        ensures
            passes@ == passes_of(self.levels@),
    {
        let mut passes: Vec<usize> = Vec::new();
        let mut level: usize = 0;
        while level < self.levels.len()
            invariant
                level <= self.levels@.len(),
                passes@.len() == level,
                forall|k: int| 0 <= k < level ==> passes@[k] == self.levels@[k].1,
            decreases self.levels@.len() - level,
        {
            passes.push(self.levels[level].1);
            level += 1;
        }
        assert(passes@ =~= passes_of(self.levels@));
        passes
    }
}

/// What the planning of one level is asked: the parameters of the plan, the
/// level and its width, and the variance of the blur that the level above
/// has, if there is a level above.
pub struct LevelQuery<W> {
    pub kernel_resolution: W,
    pub kernel_width: W,
    pub log2_min_sigma: W,
    pub level: usize,
    pub size: usize,
    pub last_variance: Option<W>,
}

/// What the planning of one level answers: the variance of the blur that the
/// level has, and the number of passes that bring the level from the blur of
/// the level above to its own.
pub struct LevelAnswer<W> {
    pub variance: W,
    pub num_passes: usize,
}

/// A width halved a number of times.
pub open spec fn halved(size: nat, times: nat) -> nat
    decreases times,
{
    if times == 0 {
        size
    } else {
        halved(size, (times - 1) as nat) / 2
    }
}

/// Once a width has come down to nothing it stays there.
pub proof fn lemma_halved_zero(size: nat, at: nat, times: nat)
    requires
        at <= times,
        halved(size, at) == 0,
    ensures
        halved(size, times) == 0,
    decreases times,
{
    if at < times {
        lemma_halved_zero(size, at, (times - 1) as nat);
    }
}

/// The width of a level: the width of the finest level, halved once for each
/// level above.
pub fn level_size(size: usize, level: usize) -> (width: usize)
    ensures
        width == halved(size as nat, level as nat),
{
    let mut width = size;
    let mut done: usize = 0;
    while done < level && width > 0
        invariant
            done <= level,
            width == halved(size as nat, done as nat),
        decreases level - done,
    {
        width = width / 2;
        done += 1;
    }
    proof {
        if done < level {
            lemma_halved_zero(size as nat, done as nat, level as nat);
        }
    }
    width
}

/// The number of passes that a level gets: where quality goes first, a level
/// that asks for one pass gets two.
pub fn adjust_passes(high_quality: bool, num_passes: usize) -> (passes: usize)
    ensures
        passes == forced_passes(high_quality, num_passes),
{
    if high_quality && num_passes == 1 {
        2
    } else {
        num_passes
    }
}

impl<W> MipPyramidGenParams<W> {
    /// What the planning of a level is asked.
    pub open spec fn query(self, level: nat, last_variance: Option<W>) -> LevelQuery<W> {
        LevelQuery {
            kernel_resolution: self.kernel_resolution,
            kernel_width: self.kernel_width,
            log2_min_sigma: self.log2_min_sigma,
            level: level as usize,
            size: halved(self.size as nat, level) as usize,
            last_variance,
        }
    }
}

/// The number of passes that a level gets, from the number that it asks for.
pub open spec fn forced_passes(high_quality: bool, num_passes: usize) -> usize {
    if high_quality && num_passes == 1 {
        2
    } else {
        num_passes
    }
}

/// Whether `levels` can be the plan of the first levels of a pyramid, with
/// `last_variance` the variance of the blur of the last of them. Each level
/// is planned from the variance of the level above it; the scale of its
/// kernel is the scale for the number of passes that it gets, which is the
/// number that it asks for or, where quality goes first and it asks for one,
/// two.
pub open spec fn levels_planned<W, L: Fn(LevelQuery<W>) -> LevelAnswer<W>, K: Fn(
    LevelQuery<W>,
    usize,
) -> W>(
    plan_level: L,
    scale_level: K,
    params: MipPyramidGenParams<W>,
    levels: Seq<(W, usize)>,
    last_variance: Option<W>,
) -> bool
    decreases levels.len(),
{
    if levels.len() == 0 {
        last_variance.is_none()
    } else {
        exists|before: Option<W>, answer: LevelAnswer<W>|
            levels_planned(plan_level, scale_level, params, levels.drop_last(), before)
                && #[trigger] call_ensures(
                plan_level,
                (params.query((levels.len() - 1) as nat, before),),
                answer,
            ) && last_variance == Some(answer.variance) && levels.last().1 == forced_passes(
                params.high_quality,
                answer.num_passes,
            ) && call_ensures(
                scale_level,
                (
                    params.query((levels.len() - 1) as nat, before),
                    forced_passes(params.high_quality, answer.num_passes),
                ),
                levels.last().0,
            )
    }
}

/// Whether `radius` is a radius that `radius_of` may give for the kernel of
/// the plan.
pub open spec fn is_radius<W, R: Fn(W, W) -> usize>(
    radius_of: R,
    params: MipPyramidGenParams<W>,
    radius: usize,
) -> bool {
    call_ensures(radius_of, (params.kernel_resolution, params.kernel_width), radius)
}

impl<W: Copy> MipPyramidGenParams<W> {
    /// Plans a pyramid, if its kernel can be held.
    ///
    /// The kernel is the kernel of `gaussian_kernel` with the radius that
    /// `radius_of` gives for the resolution and the width of the kernel, and
    /// with the resolution as its sigma; there is no plan if a kernel of that
    /// radius has more weights than can be counted. `plan_level` is asked
    /// once for each level, finest first, and is told the variance that it
    /// has answered for the level above; `scale_level` is then asked for the
    /// scale of the kernel, and is told the number of passes that the level
    /// gets.
    pub fn setup<R: Fn(W, W) -> usize, G: Fn(usize, W) -> W, S: Fn(W, W) -> W, N: Fn(
        W,
        W,
    ) -> W, L: Fn(LevelQuery<W>) -> LevelAnswer<W>, K: Fn(LevelQuery<W>, usize) -> W>(
        &self,
        radius_of: &R,
        weight: &G,
        zero: W,
        adder: &S,
        normalize: &N,
        plan_level: &L,
        scale_level: &K,
    ) -> (setup: Option<MipPyramidGenSetup<W>>)
        requires
            forall|resolution: W, width: W| call_requires(*radius_of, (resolution, width)),
            forall|distance: usize, sigma: W| call_requires(*weight, (distance, sigma)),
            forall|a: W, b: W| call_requires(*adder, (a, b)),
            forall|w: W, sum: W| call_requires(*normalize, (w, sum)),
            forall|query: LevelQuery<W>| call_requires(*plan_level, (query,)),
            forall|query: LevelQuery<W>, passes: usize|
                call_requires(*scale_level, (query, passes)),
        ensures
            setup.is_none() ==> exists|radius: usize| #[trigger]
                is_radius(*radius_of, *self, radius) && 2 * radius + 1 > usize::MAX,
            setup.is_some() ==> exists|radius: usize| #[trigger]
                is_radius(*radius_of, *self, radius) && 2 * radius + 1 <= usize::MAX && is_kernel(
                    *weight,
                    *adder,
                    *normalize,
                    zero,
                    radius,
                    self.kernel_resolution,
                    setup.unwrap().kernel@,
                ),
            setup.is_some() ==> setup.unwrap().kernel@.len() % 2 == 1,
            setup.is_some() ==> setup.unwrap().levels@.len() == self.num_levels,
            setup.is_some() ==> exists|last_variance: Option<W>| #[trigger]
                levels_planned(
                    *plan_level,
                    *scale_level,
                    *self,
                    setup.unwrap().levels@,
                    last_variance,
                ),
    {
        let radius = radius_of(self.kernel_resolution, self.kernel_width);
        assert(is_radius(*radius_of, *self, radius));
        if radius > (usize::MAX - 1) / 2 {
            return None;
        }
        let sigma = self.kernel_resolution;
        let kernel = gaussian_kernel(radius, sigma, weight, zero, adder, normalize);
        let mut levels: Vec<(W, usize)> = Vec::new();
        let mut last_variance: Option<W> = None;
        let mut level: usize = 0;
        while level < self.num_levels
            invariant
                forall|query: LevelQuery<W>| call_requires(*plan_level, (query,)),
                forall|query: LevelQuery<W>, passes: usize|
                    call_requires(*scale_level, (query, passes)),
                level <= self.num_levels,
                levels@.len() == level,
                levels_planned(*plan_level, *scale_level, *self, levels@, last_variance),
            decreases self.num_levels - level,
        {
            let ghost before = last_variance;
            let ghost planned = levels@;
            let size = level_size(self.size, level);
            let answer = plan_level(
                LevelQuery {
                    kernel_resolution: self.kernel_resolution,
                    kernel_width: self.kernel_width,
                    log2_min_sigma: self.log2_min_sigma,
                    level,
                    size,
                    last_variance,
                },
            );
            let passes = adjust_passes(self.high_quality, answer.num_passes);
            let kernel_scale = scale_level(
                LevelQuery {
                    kernel_resolution: self.kernel_resolution,
                    kernel_width: self.kernel_width,
                    log2_min_sigma: self.log2_min_sigma,
                    level,
                    size,
                    last_variance,
                },
                passes,
            );
            last_variance = Some(answer.variance);
            levels.push((kernel_scale, passes));
            proof {
                assert(levels@.drop_last() =~= planned);
                assert(levels_planned(
                    *plan_level,
                    *scale_level,
                    *self,
                    levels@.drop_last(),
                    before,
                ) && call_ensures(
                    *plan_level,
                    (self.query((levels@.len() - 1) as nat, before),),
                    answer,
                ));
            }
            level += 1;
        }
        let setup = Some(MipPyramidGenSetup { kernel, levels });
        assert(levels_planned(
            *plan_level,
            *scale_level,
            *self,
            setup.unwrap().levels@,
            last_variance,
        ));
        assert(exists|radius: usize| #[trigger]
            is_radius(*radius_of, *self, radius) && 2 * radius + 1 <= usize::MAX && is_kernel(
                *weight,
                *adder,
                *normalize,
                zero,
                radius,
                self.kernel_resolution,
                setup.unwrap().kernel@,
            ));
        setup
    }
}

} // verus!
