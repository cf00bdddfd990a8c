//! The pyramid of a cube map that is given whole: every level is halved from
//! the level above it, blurred and written out. No holes are filled, for
//! there are none.

use crate::blur::{cube_blurred, footprint_fails, pass_of, Site};
use crate::context::{is_cube, level_views, ProcessError};
use crate::cubeimage::CubeImage;
use crate::cubemaputils::{downsampled, halved, level_size, MipPyramidGenSetup};
use crate::tap::Tap;
use vstd::prelude::*;

verus! {

/// The arithmetic that the prefiltering of a cube map leaves to its caller.
pub struct Prefilter<T, L, F, A, V, C> {
    /// The sum of no samples.
    pub zero: T,
    /// A texel of the cube map as given, made ready to be averaged.
    pub linearize: L,
    /// Where the taps of the kernel lie for a texel.
    pub footprint: F,
    /// A sum with one more sample added in under its weight.
    pub accumulate: A,
    /// The average of a block of two by two texels, handed over row by row.
    pub average: V,
    /// A texel made ready to be written out.
    pub convert: C,
}

/// What a pyramid is prefiltered by: the arithmetic, the width of the cube
/// map, and the plan.
pub struct Prefiltering<T, W, L, F, A, V, C> {
    pub arithmetic: Prefilter<T, L, F, A, V, C>,
    pub size: usize,
    pub kernel: Seq<W>,
    pub levels: Seq<(W, usize)>,
}

/// Whether every function of the arithmetic can be called on every argument.
pub open spec fn callable<T, U, W, L: Fn(U) -> T, F: Fn(Site<W>) -> Vec<Tap>, A: Fn(
    T,
    T,
    W,
) -> T, V: Fn(T, T, T, T) -> T, C: Fn(T) -> U>(arithmetic: Prefilter<T, L, F, A, V, C>) -> bool {
    &&& forall|texel: U| call_requires(arithmetic.linearize, (texel,))
    &&& forall|site: Site<W>| call_requires(arithmetic.footprint, (site,))
    &&& forall|s: T, v: T, w: W| call_requires(arithmetic.accumulate, (s, v, w))
    &&& forall|a: T, b: T, c: T, d: T| call_requires(arithmetic.average, (a, b, c, d))
    &&& forall|texel: T| call_requires(arithmetic.convert, (texel,))
}

/// Whether `to` holds the cube `from` with every texel changed by `change`.
pub open spec fn changed<T, U, C: Fn(T) -> U>(
    change: C,
    from: Seq<Seq<T>>,
    width: nat,
    to: Seq<Seq<U>>,
) -> bool {
    &&& is_cube(to, width)
    &&& forall|f: int, i: int|
        0 <= f < 6 && 0 <= i < width * width ==> call_ensures(
            change,
            (from[f][i],),
            #[trigger] to[f][i],
        )
}

/// Whether `below` holds the cube `above` at half its width.
pub open spec fn halved_cube<T, V: Fn(T, T, T, T) -> T>(
    average: V,
    above: Seq<Seq<T>>,
    width: nat,
    below: Seq<Seq<T>>,
) -> bool {
    &&& is_cube(below, width)
    &&& forall|f: int|
        0 <= f < 6 ==> downsampled(average, above[f], width as int, #[trigger] below[f])
}

impl<T, W, L, F: Fn(Site<W>) -> Vec<Tap>, A: Fn(T, T, W) -> T, V, C> Prefiltering<
    T,
    W,
    L,
    F,
    A,
    V,
    C,
> {
    /// The width of a level.
    pub open spec fn width(self, level: int) -> nat {
        halved(self.size as nat, level as nat)
    }

    /// Whether `to` is what one phase of a blur pass over a level may leave
    /// of `from`.
    pub open spec fn phase_blurred(
        self,
        level: int,
        phase: usize,
        from: Seq<Seq<T>>,
        to: Seq<Seq<T>>,
    ) -> bool {
        &&& is_cube(to, self.width(level))
        &&& cube_blurred(
            self.arithmetic.footprint,
            self.arithmetic.accumulate,
            self.arithmetic.zero,
            from,
            self.kernel,
            pass_of(
                self.width(level) as usize,
                self.kernel.len(),
                self.levels[level].0,
                phase,
                false,
            ),
            to,
        )
    }

    /// Whether `to` is what one blur pass over a level may leave of `from`,
    /// by way of `first` and `second`.
    pub open spec fn pass_blurred(
        self,
        level: int,
        from: Seq<Seq<T>>,
        first: Seq<Seq<T>>,
        second: Seq<Seq<T>>,
        to: Seq<Seq<T>>,
    ) -> bool {
        &&& self.phase_blurred(level, 0, from, first)
        &&& self.phase_blurred(level, 1, first, second)
        &&& self.phase_blurred(level, 2, second, to)
    }

    /// Whether `to` is what `count` blur passes over a level may leave of
    /// `from`.
    pub open spec fn passes_blurred(
        self,
        level: int,
        count: nat,
        from: Seq<Seq<T>>,
        to: Seq<Seq<T>>,
    ) -> bool
        decreases count,
    {
        if count == 0 {
            to == from
        } else {
            exists|before: Seq<Seq<T>>, first: Seq<Seq<T>>, second: Seq<Seq<T>>|
                self.passes_blurred(level, (count - 1) as nat, from, before)
                    && #[trigger] self.pass_blurred(level, before, first, second, to)
        }
    }

    /// One more pass.
    pub proof fn lemma_pass(
        self,
        level: int,
        count: nat,
        from: Seq<Seq<T>>,
        before: Seq<Seq<T>>,
        first: Seq<Seq<T>>,
        second: Seq<Seq<T>>,
        to: Seq<Seq<T>>,
    )
        requires
            self.passes_blurred(level, count, from, before),
            self.pass_blurred(level, before, first, second, to),
        ensures
            self.passes_blurred(level, count + 1, from, to),
    {
        let next = count + 1;
        assert(self.passes_blurred(level, (next - 1) as nat, from, before) && self.pass_blurred(
            level,
            before,
            first,
            second,
            to,
        ));
    }
}

impl<T, W, L, F: Fn(Site<W>) -> Vec<Tap>, A: Fn(T, T, W) -> T, V: Fn(
    T,
    T,
    T,
    T,
) -> T, C> Prefiltering<T, W, L, F, A, V, C> {
    /// Whether `cube` is what a level may hold after its blur: the level as
    /// it starts, blurred as often as the plan says. The finest level starts
    /// as `seed`; every other level starts as the half of `above`, the level
    /// above it.
    pub open spec fn level_made(
        self,
        level: int,
        seed: Seq<Seq<T>>,
        above: Seq<Seq<T>>,
        cube: Seq<Seq<T>>,
    ) -> bool {
        if level == 0 {
            self.passes_blurred(level, self.levels[level].1 as nat, seed, cube)
        } else {
            exists|start: Seq<Seq<T>>| #[trigger]
                halved_cube(self.arithmetic.average, above, self.width(level), start)
                    && self.passes_blurred(level, self.levels[level].1 as nat, start, cube)
        }
    }

    /// Whether `cubes` are what the first levels of the pyramid may hold
    /// after their blur, each made from the one above it and the finest from
    /// `seed`.
    pub open spec fn levels_made(self, seed: Seq<Seq<T>>, cubes: Seq<Seq<Seq<T>>>) -> bool {
        forall|level: int|
            0 <= level < cubes.len() ==> self.level_made(
                level,
                seed,
                cubes[level - 1],
                #[trigger] cubes[level],
            )
    }
}

/// Whether `after` holds the levels of the pyramid of the cube map that
/// `before` holds as its finest level: the cube map is made ready, every
/// level is made from the one above it, and each is written out over the
/// level that `before` holds. Levels past the plan are as they were.
pub open spec fn prefiltered<T, U, W, L: Fn(U) -> T, F: Fn(Site<W>) -> Vec<Tap>, A: Fn(
    T,
    T,
    W,
) -> T, V: Fn(T, T, T, T) -> T, C: Fn(T) -> U>(
    by: Prefiltering<T, W, L, F, A, V, C>,
    count: nat,
    before: Seq<Seq<Seq<U>>>,
    after: Seq<Seq<Seq<U>>>,
) -> bool {
    exists|seed: Seq<Seq<T>>, cubes: Seq<Seq<Seq<T>>>|
        {
            &&& changed(by.arithmetic.linearize, before[0], by.size as nat, seed)
            &&& cubes.len() == count
            &&& #[trigger] by.levels_made(seed, cubes)
            &&& after.len() == before.len()
            &&& forall|level: int|
                0 <= level < count ==> changed(
                    by.arithmetic.convert,
                    cubes[level],
                    by.width(level),
                    #[trigger] after[level],
                )
            &&& forall|level: int| count <= level < after.len() ==> after[level] == before[level]
        }
}

/// The number of levels that are built: as many as the plan has levels and
/// there are cubes to take them.
pub open spec fn level_count(planned: nat, given: nat) -> nat {
    if planned < given {
        planned
    } else {
        given
    }
}

/// Builds the pyramid of a cube map that is given whole. `images` holds the
/// cube map as its first cube and takes the levels of the pyramid, as many
/// as the plan has levels and `images` has cubes; `size` is the width of the
/// cube map. The building stops at the first blur pass that cannot be
/// carried out and names it; the levels before the level of that pass are
/// then built, and the others are as they were.
pub fn apply_spherical_blur<T: Copy, U: Copy, W: Copy, L: Fn(U) -> T, F: Fn(Site<W>) -> Vec<
    Tap,
>, A: Fn(T, T, W) -> T, V: Fn(T, T, T, T) -> T, C: Fn(T) -> U>(
    size: usize,
    images: &mut Vec<CubeImage<U>>,
    setup: &MipPyramidGenSetup<W>,
    arithmetic: &Prefilter<T, L, F, A, V, C>,
) -> (r: Result<(), ProcessError>)
    requires
        size * size <= isize::MAX,
        old(images)@.len() >= 1,
        setup.kernel@.len() % 2 == 1,
        forall|level: int|
            0 <= level < old(images)@.len() ==> (#[trigger] old(images)@[level]).wf() && old(
                images,
            )@[level].size == halved(size as nat, level as nat),
        level_count(setup.levels@.len(), old(images)@.len()) >= 1 ==> halved(
            size as nat,
            (level_count(setup.levels@.len(), old(images)@.len()) - 1) as nat,
        ) >= 1,
        callable(*arithmetic),
    ensures
        final(images)@.len() == old(images)@.len(),
        forall|level: int|
            0 <= level < final(images)@.len() ==> (#[trigger] final(images)@[level]).wf()
                && final(images)@[level].size == halved(size as nat, level as nat),
        r.is_ok() ==> prefiltered(
            Prefiltering {
                arithmetic: *arithmetic,
                size,
                kernel: setup.kernel@,
                levels: setup.levels@,
            },
            level_count(setup.levels@.len(), old(images)@.len()),
            level_views(old(images)@),
            level_views(final(images)@),
        ),
        r.is_err() ==> r.unwrap_err().level < level_count(
            setup.levels@.len(),
            old(images)@.len(),
        ) && r.unwrap_err().pass < setup.levels@[r.unwrap_err().level as int].1
            && r.unwrap_err().phase < 3 && prefiltered(
            Prefiltering {
                arithmetic: *arithmetic,
                size,
                kernel: setup.kernel@,
                levels: setup.levels@,
            },
            r.unwrap_err().level as nat,
            level_views(old(images)@),
            level_views(final(images)@),
        ),
        r.is_err() ==> footprint_fails(
            arithmetic.footprint,
            pass_of(
                halved(size as nat, r.unwrap_err().level as nat) as usize,
                setup.kernel@.len(),
                setup.levels@[r.unwrap_err().level as int].0,
                r.unwrap_err().phase,
                false,
            ),
            setup.kernel@.len(),
            r.unwrap_err().texel.face,
            r.unwrap_err().texel.x,
            r.unwrap_err().texel.y,
        ),
{
    let ghost by = Prefiltering {
        arithmetic: *arithmetic,
        size,
        kernel: setup.kernel@,
        levels: setup.levels@,
    };
    let count = if setup.levels.len() < images.len() {
        setup.levels.len()
    } else {
        images.len()
    };
    // Make the cube map ready.
    let mut work = CubeImage::new(size, arithmetic.zero);
    images[0].convert_into(&mut work, &arithmetic.linearize);
    let ghost seed = work@;
    let ghost mut cubes: Seq<Seq<Seq<T>>> = Seq::empty();
    let mut level: usize = 0;
    while level < count
        invariant
            size * size <= isize::MAX,
            setup.kernel@.len() % 2 == 1,
            callable(*arithmetic),
            by == (Prefiltering {
                arithmetic: *arithmetic,
                size,
                kernel: setup.kernel@,
                levels: setup.levels@,
            }),
            count == level_count(setup.levels@.len(), old(images)@.len()),
            count <= setup.levels@.len(),
            count <= images@.len(),
            level <= count,
            images@.len() == old(images)@.len(),
            forall|k: int|
                0 <= k < images@.len() ==> (#[trigger] images@[k]).wf() && images@[k].size
                    == halved(size as nat, k as nat),
            count >= 1 ==> halved(size as nat, (count - 1) as nat) >= 1,
            forall|k: int| level <= k < images@.len() && 1 <= k ==> images@[k] == old(images)@[k],
            level == 0 ==> images@[0] == old(images)@[0],
            changed(arithmetic.linearize, level_views(old(images)@)[0], size as nat, seed),
            work.wf(),
            work.size == (if level == 0 {
                size as nat
            } else {
                halved(size as nat, (level - 1) as nat)
            }),
            level == 0 ==> work@ == seed,
            level > 0 ==> work@ == cubes[level - 1],
            cubes.len() == level,
            by.levels_made(seed, cubes),
            forall|k: int|
                0 <= k < level ==> changed(
                    arithmetic.convert,
                    cubes[k],
                    by.width(k),
                    #[trigger] level_views(images@)[k],
                ),
        decreases count - level,
    {
        let width = level_size(size, level);
        let kernel_scale = setup.levels[level].0;
        let passes = setup.levels[level].1;
        let ghost above = work@;
        proof {
            lemma_widths(size as nat, level as nat);
            lemma_narrowing(size as nat, level as nat, (count - 1) as nat);
            assert(width * width <= size * size) by (nonlinear_arith)
                requires
                    width <= size,
            ;
        }
        if level > 0 {
            let mut below = CubeImage::new(width, arithmetic.zero);
            below.downsample_from(&work, &arithmetic.average);
            work = below;
        }
        let ghost start = work@;
        proof {
            assert(level_views(images@).len() == level_views(old(images)@).len());
            assert forall|k: int| level <= k < level_views(images@).len() implies level_views(
                images@,
            )[k] == level_views(old(images)@)[k] by {
                if k == 0 {
                    assert(images@[0] == old(images)@[0]);
                } else {
                    assert(images@[k] == old(images)@[k]);
                }
            }
            assert(by.levels_made(seed, cubes));
            assert(prefiltered(by, level as nat, level_views(old(images)@), level_views(images@)));
        }
        let mut spare = CubeImage::new(width, arithmetic.zero);
        let mut pass: usize = 0;
        while pass < passes
            invariant
                size * size <= isize::MAX,
                setup.kernel@.len() % 2 == 1,
                callable(*arithmetic),
                by == (Prefiltering {
                    arithmetic: *arithmetic,
                    size,
                    kernel: setup.kernel@,
                    levels: setup.levels@,
                }),
                images@.len() == old(images)@.len(),
                forall|k: int|
                    0 <= k < images@.len() ==> (#[trigger] images@[k]).wf() && images@[k].size
                        == halved(size as nat, k as nat),
                level < count,
                count == level_count(setup.levels@.len(), old(images)@.len()),
                prefiltered(by, level as nat, level_views(old(images)@), level_views(images@)),
                level < setup.levels@.len(),
                kernel_scale == setup.levels@[level as int].0,
                passes == setup.levels@[level as int].1,
                width == halved(size as nat, level as nat),
                1 <= width <= size,
                pass <= passes,
                work.wf(),
                work.size == width,
                spare.wf(),
                spare.size == width,
                by.passes_blurred(level as int, pass as nat, start, work@),
            decreases passes - pass,
        {
            proof {
                assert(width * width <= size * size) by (nonlinear_arith)
                    requires
                        width <= size,
                ;
            }
            let ghost before = work@;
            match spare.blur_from(
                &work,
                width,
                setup.kernel.as_slice(),
                kernel_scale,
                0,
                &arithmetic.footprint,
                arithmetic.zero,
                &arithmetic.accumulate,
            ) {
                Ok(()) => {},
                Err(texel) => {
                    return Err(ProcessError { level, pass, phase: 0, texel });
                },
            }
            let ghost first = spare@;
            match work.blur_from(
                &spare,
                width,
                setup.kernel.as_slice(),
                kernel_scale,
                1,
                &arithmetic.footprint,
                arithmetic.zero,
                &arithmetic.accumulate,
            ) {
                Ok(()) => {},
                Err(texel) => {
                    return Err(ProcessError { level, pass, phase: 1, texel });
                },
            }
            let ghost second = work@;
            match spare.blur_from(
                &work,
                width,
                setup.kernel.as_slice(),
                kernel_scale,
                2,
                &arithmetic.footprint,
                arithmetic.zero,
                &arithmetic.accumulate,
            ) {
                Ok(()) => {},
                Err(texel) => {
                    return Err(ProcessError { level, pass, phase: 2, texel });
                },
            }
            let done = spare;
            spare = work;
            work = done;
            proof {
                assert(is_cube(first, width as nat) && is_cube(second, width as nat) && is_cube(
                    work@,
                    width as nat,
                ));
                by.lemma_pass(level as int, pass as nat, start, before, first, second, work@);
            }
            pass += 1;
        }
        let ghost shown = level_views(images@);
        work.convert_into(&mut images[level], &arithmetic.convert);
        proof {
            let made = cubes.push(work@);
            assert(by.level_made(level as int, seed, made[level - 1], made[level as int])) by {
                if level > 0 {
                    assert(made[level - 1] == above);
                    assert(halved_cube(arithmetic.average, above, by.width(level as int), start)
                        && by.passes_blurred(
                        level as int,
                        setup.levels@[level as int].1 as nat,
                        start,
                        work@,
                    ));
                }
            }
            assert forall|k: int| 0 <= k < made.len() implies by.level_made(
                k,
                seed,
                made[k - 1],
                #[trigger] made[k],
            ) by {
                if k < level {
                    assert(made[k] == cubes[k]);
                    if k > 0 {
                        assert(made[k - 1] == cubes[k - 1]);
                    }
                    assert(by.level_made(k, seed, cubes[k - 1], cubes[k]));
                    lemma_level_made_seed(by, k, seed, cubes[k - 1], made[k - 1], cubes[k]);
                }
            }
            assert forall|k: int| 0 <= k < level + 1 implies changed(
                arithmetic.convert,
                made[k],
                by.width(k),
                #[trigger] level_views(images@)[k],
            ) by {
                if k == level {
                    assert(level_views(images@)[k] == images@[k]@);
                    assert(images@[k].wf());
                    assert(is_cube(images@[k]@, by.width(k)));
                } else {
                    assert(level_views(images@)[k] == shown[k]);
                    assert(made[k] == cubes[k]);
                }
            }
            cubes = made;
        }
        level += 1;
    }
    proof {
        assert(level_views(images@).len() == level_views(old(images)@).len());
        assert forall|k: int| count <= k < level_views(images@).len() implies level_views(
            images@,
        )[k] == level_views(old(images)@)[k] by {
            if count == 0 {
                assert(images@[0] == old(images)@[0]);
            }
        }
        assert(by.levels_made(seed, cubes));
    }
    Ok(())
}

/// The level that stands above the finest plays no part in how it is made.
proof fn lemma_level_made_seed<T, W, L, F: Fn(Site<W>) -> Vec<Tap>, A: Fn(T, T, W) -> T, V: Fn(
    T,
    T,
    T,
    T,
) -> T, C>(
    by: Prefiltering<T, W, L, F, A, V, C>,
    level: int,
    seed: Seq<Seq<T>>,
    above: Seq<Seq<T>>,
    other: Seq<Seq<T>>,
    cube: Seq<Seq<T>>,
)
    requires
        0 <= level,
        by.level_made(level, seed, above, cube),
        level > 0 ==> other == above,
    ensures
        by.level_made(level, seed, other, cube),
{
}

/// No level is wider than a level above it.
pub proof fn lemma_narrowing(size: nat, above: nat, below: nat)
    requires
        above <= below,
    ensures
        halved(size, below) <= halved(size, above),
    decreases below,
{
    if above < below {
        lemma_narrowing(size, above, (below - 1) as nat);
    }
}

/// Every level is at most as wide as the one above it, and at most half as
/// wide.
pub proof fn lemma_widths(size: nat, level: nat)
    ensures
        halved(size, level) <= size,
        level > 0 ==> 2 * halved(size, level) <= halved(size, (level - 1) as nat),
    decreases level,
{
    if level > 0 {
        lemma_widths(size, (level - 1) as nat);
    }
}

} // verus!
