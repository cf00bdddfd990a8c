//! Building again: where the arithmetic gives one answer for each argument,
//! what a build leaves in the levels of the pyramid depends on the captured
//! cube alone.

use crate::blur::{
    cube_blurred, face_blurred, folds_to, footprint_fits, sample_at, samples_at, texel_blurred,
    Pass, Site,
};
use crate::context::{
    applies, is_cube, lemma_level_widths, lemma_runs_step, level_width, pass_at, runs, Numerics,
    PyramidView, LOG_SIZE,
};
use crate::cubeimage::blurred_into;
use crate::cubemap::{face_at, lemma_face_identity, CubeFace};
use crate::cubemaputils::{averages_block, downsampled, holes_filled, passes_of};
use crate::pyramid::{
    blur_steps, build_steps, convert_steps, fill_steps, level_steps, schedule, Step,
};
use crate::raster::texel_index;
use crate::tap::{lemma_tap_folds, Tap};
use vstd::prelude::*;

verus! {

/// Whether `footprint` gives one footprint for each texel.
pub open spec fn one_footprint<W, F: Fn(Site<W>) -> Vec<Tap>>(footprint: F) -> bool {
    forall|site: Site<W>, a: Vec<Tap>, b: Vec<Tap>|
        #![trigger call_ensures(footprint, (site,), a), call_ensures(footprint, (site,), b)]
        call_ensures(footprint, (site,), a) && call_ensures(footprint, (site,), b) ==> a@ == b@
}

/// Whether `accumulate` gives one sum for each sum, sample and weight.
pub open spec fn one_sum<T, W, A: Fn(T, T, W) -> T>(accumulate: A) -> bool {
    forall|s: T, v: T, w: W, a: T, b: T|
        #![trigger call_ensures(accumulate, (s, v, w), a), call_ensures(accumulate, (s, v, w), b)]
        call_ensures(accumulate, (s, v, w), a) && call_ensures(accumulate, (s, v, w), b) ==> a
            == b
}

/// Whether `average` gives one average for each block.
pub open spec fn one_average<T, V: Fn(T, T, T, T) -> T>(average: V) -> bool {
    forall|a: T, b: T, c: T, d: T, x: T, y: T|
        #![trigger call_ensures(average, (a, b, c, d), x), call_ensures(average, (a, b, c, d), y)]
        call_ensures(average, (a, b, c, d), x) && call_ensures(average, (a, b, c, d), y) ==> x
            == y
}

/// Whether `blend` gives one texel for each texel and the texel over it.
pub open spec fn one_blend<T, B: Fn(T, T) -> T>(blend: B) -> bool {
    forall|d: T, s: T, one: T, other: T|
        #![trigger call_ensures(blend, (d, s), one), call_ensures(blend, (d, s), other)]
        call_ensures(blend, (d, s), one) && call_ensures(blend, (d, s), other) ==> one == other
}

/// Whether `convert` gives one converted texel for each texel.
pub open spec fn one_converted<T, U, C: Fn(T) -> U>(convert: C) -> bool {
    forall|texel: T, one: U, other: U|
        #![trigger call_ensures(convert, (texel,), one), call_ensures(convert, (texel,), other)]
        call_ensures(convert, (texel,), one) && call_ensures(convert, (texel,), other) ==> one
            == other
}

/// Whether two cubes hold the same texels in the faces of a cube `size`
/// texels wide.
pub open spec fn same_texels<T>(one: Seq<Seq<T>>, other: Seq<Seq<T>>, size: int) -> bool {
    forall|f: int, i: int|
        0 <= f < 6 && 0 <= i < size * size ==> (#[trigger] one[f][i]) == other[f][i]
}

/// Samples are added up to one sum.
pub proof fn lemma_one_fold<T, W, A: Fn(T, T, W) -> T>(
    accumulate: A,
    zero: T,
    samples: Seq<T>,
    kernel: Seq<W>,
    n: nat,
    one: T,
    other: T,
)
    requires
        one_sum(accumulate),
        folds_to(accumulate, zero, samples, kernel, n, one),
        folds_to(accumulate, zero, samples, kernel, n, other),
    ensures
        one == other,
    decreases n,
{
    if n > 0 {
        let a = choose|before: T|
            folds_to(accumulate, zero, samples, kernel, (n - 1) as nat, before)
                && #[trigger] call_ensures(
                accumulate,
                (before, samples[n - 1], kernel[n - 1]),
                one,
            );
        let b = choose|before: T|
            folds_to(accumulate, zero, samples, kernel, (n - 1) as nat, before)
                && #[trigger] call_ensures(
                accumulate,
                (before, samples[n - 1], kernel[n - 1]),
                other,
            );
        lemma_one_fold(accumulate, zero, samples, kernel, (n - 1) as nat, a, b);
    }
}

/// A texel is blurred to one value, and to the same from two cubes that hold
/// the same texels.
pub proof fn lemma_one_texel<T, W, F: Fn(Site<W>) -> Vec<Tap>, A: Fn(T, T, W) -> T>(
    footprint: F,
    accumulate: A,
    zero: T,
    kernel: Seq<W>,
    pass: Pass<W>,
    face: CubeFace,
    x: usize,
    y: usize,
    faces: (Seq<Seq<T>>, Seq<Seq<T>>),
    values: (T, T),
)
    requires
        one_footprint(footprint),
        one_sum(accumulate),
        same_texels(faces.0, faces.1, pass.size as int),
        texel_blurred(footprint, accumulate, zero, faces.0, kernel, pass, face, x, y, values.0),
        texel_blurred(footprint, accumulate, zero, faces.1, kernel, pass, face, x, y, values.1),
    ensures
        values.0 == values.1,
{
    let size = pass.size as int;
    let a = choose|taps: Vec<Tap>| #[trigger]
        call_ensures(footprint, (pass.site(face, x, y),), taps) && footprint_fits(
            taps@,
            pass.size as int,
            kernel.len(),
        ) && folds_to(
            accumulate,
            zero,
            samples_at(faces.0, face, pass.size as int, taps@),
            kernel,
            kernel.len(),
            values.0,
        );
    let b = choose|taps: Vec<Tap>| #[trigger]
        call_ensures(footprint, (pass.site(face, x, y),), taps) && footprint_fits(
            taps@,
            pass.size as int,
            kernel.len(),
        ) && folds_to(
            accumulate,
            zero,
            samples_at(faces.1, face, pass.size as int, taps@),
            kernel,
            kernel.len(),
            values.1,
        );
    assert(a@ == b@);
    assert forall|k: int| 0 <= k < a@.len() implies sample_at(faces.0, face, size, a@[k])
        == sample_at(faces.1, face, size, a@[k]) by {
        lemma_tap_folds(a@[k], face, size);
        lemma_face_identity(a@[k].face_spec(face), face);
    }
    assert(samples_at(faces.0, face, size, a@) =~= samples_at(faces.1, face, size, b@));
    lemma_one_fold(
        accumulate,
        zero,
        samples_at(faces.0, face, size, a@),
        kernel,
        kernel.len(),
        values.0,
        values.1,
    );
}

/// A pass over two cubes that hold the same texels leaves the same texels.
pub proof fn lemma_one_pass<T, W, F: Fn(Site<W>) -> Vec<Tap>, A: Fn(T, T, W) -> T>(
    footprint: F,
    accumulate: A,
    zero: T,
    kernel: Seq<W>,
    pass: Pass<W>,
    faces: (Seq<Seq<T>>, Seq<Seq<T>>),
    out: (Seq<Seq<T>>, Seq<Seq<T>>),
)
    requires
        one_footprint(footprint),
        one_sum(accumulate),
        same_texels(faces.0, faces.1, pass.size as int),
        cube_blurred(footprint, accumulate, zero, faces.0, kernel, pass, out.0),
        cube_blurred(footprint, accumulate, zero, faces.1, kernel, pass, out.1),
    ensures
        same_texels(out.0, out.1, pass.size as int),
{
    let n = pass.size as int;
    assert forall|f: int, i: int| 0 <= f < 6 && 0 <= i < n * n implies (#[trigger] out.0[f][i])
        == out.1[f][i] by {
        let face = face_at(f);
        lemma_place(n, i);
        let x = (i % n) as usize;
        let y = (i / n) as usize;
        assert(texel_index(n, (x as int, y as int)) == i);
        assert(face_blurred(
            footprint,
            accumulate,
            zero,
            faces.0,
            kernel,
            pass,
            face,
            out.0[face.ordinal()],
        ));
        assert(face_blurred(
            footprint,
            accumulate,
            zero,
            faces.1,
            kernel,
            pass,
            face,
            out.1[face.ordinal()],
        ));
        assert(texel_blurred(
            footprint,
            accumulate,
            zero,
            faces.0,
            kernel,
            pass,
            face,
            x,
            y,
            out.0[f][texel_index(n, (x as int, y as int))],
        ));
        assert(texel_blurred(
            footprint,
            accumulate,
            zero,
            faces.1,
            kernel,
            pass,
            face,
            x,
            y,
            out.1[f][texel_index(n, (x as int, y as int))],
        ));
        lemma_one_texel(
            footprint,
            accumulate,
            zero,
            kernel,
            pass,
            face,
            x,
            y,
            faces,
            (out.0[f][i], out.1[f][i]),
        );
    }
}

/// Every index into a face is the place of a texel.
pub proof fn lemma_place(size: int, i: int)
    requires
        0 <= size,
        0 <= i < size * size,
    ensures
        0 < size,
        0 <= i % size < size,
        0 <= i / size < size,
        texel_index(size, (i % size, i / size)) == i,
{
    assert(0 < size) by (nonlinear_arith)
        requires
            0 <= size,
            0 <= i < size * size,
    ;
    vstd::arithmetic::div_mod::lemma_fundamental_div_mod(i, size);
    vstd::arithmetic::div_mod::lemma_div_pos_is_pos(i, size);
    assert(i / size < size) by (nonlinear_arith)
        requires
            0 <= i < size * size,
            0 < size,
            i == size * (i / size) + i % size,
            0 <= i % size,
    ;
}

/// What a pyramid is built by: the plan and the arithmetic.
pub struct Building<T, W, F, A, V, B, C> {
    pub kernel: Seq<W>,
    pub levels: Seq<(W, usize)>,
    pub numerics: Numerics<T, F, A, V, B, C>,
}

/// Whether two contexts hold the same captured cube and the same first
/// levels of the pyramid.
pub open spec fn alike<T, U>(
    one: PyramidView<T, U>,
    other: PyramidView<T, U>,
    levels: int,
) -> bool {
    &&& one.wf()
    &&& other.wf()
    &&& one.raw == other.raw
    &&& forall|level: int|
        0 <= level < levels ==> (#[trigger] one.levels[level]) == other.levels[level]
}

/// Whether two contexts hold the same first levels of the pyramid as
/// converted for display.
pub open spec fn shown_alike<T, U>(
    one: PyramidView<T, U>,
    other: PyramidView<T, U>,
    levels: int,
) -> bool {
    forall|level: int|
        0 <= level < levels ==> (#[trigger] one.converted[level]) == other.converted[level]
}

/// Two cubes of one width that hold the same texels are the same cube.
pub proof fn lemma_same_cube<T>(one: Seq<Seq<T>>, other: Seq<Seq<T>>, width: nat)
    requires
        is_cube(one, width),
        is_cube(other, width),
        same_texels(one, other, width as int),
    ensures
        one == other,
{
    assert forall|f: int| 0 <= f < 6 implies one[f] == other[f] by {
        assert(one[f].len() == other[f].len());
        assert forall|i: int| 0 <= i < one[f].len() implies one[f][i] == other[f][i] by {
            assert(one[f][i] == other[f][i]);
        }
        assert(one[f] =~= other[f]);
    }
    assert(one =~= other);
}

impl<T, U, W, F: Fn(Site<W>) -> Vec<Tap>, A: Fn(T, T, W) -> T, V: Fn(T, T, T, T) -> T, B: Fn(
    T,
    T,
) -> T, C: Fn(T) -> U> Building<T, W, F, A, V, B, C> {
    /// Whether `after` is what a step may leave of `before`.
    pub open spec fn takes(
        self,
        step: Step,
        before: PyramidView<T, U>,
        after: PyramidView<T, U>,
    ) -> bool {
        applies(step, self.kernel, self.levels, self.numerics, before, after)
    }

    /// Whether `after` is what the steps may leave of `before`.
    pub open spec fn leads(
        self,
        steps: Seq<Step>,
        before: PyramidView<T, U>,
        after: PyramidView<T, U>,
    ) -> bool {
        runs(steps, self.kernel, self.levels, self.numerics, before, after)
    }

    /// Whether every function of the arithmetic gives one answer for each
    /// argument.
    pub open spec fn one_answer(self) -> bool {
        &&& one_footprint(self.numerics.footprint)
        &&& one_sum(self.numerics.accumulate)
        &&& one_average(self.numerics.average)
        &&& one_blend(self.numerics.blend)
        &&& one_converted(self.numerics.convert)
    }

    /// Seeding two contexts that hold the same captured cube gives them the
    /// same finest level.
    pub proof fn lemma_seed(
        self,
        from: (PyramidView<T, U>, PyramidView<T, U>),
        to: (PyramidView<T, U>, PyramidView<T, U>),
    )
        requires
            alike(from.0, from.1, 0),
            self.takes(Step::Seed, from.0, to.0),
            self.takes(Step::Seed, from.1, to.1),
        ensures
            alike(to.0, to.1, 1),
    {
        lemma_level_widths();
        assert(to.0.levels[0] == from.0.raw);
        assert(to.1.levels[0] == from.1.raw);
        assert forall|level: int| 0 <= level <= LOG_SIZE implies is_cube(
            #[trigger] to.0.levels[level],
            level_width(level),
        ) by {
            if level > 0 {
                assert(to.0.levels[level] == from.0.levels[level]);
            }
        }
        assert forall|level: int| 0 <= level <= LOG_SIZE implies is_cube(
            #[trigger] to.1.levels[level],
            level_width(level),
        ) by {
            if level > 0 {
                assert(to.1.levels[level] == from.1.levels[level]);
            }
        }
    }

    /// Halving a level in two contexts that are alike down to the level
    /// above makes them alike down to the level.
    pub proof fn lemma_downsample(
        self,
        level: usize,
        from: (PyramidView<T, U>, PyramidView<T, U>),
        to: (PyramidView<T, U>, PyramidView<T, U>),
    )
        requires
            self.one_answer(),
            1 <= level <= LOG_SIZE,
            alike(from.0, from.1, level as int),
            self.takes(Step::Downsample { level }, from.0, to.0),
            self.takes(Step::Downsample { level }, from.1, to.1),
        ensures
            alike(to.0, to.1, level + 1),
    {
        let width = level_width(level as int);
        let above = from.0.levels[level - 1];
        assert(from.1.levels[level - 1] == above);
        assert forall|f: int, i: int| 0 <= f < 6 && 0 <= i < width * width implies (
        #[trigger] to.0.levels[level as int][f][i]) == to.1.levels[level as int][f][i] by {
            lemma_place(width as int, i);
            let x = i % (width as int);
            let y = i / (width as int);
            assert(downsampled(
                self.numerics.average,
                above[f],
                width as int,
                to.0.levels[level as int][f],
            ));
            assert(downsampled(
                self.numerics.average,
                above[f],
                width as int,
                to.1.levels[level as int][f],
            ));
            assert(averages_block(
                self.numerics.average,
                above[f],
                width as int,
                x,
                y,
                to.0.levels[level as int][f][texel_index(width as int, (x, y))],
            ));
            assert(averages_block(
                self.numerics.average,
                above[f],
                width as int,
                x,
                y,
                to.1.levels[level as int][f][texel_index(width as int, (x, y))],
            ));
        }
        lemma_same_cube(to.0.levels[level as int], to.1.levels[level as int], width);
        self.lemma_levels_kept(level as int, from.0, to.0);
        self.lemma_levels_kept(level as int, from.1, to.1);
        assert forall|l: int| 0 <= l < level + 1 implies (#[trigger] to.0.levels[l])
            == to.1.levels[l] by {
            if l < level {
                assert(to.0.levels[l] == from.0.levels[l]);
                assert(to.1.levels[l] == from.1.levels[l]);
            }
        }
    }

    /// A context whose levels have changed in one level only, which is a
    /// cube of its width as before, is well-formed as before.
    pub proof fn lemma_levels_kept(self, level: int, from: PyramidView<T, U>, to: PyramidView<T, U>)
        requires
            from.wf(),
            0 <= level <= LOG_SIZE,
            to == (PyramidView { levels: from.levels.update(level, to.levels[level]), ..from }),
            is_cube(to.levels[level], level_width(level)),
        ensures
            to.wf(),
            forall|l: int|
                0 <= l <= LOG_SIZE && l != level ==> (#[trigger] to.levels[l]) == from.levels[l],
    {
        assert forall|l: int| 0 <= l <= LOG_SIZE implies is_cube(
            #[trigger] to.levels[l],
            level_width(l),
        ) by {
            if l != level {
                assert(to.levels[l] == from.levels[l]);
            }
        }
    }
}

impl<T, U, W, F: Fn(Site<W>) -> Vec<Tap>, A: Fn(T, T, W) -> T, V: Fn(T, T, T, T) -> T, B: Fn(
    T,
    T,
) -> T, C: Fn(T) -> U> Building<T, W, F, A, V, B, C> {
    /// One phase of a blur pass, in two contexts: where the cubes that it
    /// reads hold the same texels, so do the cubes that it has written.
    pub proof fn lemma_phase(
        self,
        pass: Pass<W>,
        sources: (Seq<Seq<T>>, Seq<Seq<T>>),
        before: (Seq<Seq<T>>, Seq<Seq<T>>),
        after: (Seq<Seq<T>>, Seq<Seq<T>>),
    )
        requires
            self.one_answer(),
            same_texels(sources.0, sources.1, pass.size as int),
            blurred_into(
                self.numerics.footprint,
                self.numerics.accumulate,
                self.numerics.zero,
                self.kernel,
                pass,
                sources.0,
                before.0,
                after.0,
            ),
            blurred_into(
                self.numerics.footprint,
                self.numerics.accumulate,
                self.numerics.zero,
                self.kernel,
                pass,
                sources.1,
                before.1,
                after.1,
            ),
        ensures
            same_texels(after.0, after.1, pass.size as int),
            forall|width: nat| is_cube(before.0, width) ==> is_cube(after.0, width),
            forall|width: nat| is_cube(before.1, width) ==> is_cube(after.1, width),
    {
        lemma_one_pass(
            self.numerics.footprint,
            self.numerics.accumulate,
            self.numerics.zero,
            self.kernel,
            pass,
            sources,
            after,
        );
    }

    /// One blur pass over a level, in two contexts that are alike down to
    /// the level: they are alike down to it afterwards.
    pub proof fn lemma_pass(
        self,
        level: usize,
        pass: usize,
        levels: int,
        one: Seq<PyramidView<T, U>>,
        other: Seq<PyramidView<T, U>>,
    )
        requires
            self.one_answer(),
            level <= LOG_SIZE,
            level < levels <= LOG_SIZE + 1,
            one.len() == 4,
            other.len() == 4,
            alike(one[0], other[0], levels),
            self.takes(Step::Blur { level, pass, phase: 0 }, one[0], one[1]),
            self.takes(Step::Blur { level, pass, phase: 1 }, one[1], one[2]),
            self.takes(Step::Blur { level, pass, phase: 2 }, one[2], one[3]),
            self.takes(Step::Blur { level, pass, phase: 0 }, other[0], other[1]),
            self.takes(Step::Blur { level, pass, phase: 1 }, other[1], other[2]),
            self.takes(Step::Blur { level, pass, phase: 2 }, other[2], other[3]),
        ensures
            alike(one[3], other[3], levels),
    {
        lemma_level_widths();
        let width = level_width(level as int);
        assert(width <= 64);
        let first = pass_at(self.kernel.len(), self.levels, level, 0);
        let second = pass_at(self.kernel.len(), self.levels, level, 1);
        let third = pass_at(self.kernel.len(), self.levels, level, 2);
        assert(first.size == width && second.size == width && third.size == width);
        assert(one[0].levels[level as int] == other[0].levels[level as int]);
        self.lemma_phase(
            first,
            (one[0].levels[level as int], other[0].levels[level as int]),
            (one[0].temp1, other[0].temp1),
            (one[1].temp1, other[1].temp1),
        );
        assert(one[1].wf() && other[1].wf());
        self.lemma_phase(
            second,
            (one[1].temp1, other[1].temp1),
            (one[1].temp2, other[1].temp2),
            (one[2].temp2, other[2].temp2),
        );
        assert(one[2].wf() && other[2].wf());
        assert(is_cube(one[2].levels[level as int], width));
        assert(is_cube(other[2].levels[level as int], width));
        self.lemma_phase(
            third,
            (one[2].temp2, other[2].temp2),
            (one[2].levels[level as int], other[2].levels[level as int]),
            (one[3].levels[level as int], other[3].levels[level as int]),
        );
        lemma_same_cube(one[3].levels[level as int], other[3].levels[level as int], width);
        self.lemma_levels_kept(level as int, one[2], one[3]);
        self.lemma_levels_kept(level as int, other[2], other[3]);
        assert forall|l: int| 0 <= l < levels implies (#[trigger] one[3].levels[l])
            == other[3].levels[l] by {
            if l != level {
                assert(one[1].levels == one[0].levels && one[2].levels == one[1].levels);
                assert(other[1].levels == other[0].levels && other[2].levels == other[1].levels);
                assert(one[3].levels[l] == one[2].levels[l]);
                assert(other[3].levels[l] == other[2].levels[l]);
                assert(one[0].levels[l] == other[0].levels[l]);
            }
        }
    }

    /// Filling the holes of a level in two contexts that are alike down to
    /// the level below it leaves them alike.
    pub proof fn lemma_fill(
        self,
        level: usize,
        levels: int,
        from: (PyramidView<T, U>, PyramidView<T, U>),
        to: (PyramidView<T, U>, PyramidView<T, U>),
    )
        requires
            self.one_answer(),
            1 <= level <= LOG_SIZE,
            level < levels <= LOG_SIZE + 1,
            alike(from.0, from.1, levels),
            self.takes(Step::FillHoles { level }, from.0, to.0),
            self.takes(Step::FillHoles { level }, from.1, to.1),
        ensures
            alike(to.0, to.1, levels),
    {
        lemma_level_widths();
        let width = level_width(level - 1);
        let half = level_width(level as int);
        assert(width == 2 * half);
        let above = from.0.levels[level - 1];
        let below = from.0.levels[level as int];
        assert(from.1.levels[level - 1] == above);
        assert(from.1.levels[level as int] == below);
        assert forall|f: int, i: int| 0 <= f < 6 && 0 <= i < width * width implies (
        #[trigger] to.0.levels[level - 1][f][i]) == to.1.levels[level - 1][f][i] by {
            lemma_place(width as int, i);
            let x = i % (width as int);
            let y = i / (width as int);
            assert(holes_filled(
                self.numerics.blend,
                above[f],
                below[f],
                half as int,
                to.0.levels[level - 1][f],
            ));
            assert(holes_filled(
                self.numerics.blend,
                above[f],
                below[f],
                half as int,
                to.1.levels[level - 1][f],
            ));
            assert(texel_index(2 * (half as int), (x, y)) == i);
            assert(call_ensures(
                self.numerics.blend,
                (above[f][texel_index(2 * (half as int), (x, y))], below[f][texel_index(
                    half as int,
                    (x / 2, y / 2),
                )]),
                to.0.levels[level - 1][f][texel_index(2 * (half as int), (x, y))],
            ));
            assert(call_ensures(
                self.numerics.blend,
                (above[f][texel_index(2 * (half as int), (x, y))], below[f][texel_index(
                    half as int,
                    (x / 2, y / 2),
                )]),
                to.1.levels[level - 1][f][texel_index(2 * (half as int), (x, y))],
            ));
        }
        lemma_same_cube(to.0.levels[level - 1], to.1.levels[level - 1], width);
        self.lemma_levels_kept(level - 1, from.0, to.0);
        self.lemma_levels_kept(level - 1, from.1, to.1);
        assert forall|l: int| 0 <= l < levels implies (#[trigger] to.0.levels[l])
            == to.1.levels[l] by {
            if l != level - 1 {
                assert(to.0.levels[l] == from.0.levels[l]);
                assert(to.1.levels[l] == from.1.levels[l]);
            }
        }
    }

    /// Converting a level in two contexts that are alike down to it leaves
    /// them alike, and alike in that level as converted.
    pub proof fn lemma_convert(
        self,
        level: usize,
        levels: int,
        from: (PyramidView<T, U>, PyramidView<T, U>),
        to: (PyramidView<T, U>, PyramidView<T, U>),
    )
        requires
            self.one_answer(),
            level <= LOG_SIZE,
            level < levels,
            alike(from.0, from.1, levels),
            shown_alike(from.0, from.1, level as int),
            self.takes(Step::Convert { level }, from.0, to.0),
            self.takes(Step::Convert { level }, from.1, to.1),
        ensures
            alike(to.0, to.1, levels),
            shown_alike(to.0, to.1, level + 1),
    {
        lemma_level_widths();
        let width = level_width(level as int);
        let cube = from.0.levels[level as int];
        assert(from.1.levels[level as int] == cube);
        assert forall|f: int| 0 <= f < 6 implies to.0.converted[level as int][f]
            == to.1.converted[level as int][f] by {
            assert forall|i: int| 0 <= i < width * width implies to.0.converted[level as int][f][i]
                == to.1.converted[level as int][f][i] by {
                assert(call_ensures(
                    self.numerics.convert,
                    (cube[f][i],),
                    to.0.converted[level as int][f][i],
                ));
                assert(call_ensures(
                    self.numerics.convert,
                    (cube[f][i],),
                    to.1.converted[level as int][f][i],
                ));
            }
            assert(to.0.converted[level as int][f] =~= to.1.converted[level as int][f]);
        }
        assert(to.0.converted[level as int] =~= to.1.converted[level as int]);
        assert forall|l: int| 0 <= l <= LOG_SIZE implies is_cube(
            #[trigger] to.0.converted[l],
            level_width(l),
        ) by {
            if l != level {
                assert(to.0.converted[l] == from.0.converted[l]);
            }
        }
        assert forall|l: int| 0 <= l <= LOG_SIZE implies is_cube(
            #[trigger] to.1.converted[l],
            level_width(l),
        ) by {
            if l != level {
                assert(to.1.converted[l] == from.1.converted[l]);
            }
        }
        assert forall|l: int| 0 <= l < level + 1 implies (#[trigger] to.0.converted[l])
            == to.1.converted[l] by {
            if l != level {
                assert(to.0.converted[l] == from.0.converted[l]);
                assert(to.1.converted[l] == from.1.converted[l]);
            }
        }
    }
}

impl<T, U, W, F: Fn(Site<W>) -> Vec<Tap>, A: Fn(T, T, W) -> T, V: Fn(T, T, T, T) -> T, B: Fn(
    T,
    T,
) -> T, C: Fn(T) -> U> Building<T, W, F, A, V, B, C> {
    /// What the steps but the last have left, before the last is taken.
    pub proof fn lemma_last(
        self,
        steps: Seq<Step>,
        step: Step,
        before: PyramidView<T, U>,
        after: PyramidView<T, U>,
    ) -> (between: PyramidView<T, U>)
        requires
            self.leads(steps.push(step), before, after),
        ensures
            self.leads(steps, before, between),
            self.takes(step, between, after),
    {
        let all = steps.push(step);
        assert(all.drop_last() =~= steps);
        assert(all.last() == step);
        choose|between: PyramidView<T, U>|
            runs(all.drop_last(), self.kernel, self.levels, self.numerics, before, between)
                && #[trigger] applies(
                all.last(),
                self.kernel,
                self.levels,
                self.numerics,
                between,
                after,
            )
    }

    /// What the first of two lists of steps has left, before the second is
    /// taken.
    pub proof fn lemma_split(
        self,
        first: Seq<Step>,
        second: Seq<Step>,
        before: PyramidView<T, U>,
        after: PyramidView<T, U>,
    ) -> (between: PyramidView<T, U>)
        requires
            self.leads(first + second, before, after),
        ensures
            self.leads(first, before, between),
            self.leads(second, between, after),
        decreases second.len(),
    {
        if second.len() == 0 {
            assert(first + second =~= first);
            after
        } else {
            let rest = second.drop_last();
            assert(first + second =~= (first + rest).push(second.last()));
            let late = self.lemma_last(first + rest, second.last(), before, after);
            let between = self.lemma_split(first, rest, before, late);
            lemma_runs_step(
                rest,
                second.last(),
                self.kernel,
                self.levels,
                self.numerics,
                between,
                late,
                after,
            );
            assert(rest.push(second.last()) =~= second);
            between
        }
    }

    /// A list of one step leaves what the step leaves.
    pub proof fn lemma_single(self, step: Step, before: PyramidView<T, U>, after: PyramidView<T, U>)
        requires
            self.leads(seq![step], before, after),
        ensures
            self.takes(step, before, after),
    {
        assert(seq![step] =~= Seq::<Step>::empty().push(step));
        let between = self.lemma_last(Seq::empty(), step, before, after);
    }

    /// The passes over a level, in two contexts that are alike down to the
    /// level, leave them alike.
    pub proof fn lemma_blurs(
        self,
        level: usize,
        count: nat,
        levels: int,
        from: (PyramidView<T, U>, PyramidView<T, U>),
        to: (PyramidView<T, U>, PyramidView<T, U>),
    )
        requires
            self.one_answer(),
            level <= LOG_SIZE,
            level < levels <= LOG_SIZE + 1,
            alike(from.0, from.1, levels),
            self.leads(blur_steps(level, count), from.0, to.0),
            self.leads(blur_steps(level, count), from.1, to.1),
        ensures
            alike(to.0, to.1, levels),
        decreases count,
    {
        if count > 0 {
            let pass = (count - 1) as usize;
            let before = blur_steps(level, (count - 1) as nat);
            let a = Step::Blur { level, pass, phase: 0 };
            let b = Step::Blur { level, pass, phase: 1 };
            let c = Step::Blur { level, pass, phase: 2 };
            assert(blur_steps(level, count) =~= before.push(a).push(b).push(c));
            let one2 = self.lemma_last(before.push(a).push(b), c, from.0, to.0);
            let one1 = self.lemma_last(before.push(a), b, from.0, one2);
            let one0 = self.lemma_last(before, a, from.0, one1);
            let other2 = self.lemma_last(before.push(a).push(b), c, from.1, to.1);
            let other1 = self.lemma_last(before.push(a), b, from.1, other2);
            let other0 = self.lemma_last(before, a, from.1, other1);
            self.lemma_blurs(level, (count - 1) as nat, levels, from, (one0, other0));
            self.lemma_pass(
                level,
                pass,
                levels,
                seq![one0, one1, one2, to.0],
                seq![other0, other1, other2, to.1],
            );
        }
    }

    /// The making of the first levels, in two contexts that hold the same
    /// captured cube and the same finest level, leaves them alike down to
    /// the last of those levels.
    pub proof fn lemma_build(
        self,
        levels: nat,
        from: (PyramidView<T, U>, PyramidView<T, U>),
        to: (PyramidView<T, U>, PyramidView<T, U>),
    )
        requires
            self.one_answer(),
            levels <= self.levels.len() <= LOG_SIZE + 1,
            alike(from.0, from.1, 1),
            self.leads(build_steps(passes_of(self.levels), levels), from.0, to.0),
            self.leads(build_steps(passes_of(self.levels), levels), from.1, to.1),
        ensures
            alike(
                to.0,
                to.1,
                if levels == 0 {
                    1
                } else {
                    levels as int
                },
            ),
        decreases levels,
    {
        let passes = passes_of(self.levels);
        if levels > 0 {
            let level = (levels - 1) as usize;
            let count = passes[level as int] as nat;
            let before = build_steps(passes, (levels - 1) as nat);
            let one = self.lemma_split(before, level_steps(level, count), from.0, to.0);
            let other = self.lemma_split(before, level_steps(level, count), from.1, to.1);
            self.lemma_build((levels - 1) as nat, from, (one, other));
            if level == 0 {
                self.lemma_blurs(level, count, 1, (one, other), to);
            } else {
                let halve = Step::Downsample { level };
                let one1 = self.lemma_split(seq![halve], blur_steps(level, count), one, to.0);
                let other1 = self.lemma_split(seq![halve], blur_steps(level, count), other, to.1);
                self.lemma_single(halve, one, one1);
                self.lemma_single(halve, other, other1);
                self.lemma_downsample(level, (one, other), (one1, other1));
                self.lemma_blurs(level, count, levels as int, (one1, other1), to);
            }
        }
    }

    /// Filling the holes of the first levels, in two contexts that are alike
    /// down to the last of the levels of the plan, leaves them alike.
    pub proof fn lemma_fills(
        self,
        levels: nat,
        planned: int,
        from: (PyramidView<T, U>, PyramidView<T, U>),
        to: (PyramidView<T, U>, PyramidView<T, U>),
    )
        requires
            self.one_answer(),
            levels <= planned <= LOG_SIZE + 1,
            alike(from.0, from.1, planned),
            self.leads(fill_steps(levels), from.0, to.0),
            self.leads(fill_steps(levels), from.1, to.1),
        ensures
            alike(to.0, to.1, planned),
        decreases levels,
    {
        if levels > 1 {
            let fill = Step::FillHoles { level: (levels - 1) as usize };
            let rest = fill_steps((levels - 1) as nat);
            let one = self.lemma_split(seq![fill], rest, from.0, to.0);
            let other = self.lemma_split(seq![fill], rest, from.1, to.1);
            self.lemma_single(fill, from.0, one);
            self.lemma_single(fill, from.1, other);
            self.lemma_fill((levels - 1) as usize, planned, from, (one, other));
            self.lemma_fills((levels - 1) as nat, planned, (one, other), to);
        }
    }

    /// Converting the first levels, in two contexts that are alike down to
    /// the last of the levels of the plan, leaves them alike, and alike in
    /// those levels as converted.
    pub proof fn lemma_converts(
        self,
        levels: nat,
        planned: int,
        from: (PyramidView<T, U>, PyramidView<T, U>),
        to: (PyramidView<T, U>, PyramidView<T, U>),
    )
        requires
            self.one_answer(),
            levels <= planned <= LOG_SIZE + 1,
            alike(from.0, from.1, planned),
            self.leads(convert_steps(levels), from.0, to.0),
            self.leads(convert_steps(levels), from.1, to.1),
        ensures
            alike(to.0, to.1, planned),
            shown_alike(to.0, to.1, levels as int),
        decreases levels,
    {
        if levels > 0 {
            let convert = Step::Convert { level: (levels - 1) as usize };
            let rest = convert_steps((levels - 1) as nat);
            let one = self.lemma_last(rest, convert, from.0, to.0);
            let other = self.lemma_last(rest, convert, from.1, to.1);
            self.lemma_converts((levels - 1) as nat, planned, from, (one, other));
            self.lemma_convert((levels - 1) as usize, planned, (one, other), to);
        }
    }

    /// Two builds by one plan, from two contexts that hold the same captured
    /// cube, leave the same levels of the pyramid, in the working format and
    /// as converted for display: whatever else the contexts held.
    pub proof fn lemma_rebuild(
        self,
        from: (PyramidView<T, U>, PyramidView<T, U>),
        to: (PyramidView<T, U>, PyramidView<T, U>),
    )
        requires
            self.one_answer(),
            self.levels.len() <= LOG_SIZE + 1,
            from.0.wf(),
            from.1.wf(),
            from.0.raw == from.1.raw,
            self.leads(schedule(passes_of(self.levels)), from.0, to.0),
            self.leads(schedule(passes_of(self.levels)), from.1, to.1),
        ensures
            to.0.raw == to.1.raw,
            forall|level: int|
                0 <= level < self.levels.len() ==> (#[trigger] to.0.levels[level])
                    == to.1.levels[level],
            forall|level: int|
                0 <= level < self.levels.len() ==> (#[trigger] to.0.converted[level])
                    == to.1.converted[level],
    {
        let passes = passes_of(self.levels);
        let n = passes.len();
        let seed = seq![Step::Seed];
        let build = build_steps(passes, n);
        let fill = fill_steps(n);
        let convert = convert_steps(n);
        assert(schedule(passes) == seed + build + fill + convert);
        let one3 = self.lemma_split(seed + build + fill, convert, from.0, to.0);
        let one2 = self.lemma_split(seed + build, fill, from.0, one3);
        let one1 = self.lemma_split(seed, build, from.0, one2);
        let other3 = self.lemma_split(seed + build + fill, convert, from.1, to.1);
        let other2 = self.lemma_split(seed + build, fill, from.1, other3);
        let other1 = self.lemma_split(seed, build, from.1, other2);
        self.lemma_single(Step::Seed, from.0, one1);
        self.lemma_single(Step::Seed, from.1, other1);
        self.lemma_seed(from, (one1, other1));
        self.lemma_build(n, (one1, other1), (one2, other2));
        let planned = if n == 0 {
            1
        } else {
            n as int
        };
        self.lemma_fills(n, planned, (one2, other2), (one3, other3));
        self.lemma_converts(n, planned, (one3, other3), to);
    }
}

impl<T, U, W, F: Fn(Site<W>) -> Vec<Tap>, A: Fn(T, T, W) -> T, V: Fn(T, T, T, T) -> T, B: Fn(
    T,
    T,
) -> T, C: Fn(T) -> U> Building<T, W, F, A, V, B, C> {
    /// No step alters the captured cube.
    pub proof fn lemma_capture_kept(
        self,
        steps: Seq<Step>,
        before: PyramidView<T, U>,
        after: PyramidView<T, U>,
    )
        requires
            self.leads(steps, before, after),
        ensures
            after.raw == before.raw,
        decreases steps.len(),
    {
        if steps.len() > 0 {
            assert(steps.drop_last().push(steps.last()) =~= steps);
            let between = self.lemma_last(steps.drop_last(), steps.last(), before, after);
            self.lemma_capture_kept(steps.drop_last(), before, between);
        }
    }

    /// A second build, from the context as the first build has left it,
    /// leaves the levels of the pyramid as the first has left them, in the
    /// working format and as converted for display.
    pub proof fn lemma_build_again(
        self,
        before: PyramidView<T, U>,
        built: PyramidView<T, U>,
        again: PyramidView<T, U>,
    )
        requires
            self.one_answer(),
            self.levels.len() <= LOG_SIZE + 1,
            before.wf(),
            built.wf(),
            self.leads(schedule(passes_of(self.levels)), before, built),
            self.leads(schedule(passes_of(self.levels)), built, again),
        ensures
            again.raw == before.raw,
            forall|level: int|
                0 <= level < self.levels.len() ==> (#[trigger] again.levels[level])
                    == built.levels[level],
            forall|level: int|
                0 <= level < self.levels.len() ==> (#[trigger] again.converted[level])
                    == built.converted[level],
    {
        self.lemma_capture_kept(schedule(passes_of(self.levels)), before, built);
        self.lemma_rebuild((before, built), (built, again));
    }
}

} // verus!
