//! The order in which a pyramid is built.
//!
//! Building a pyramid is a fixed list of steps: the finest level is seeded,
//! every level is halved from the one above it and blurred, the holes of
//! every level are filled from the level below it, coarsest first, and every
//! level is converted. The list depends only on how many blur passes each
//! level asks for.

use vstd::prelude::*;

verus! {

/// One step in the building of a pyramid. Levels are counted from the finest,
/// level 0.
#[derive(Debug, Copy, Clone, PartialEq, Eq, Structural)]
pub enum Step {
    /// The captured cube becomes level 0.
    Seed,
    /// The level is made by halving the level above it.
    Downsample { level: usize },
    /// One phase of one blur pass over the level.
    Blur { level: usize, pass: usize, phase: usize },
    /// The holes of the level above are filled from the level.
    FillHoles { level: usize },
    /// The level is converted for display.
    Convert { level: usize },
}

/// The phases of `count` blur passes over a level, pass by pass.
pub open spec fn blur_steps(level: usize, count: nat) -> Seq<Step>
    decreases count,
{
    if count == 0 {
        Seq::empty()
    } else {
        let pass = (count - 1) as usize;
        blur_steps(level, (count - 1) as nat) + seq![
            Step::Blur { level, pass, phase: 0 },
            Step::Blur { level, pass, phase: 1 },
            Step::Blur { level, pass, phase: 2 },
        ]
    }
}

/// The steps that make one level: below the finest the level is halved from
/// the one above, then it is blurred.
pub open spec fn level_steps(level: usize, count: nat) -> Seq<Step> {
    if level == 0 {
        blur_steps(level, count)
    } else {
        seq![Step::Downsample { level }] + blur_steps(level, count)
    }
}

/// The steps that make the first `levels` levels, finest first.
pub open spec fn build_steps(passes: Seq<usize>, levels: nat) -> Seq<Step>
    decreases levels,
{
    if levels == 0 {
        Seq::empty()
    } else {
        let level = (levels - 1) as usize;
        build_steps(passes, (levels - 1) as nat) + level_steps(level, passes[level as int] as nat)
    }
}

/// The steps that fill the holes of the first `levels` levels, coarsest
/// first.
pub open spec fn fill_steps(levels: nat) -> Seq<Step>
    decreases levels,
{
    if levels <= 1 {
        Seq::empty()
    } else {
        seq![Step::FillHoles { level: (levels - 1) as usize }] + fill_steps((levels - 1) as nat)
    }
}

/// The steps that convert the first `levels` levels, finest first.
pub open spec fn convert_steps(levels: nat) -> Seq<Step>
    decreases levels,
{
    if levels == 0 {
        Seq::empty()
    } else {
        convert_steps((levels - 1) as nat).push(Step::Convert { level: (levels - 1) as usize })
    }
}

/// The steps that build a pyramid, in their order; `passes` holds, for each
/// level, the number of blur passes over it.
pub open spec fn schedule(passes: Seq<usize>) -> Seq<Step> {
    seq![Step::Seed] + build_steps(passes, passes.len()) + fill_steps(passes.len())
        + convert_steps(passes.len())
}

/// The number of steps that make the first `levels` levels.
pub open spec fn build_len(passes: Seq<usize>, levels: nat) -> nat
    decreases levels,
{
    if levels == 0 {
        0
    } else {
        let level = (levels - 1) as nat;
        build_len(passes, level) + (if level == 0 {
            0nat
        } else {
            1nat
        }) + 3 * (passes[level as int] as nat)
    }
}

/// The number of steps that build a pyramid.
pub open spec fn schedule_len(passes: Seq<usize>) -> nat {
    let n = passes.len();
    1 + build_len(passes, n) + (if n <= 1 {
        0nat
    } else {
        (n - 1) as nat
    }) + n
}

impl Step {
    /// Whether the step belongs to the building of a pyramid with these
    /// passes.
    pub open spec fn valid(self, passes: Seq<usize>) -> bool {
        match self {
            Step::Seed => true,
            Step::Downsample { level } => 1 <= level < passes.len(),
            Step::Blur { level, pass, phase } => level < passes.len() && pass < passes[level as int]
                && phase < 3,
            Step::FillHoles { level } => 1 <= level < passes.len(),
            Step::Convert { level } => level < passes.len(),
        }
    }

    /// The place of the step in the schedule.
    pub open spec fn position(self, passes: Seq<usize>) -> nat {
        let n = passes.len();
        match self {
            Step::Seed => 0,
            Step::Downsample { level } => 1 + build_len(passes, level as nat),
            Step::Blur { level, pass, phase } => 1 + build_len(passes, level as nat) + (if level
                == 0 {
                0nat
            } else {
                1nat
            }) + 3 * (pass as nat) + (phase as nat),
            Step::FillHoles { level } => (1 + build_len(passes, n) + (n - 1 - level)) as nat,
            Step::Convert { level } => 1 + build_len(passes, n) + (if n <= 1 {
                0nat
            } else {
                (n - 1) as nat
            }) + (level as nat),
        }
    }
}

/// The step that opens the filling of holes, or the one that comes in its
/// place where there are no holes to fill.
fn after_build(passes: &[usize]) -> (next: Option<Step>)
    ensures
        match next {
            Some(step) => step.valid(passes@) && step.position(passes@) == 1 + build_len(
                passes@,
                passes@.len(),
            ),
            None => schedule_len(passes@) == 1 + build_len(passes@, passes@.len()),
        },
{
    let n = passes.len();
    if n >= 2 {
        Some(Step::FillHoles { level: n - 1 })
    } else if n == 1 {
        Some(Step::Convert { level: 0 })
    } else {
        None
    }
}

/// The step that opens the making of a level, or what comes after the last
/// level.
fn enter_level(passes: &[usize], level: usize) -> (next: Option<Step>)
    requires
        1 <= level <= passes@.len(),
    ensures
        match next {
            Some(step) => step.valid(passes@) && step.position(passes@) == 1 + build_len(
                passes@,
                level as nat,
            ),
            None => schedule_len(passes@) == 1 + build_len(passes@, level as nat),
        },
{
    if level < passes.len() {
        Some(Step::Downsample { level })
    } else {
        after_build(passes)
    }
}

/// The step that opens the blurring of a level, or what comes after the
/// level if it is not blurred.
fn enter_blur(passes: &[usize], level: usize) -> (next: Option<Step>)
    requires
        level < passes@.len(),
    ensures
        match next {
            Some(step) => step.valid(passes@) && step.position(passes@) == 1 + build_len(
                passes@,
                level as nat,
            ) + (if level == 0 {
                0nat
            } else {
                1nat
            }),
            None => schedule_len(passes@) == 1 + build_len(passes@, level as nat) + (if level == 0 {
                0nat
            } else {
                1nat
            }),
        },
{
    if passes[level] > 0 {
        Some(Step::Blur { level, pass: 0, phase: 0 })
    } else {
        proof {
            assert(build_len(passes@, (level + 1) as nat) == build_len(passes@, level as nat) + (
            if level == 0 {
                0nat
            } else {
                1nat
            }));
        }
        enter_level(passes, level + 1)
    }
}

/// The first step of the building of a pyramid.
pub fn first_step() -> (step: Step)
    ensures
        step == Step::Seed,
        forall|passes: Seq<usize>|
            step.valid(passes) && step.position(passes) == 0 && (#[trigger] schedule(passes))[0]
                == step,
{
    Step::Seed
}

/// The step that follows `step` in the building of a pyramid, or nothing if
/// `step` is the last.
pub fn next_step(passes: &[usize], step: Step) -> (next: Option<Step>)
    requires
        step.valid(passes@),
    ensures
        step.position(passes@) < schedule(passes@).len(),
        schedule(passes@)[step.position(passes@) as int] == step,
        match next {
            Some(after) => after.valid(passes@) && after.position(passes@) == step.position(
                passes@,
            ) + 1 && after.position(passes@) < schedule(passes@).len() && schedule(
                passes@,
            )[after.position(passes@) as int] == after,
            None => step.position(passes@) + 1 == schedule(passes@).len(),
        },
{
    let levels = passes.len();
    let next = following(passes, step);
    proof {
        assert(passes@.len() == levels);
        lemma_schedule(passes@, step);
        if let Some(after) = next {
            lemma_schedule(passes@, after);
        }
    }
    next
}

/// The step that follows `step`, by its place in the schedule.
fn following(passes: &[usize], step: Step) -> (next: Option<Step>)
    requires
        step.valid(passes@),
    ensures
        match next {
            Some(after) => after.valid(passes@) && after.position(passes@) == step.position(
                passes@,
            ) + 1,
            None => step.position(passes@) + 1 == schedule_len(passes@),
        },
{
    let n = passes.len();
    match step {
        Step::Seed => {
            if n == 0 {
                None
            } else {
                enter_blur(passes, 0)
            }
        },
        Step::Downsample { level } => enter_blur(passes, level),
        Step::Blur { level, pass, phase } => {
            if phase < 2 {
                Some(Step::Blur { level, pass, phase: phase + 1 })
            } else if pass + 1 < passes[level] {
                Some(Step::Blur { level, pass: pass + 1, phase: 0 })
            } else {
                proof {
                    assert(build_len(passes@, (level + 1) as nat) == build_len(
                        passes@,
                        level as nat,
                    ) + (if level == 0 {
                        0nat
                    } else {
                        1nat
                    }) + 3 * (passes@[level as int] as nat));
                }
                enter_level(passes, level + 1)
            }
        },
        Step::FillHoles { level } => {
            if level > 1 {
                Some(Step::FillHoles { level: level - 1 })
            } else {
                Some(Step::Convert { level: 0 })
            }
        },
        Step::Convert { level } => {
            if level + 1 < n {
                Some(Step::Convert { level: level + 1 })
            } else {
                None
            }
        },
    }
}

/// The phases of the passes over a level lie in the order of the passes, and
/// within a pass in the order of the phases.
pub proof fn lemma_blur_steps(level: usize, count: nat, pass: usize, phase: usize)
    requires
        count <= usize::MAX,
        pass < count,
        phase < 3,
    ensures
        blur_steps(level, count).len() == 3 * count,
        blur_steps(level, count)[3 * pass + phase] == (Step::Blur { level, pass, phase }),
    decreases count,
{
    lemma_blur_len(level, count);
    lemma_blur_len(level, (count - 1) as nat);
    if pass < count - 1 {
        lemma_blur_steps(level, (count - 1) as nat, pass, phase);
    }
}

/// Three steps for each pass.
pub proof fn lemma_blur_len(level: usize, count: nat)
    ensures
        blur_steps(level, count).len() == 3 * count,
    decreases count,
{
    if count > 0 {
        lemma_blur_len(level, (count - 1) as nat);
    }
}

/// The steps of the first levels hold as many steps as `build_len` counts,
/// and the steps of each level lie where `build_len` says that they start.
pub proof fn lemma_build_steps(passes: Seq<usize>, levels: nat, level: usize, offset: nat)
    requires
        levels <= passes.len() <= usize::MAX,
        level < levels,
        offset < level_steps(level, passes[level as int] as nat).len(),
    ensures
        build_steps(passes, levels).len() == build_len(passes, levels),
        build_len(passes, level as nat) + offset < build_len(passes, levels),
        build_steps(passes, levels)[(build_len(passes, level as nat) + offset) as int]
            == level_steps(
            level,
            passes[level as int] as nat,
        )[offset as int],
    decreases levels,
{
    lemma_build_len(passes, levels);
    lemma_build_len(passes, (levels - 1) as nat);
    lemma_blur_len(level, passes[level as int] as nat);
    if level < levels - 1 {
        lemma_build_steps(passes, (levels - 1) as nat, level, offset);
    } else {
        lemma_blur_len((levels - 1) as usize, passes[levels - 1] as nat);
    }
}

/// The steps of the first levels are as many as `build_len` counts.
pub proof fn lemma_build_len(passes: Seq<usize>, levels: nat)
    requires
        levels <= passes.len() <= usize::MAX,
    ensures
        build_steps(passes, levels).len() == build_len(passes, levels),
    decreases levels,
{
    if levels > 0 {
        lemma_build_len(passes, (levels - 1) as nat);
        lemma_blur_len((levels - 1) as usize, passes[levels - 1] as nat);
    }
}

/// Holes are filled from the coarsest level upwards.
pub proof fn lemma_fill_steps(levels: nat, level: usize)
    requires
        1 <= level < levels <= usize::MAX,
    ensures
        fill_steps(levels).len() == levels - 1,
        fill_steps(levels)[levels - 1 - level] == (Step::FillHoles { level }),
    decreases levels,
{
    lemma_fill_len(levels);
    lemma_fill_len((levels - 1) as nat);
    if level < levels - 1 {
        lemma_fill_steps((levels - 1) as nat, level);
    }
}

/// One step for each level but the finest.
pub proof fn lemma_fill_len(levels: nat)
    ensures
        fill_steps(levels).len() == (if levels <= 1 {
            0
        } else {
            levels - 1
        }),
    decreases levels,
{
    if levels > 1 {
        lemma_fill_len((levels - 1) as nat);
    }
}

/// Levels are converted from the finest downwards.
pub proof fn lemma_convert_steps(levels: nat, level: usize)
    requires
        level < levels <= usize::MAX,
    ensures
        convert_steps(levels).len() == levels,
        convert_steps(levels)[level as int] == (Step::Convert { level }),
    decreases levels,
{
    lemma_convert_len(levels);
    lemma_convert_len((levels - 1) as nat);
    if level < levels - 1 {
        lemma_convert_steps((levels - 1) as nat, level);
    }
}

/// One step for each level.
pub proof fn lemma_convert_len(levels: nat)
    ensures
        convert_steps(levels).len() == levels,
    decreases levels,
{
    if levels > 0 {
        lemma_convert_len((levels - 1) as nat);
    }
}

/// The schedule holds every step that belongs to it at its position, and
/// nothing else.
pub proof fn lemma_schedule(passes: Seq<usize>, step: Step)
    requires
        passes.len() <= usize::MAX,
        step.valid(passes),
    ensures
        schedule(passes).len() == schedule_len(passes),
        step.position(passes) < schedule_len(passes),
        schedule(passes)[step.position(passes) as int] == step,
{
    let n = passes.len();
    lemma_build_len(passes, n);
    lemma_fill_len(n);
    lemma_convert_len(n);
    let built = seq![Step::Seed] + build_steps(passes, n);
    let filled = built + fill_steps(n);
    match step {
        Step::Seed => {},
        Step::Downsample { level } => {
            lemma_blur_len(level, passes[level as int] as nat);
            lemma_build_steps(passes, n, level, 0);
        },
        Step::Blur { level, pass, phase } => {
            let count = passes[level as int] as nat;
            lemma_blur_steps(level, count, pass, phase);
            let offset = ((if level == 0 {
                0nat
            } else {
                1nat
            }) + 3 * pass + phase) as nat;
            lemma_build_steps(passes, n, level, offset);
        },
        Step::FillHoles { level } => {
            lemma_fill_steps(n, level);
        },
        Step::Convert { level } => {
            lemma_convert_steps(n, level);
        },
    }
}

} // verus!
