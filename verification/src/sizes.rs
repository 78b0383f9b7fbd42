//! The configuration of an experiment, and the series of input sizes that
//! it asks for.

use vstd::prelude::*;

verus! {

/// The greatest number of nanoseconds that one timed call can be reported
/// to have taken: what a span of `u64::MAX` seconds and 999,999,999
/// nanoseconds holds.
pub const MAX_SAMPLE_NANOS: u128 = 18_446_744_073_709_551_615_999_999_999;

/// What an experiment is run with.
#[derive(Clone, Copy, Debug)]
pub struct Config {
    /// How often each size is timed.
    pub trial_count: usize,
    /// The smallest input size; zero stands for one step.
    pub min_size: usize,
    /// The greatest input size.
    pub max_size: usize,
    /// The distance from one size to the next.
    pub step: usize,
}

impl Config {
    /// There is at least one trial and the step is not zero, and the sum of
    /// as many samples as there are trials fits the accumulator.
    pub open spec fn valid(&self) -> bool {
        &&& self.trial_count > 0
        &&& self.step > 0
        &&& self.trial_count * MAX_SAMPLE_NANOS <= u128::MAX
    }

    /// The first size of the series: the smallest size, or one step where
    /// that is zero.
    pub open spec fn first_size(&self) -> int {
        if self.min_size != 0 {
            self.min_size as int
        } else {
            self.min_size + self.step
        }
    }

    /// The series of sizes.
    pub open spec fn sizes(&self) -> Seq<usize> {
        series(self.first_size(), self.max_size as int, self.step as int)
    }

    /// The configuration with these values, where they are valid.
    pub fn new(trial_count: usize, min_size: usize, max_size: usize, step: usize) -> (config:
        Option<Config>)
        ensures
            config is Some <==> (Config { trial_count, min_size, max_size, step }).valid(),
            config is Some ==> config->0 == (Config { trial_count, min_size, max_size, step }),
    {
        let config = Config { trial_count, min_size, max_size, step };
        if trial_count > 0 && step > 0 && trial_count as u128 <= u128::MAX / MAX_SAMPLE_NANOS {
            assert(trial_count * MAX_SAMPLE_NANOS <= u128::MAX) by (nonlinear_arith)
                requires
                    trial_count <= u128::MAX / MAX_SAMPLE_NANOS,
            ;
            Some(config)
        } else {
            assert(!config.valid()) by (nonlinear_arith)
                requires
                    !(trial_count > 0 && step > 0 && trial_count <= u128::MAX
                        / MAX_SAMPLE_NANOS),
                    config.trial_count == trial_count,
                    config.step == step,
            ;
            None
        }
    }

    /// 2000 trials of each size from 20 to 2000, in steps of 20.
    pub fn standard() -> (config: Config)
        ensures
            config == (Config { trial_count: 2_000, min_size: 20, max_size: 2_000, step: 20 }),
            config.valid(),
    {
        Config { trial_count: 2_000, min_size: 20, max_size: 2_000, step: 20 }
    }
}

/// How many numbers lie from `from` up to and with `max`.
pub open spec fn span(from: int, max: int) -> nat {
    if from > max {
        0
    } else {
        (max - from + 1) as nat
    }
}

/// The sizes from `from` on, each `step` above the one before it, that do
/// not exceed `max`.
pub open spec fn series(from: int, max: int, step: int) -> Seq<usize>
    decreases span(from, max),
    when step > 0
{
    if from > max {
        Seq::empty()
    } else {
        seq![from as usize] + series(from + step, max, step)
    }
}

/// The `k`-th entry of a series is `k` steps above the first, none exceeds
/// `max`, and the series ends where the next entry would.
pub proof fn lemma_series(from: int, max: int, step: int)
    requires
        step > 0,
        0 <= from,
        max <= usize::MAX,
    ensures
        forall|k: int|
            0 <= k < series(from, max, step).len() ==> #[trigger] series(from, max, step)[k] == from
                + k * step,
        forall|k: int|
            0 <= k < series(from, max, step).len() ==> #[trigger] series(from, max, step)[k] <= max,
        from + series(from, max, step).len() * step > max,
    decreases span(from, max),
{
    if from <= max {
        let rest = series(from + step, max, step);
        lemma_series(from + step, max, step);
        let all = series(from, max, step);
        assert(all.len() == rest.len() + 1);
        assert(from + all.len() * step == from + step + rest.len() * step) by (nonlinear_arith)
            requires
                all.len() == rest.len() + 1,
        ;
        assert forall|k: int| 0 <= k < all.len() implies #[trigger] all[k] == from + k * step
            && all[k] <= max by {
            if k > 0 {
                assert(all[k] == rest[k - 1]);
                assert(from + step + (k - 1) * step == from + k * step) by (nonlinear_arith);
            }
        }
    }
}

/// The series of sizes that `config` asks for: from the smallest size, or
/// from one step where that is zero, in steps up to the greatest size.
pub fn gen_sizes(config: &Config) -> (sizes: Vec<usize>)
    requires
        config.step > 0,
    ensures
        sizes@ == config.sizes(),
        config.min_size == 0 && sizes@.len() > 0 ==> sizes@[0] == config.step,
{
    let min = if config.min_size != 0 {
        config.min_size
    } else {
        config.min_size + config.step
    };
    let mut sizes: Vec<usize> = Vec::new();
    let mut size = min;
    let ghost max = config.max_size as int;
    let ghost step = config.step as int;
    proof {
        assert(sizes@ + series(min as int, max, step) =~= series(min as int, max, step));
    }
    while size <= config.max_size
        invariant_except_break
            sizes@ + series(size as int, max, step) == series(min as int, max, step),
        invariant
            max == config.max_size,
            step == config.step,
            step > 0,
        ensures
            sizes@ == series(min as int, max, step),
        decreases span(size as int, max),
    {
        let ghost before = sizes@;
        sizes.push(size);
        proof {
            assert(before.push(size) + series(size + step, max, step) =~= before + series(
                size as int,
                max,
                step,
            ));
        }
        match size.checked_add(config.step) {
            Some(next) => {
                size = next;
            },
            None => {
                proof {
                    assert(series(size + step, max, step) =~= Seq::<usize>::empty());
                    assert(sizes@ + Seq::<usize>::empty() =~= sizes@);
                }
                break ;
            },
        }
    }
    proof {
        if size > config.max_size {
            assert(series(size as int, max, step) =~= Seq::<usize>::empty());
            assert(sizes@ + Seq::<usize>::empty() =~= sizes@);
        }
    }
    sizes
}

} // verus!
