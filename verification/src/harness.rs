//! The timing harness: one timed call, one trial of the six algorithms, the
//! averages of a size, and the series of averages over all sizes.

use crate::bubble::bubble_sort;
use crate::heap::{heap1_sort, heap2_sort};
use crate::insertion::insertion_sort;
use crate::merge::merge_sort;
use crate::order::lemma_i32_order;
use crate::random::fill_random;
use crate::selection::selection_sort;
use crate::sizes::{gen_sizes, Config, MAX_SAMPLE_NANOS};
use rand::rngs::ThreadRng;
use std::time::Instant;
use vstd::prelude::*;

verus! {

/// Times one call of `f` on `slice`, in nanoseconds. The slice is left as
/// `f` leaves it.
pub fn benchmark<T: Ord, F: Fn(&mut [T])>(slice: &mut [T], f: F) -> (nanos: u128)
    requires
        forall|s: &mut [T]| s@ == old(slice)@ ==> #[trigger] call_requires(f, (s,)),
    ensures
        nanos <= MAX_SAMPLE_NANOS,
        exists|s: &mut [T]|
            s@ == old(slice)@ && final(s)@ == final(slice)@ && #[trigger] call_ensures(f, (s,), ()),
{
    let start = Instant::now();
    f(slice);
    let end = Instant::now();
    let time_taken = end.duration_since(start).as_nanos();
    time_taken
}

/// The six algorithms that are timed.
#[derive(Clone, Copy, Debug, PartialEq, Eq)]
pub enum Algorithm {
    Selection,
    Insertion,
    Bubble,
    Merge,
    Heap1,
    Heap2,
}

/// One number of nanoseconds for each of the six algorithms: the samples of
/// a trial, their totals over the trials of a size, or the averages.
#[derive(Clone, Copy, Debug)]
pub struct Timings {
    pub selection: u128,
    pub insertion: u128,
    pub bubble: u128,
    pub merge: u128,
    pub heap1: u128,
    pub heap2: u128,
}

impl Timings {
    /// The number of one algorithm.
    pub open spec fn of(&self, algorithm: Algorithm) -> u128 {
        match algorithm {
            Algorithm::Selection => self.selection,
            Algorithm::Insertion => self.insertion,
            Algorithm::Bubble => self.bubble,
            Algorithm::Merge => self.merge,
            Algorithm::Heap1 => self.heap1,
            Algorithm::Heap2 => self.heap2,
        }
    }

    /// No number is above `bound`.
    pub open spec fn below(&self, bound: int) -> bool {
        &&& self.selection <= bound
        &&& self.insertion <= bound
        &&& self.bubble <= bound
        &&& self.merge <= bound
        &&& self.heap1 <= bound
        &&& self.heap2 <= bound
    }

    /// Zero for each algorithm.
    pub fn zero() -> (timings: Timings)
        ensures
            timings == (Timings {
                selection: 0,
                insertion: 0,
                bubble: 0,
                merge: 0,
                heap1: 0,
                heap2: 0,
            }),
    {
        Timings { selection: 0, insertion: 0, bubble: 0, merge: 0, heap1: 0, heap2: 0 }
    }

    /// The sums, algorithm by algorithm.
    pub fn plus(&self, sample: &Timings) -> (total: Timings)
        requires
            self.selection + sample.selection <= u128::MAX,
            self.insertion + sample.insertion <= u128::MAX,
            self.bubble + sample.bubble <= u128::MAX,
            self.merge + sample.merge <= u128::MAX,
            self.heap1 + sample.heap1 <= u128::MAX,
            self.heap2 + sample.heap2 <= u128::MAX,
        ensures
            total.selection == self.selection + sample.selection,
            total.insertion == self.insertion + sample.insertion,
            total.bubble == self.bubble + sample.bubble,
            total.merge == self.merge + sample.merge,
            total.heap1 == self.heap1 + sample.heap1,
            total.heap2 == self.heap2 + sample.heap2,
    {
        Timings {
            selection: self.selection + sample.selection,
            insertion: self.insertion + sample.insertion,
            bubble: self.bubble + sample.bubble,
            merge: self.merge + sample.merge,
            heap1: self.heap1 + sample.heap1,
            heap2: self.heap2 + sample.heap2,
        }
    }

    /// The averages of totals over `trials` trials, rounded down.
    pub fn averaged(&self, trials: usize) -> (averages: Timings)
        requires
            trials > 0,
        ensures
            averages.selection == self.selection / (trials as u128),
            averages.insertion == self.insertion / (trials as u128),
            averages.bubble == self.bubble / (trials as u128),
            averages.merge == self.merge / (trials as u128),
            averages.heap1 == self.heap1 / (trials as u128),
            averages.heap2 == self.heap2 / (trials as u128),
    {
        let trials = trials as u128;
        Timings {
            selection: self.selection / trials,
            insertion: self.insertion / trials,
            bubble: self.bubble / trials,
            merge: self.merge / trials,
            heap1: self.heap1 / trials,
            heap2: self.heap2 / trials,
        }
    }
}

/// An average of samples is not above what bounds each of them.
proof fn lemma_average_below(total: int, trials: int, bound: int)
    requires
        trials > 0,
        0 <= total <= trials * bound,
    ensures
        total / trials <= bound,
{
    assert(total / trials <= bound) by (nonlinear_arith)
        requires
            trials > 0,
            0 <= total <= trials * bound,
    ;
}

/// For each algorithm, one series of averages, entry by entry the averages
/// of one input size.
#[derive(Debug)]
pub struct ResultSet {
    pub selection_totals: Vec<u128>,
    pub insertion_totals: Vec<u128>,
    pub bubble_totals: Vec<u128>,
    pub merge_totals: Vec<u128>,
    pub heap1_totals: Vec<u128>,
    pub heap2_totals: Vec<u128>,
}

impl ResultSet {
    /// The number of sizes that the series hold averages of.
    pub open spec fn len(&self) -> nat {
        self.selection_totals@.len()
    }

    /// All six series have the same length.
    pub open spec fn wf(&self) -> bool {
        &&& self.insertion_totals@.len() == self.len()
        &&& self.bubble_totals@.len() == self.len()
        &&& self.merge_totals@.len() == self.len()
        &&& self.heap1_totals@.len() == self.len()
        &&& self.heap2_totals@.len() == self.len()
    }

    /// The averages of the `k`-th size.
    pub open spec fn entry(&self, k: int) -> Timings {
        Timings {
            selection: self.selection_totals@[k],
            insertion: self.insertion_totals@[k],
            bubble: self.bubble_totals@[k],
            merge: self.merge_totals@[k],
            heap1: self.heap1_totals@[k],
            heap2: self.heap2_totals@[k],
        }
    }

    /// The series of no size.
    pub fn new() -> (results: ResultSet)
        ensures
            results.wf(),
            results.len() == 0,
    {
        ResultSet {
            selection_totals: Vec::new(),
            insertion_totals: Vec::new(),
            bubble_totals: Vec::new(),
            merge_totals: Vec::new(),
            heap1_totals: Vec::new(),
            heap2_totals: Vec::new(),
        }
    }

    /// Appends the averages of one more size, each to its series.
    pub fn push(&mut self, averages: &Timings)
        requires
            old(self).wf(),
        ensures
            final(self).wf(),
            final(self).len() == old(self).len() + 1,
            final(self).entry(old(self).len() as int) == *averages,
            forall|k: int| 0 <= k < old(self).len() ==> final(self).entry(k) == old(self).entry(k),
    {
        self.selection_totals.push(averages.selection);
        self.insertion_totals.push(averages.insertion);
        self.bubble_totals.push(averages.bubble);
        self.merge_totals.push(averages.merge);
        self.heap1_totals.push(averages.heap1);
        self.heap2_totals.push(averages.heap2);
    }
}

/// `f` has been called on a slice that held `input`.
pub open spec fn ran_on<F: Fn(&mut [i32])>(f: F, input: Seq<i32>) -> bool {
    exists|s: &mut [i32]| s@ == input && #[trigger] call_ensures(f, (s,), ())
}

/// `samples` are the samples of one trial on `input`: each of the six
/// algorithms has been called on a slice that held `input`, and no sample is
/// above what a timed call can be reported to have taken.
pub open spec fn trial_of(input: Seq<i32>, samples: Timings) -> bool {
    &&& samples.below(MAX_SAMPLE_NANOS as int)
    &&& ran_on(selection_sort::<i32>, input)
    &&& ran_on(insertion_sort::<i32>, input)
    &&& ran_on(bubble_sort::<i32>, input)
    &&& ran_on(merge_sort::<i32>, input)
    &&& ran_on(heap1_sort::<i32>, input)
    &&& ran_on(heap2_sort::<i32>, input)
}

/// What the samples of one algorithm add up to.
pub open spec fn total(samples: Seq<Timings>, algorithm: Algorithm) -> int
    decreases samples.len(),
{
    if samples.len() == 0 {
        0
    } else {
        total(samples.drop_last(), algorithm) + samples.last().of(algorithm)
    }
}

/// `averages` holds, for each algorithm, the average of its samples,
/// rounded down.
pub open spec fn averages_of(samples: Seq<Timings>, averages: Timings) -> bool {
    forall|algorithm: Algorithm|
        #[trigger] averages.of(algorithm) == total(samples, algorithm) / (samples.len() as int)
}

/// `samples` are the samples of trial after trial, each on the input of
/// `size` elements that stands at its place in `inputs`.
pub open spec fn trials_of(size: usize, inputs: Seq<Seq<i32>>, samples: Seq<Timings>) -> bool {
    &&& inputs.len() == samples.len()
    &&& forall|k: int|
        0 <= k < samples.len() ==> (#[trigger] inputs[k]).len() == size && trial_of(
            inputs[k],
            samples[k],
        )
}

/// Times each of the six algorithms once, each on a copy of `sample` of its
/// own.
pub fn time_trial(sample: &Vec<i32>) -> (samples: Timings)
    ensures
        trial_of(sample@, samples),
{
    proof {
        lemma_i32_order();
    }
    let mut copy = sample.clone();
    let selection = benchmark(copy.as_mut_slice(), selection_sort::<i32>);
    let mut copy = sample.clone();
    let insertion = benchmark(copy.as_mut_slice(), insertion_sort::<i32>);
    let mut copy = sample.clone();
    let bubble = benchmark(copy.as_mut_slice(), bubble_sort::<i32>);
    let mut copy = sample.clone();
    let merge = benchmark(copy.as_mut_slice(), merge_sort::<i32>);
    let mut copy = sample.clone();
    let heap1 = benchmark(copy.as_mut_slice(), heap1_sort::<i32>);
    let mut copy = sample.clone();
    let heap2 = benchmark(copy.as_mut_slice(), heap2_sort::<i32>);
    Timings { selection, insertion, bubble, merge, heap1, heap2 }
}

/// The average time of each algorithm on input of `size` elements, over
/// `trial_count` trials, each on fresh values drawn from the whole range of
/// the element type.
pub fn measure_size(size: usize, trial_count: usize, rng: &mut ThreadRng) -> (averages: Timings)
    requires
        trial_count > 0,
        trial_count * MAX_SAMPLE_NANOS <= u128::MAX,
    ensures
        averages.below(MAX_SAMPLE_NANOS as int),
        exists|inputs: Seq<Seq<i32>>, samples: Seq<Timings>|
            samples.len() == trial_count && #[trigger] trials_of(size, inputs, samples)
                && averages_of(samples, averages),
{
    let mut totals = Timings::zero();
    let mut vec: Vec<i32> = vec![0; size];
    let mut trial: usize = 0;
    let ghost mut inputs: Seq<Seq<i32>> = Seq::empty();
    let ghost mut taken: Seq<Timings> = Seq::empty();
    while trial < trial_count
        invariant
            trial <= trial_count,
            trial_count * MAX_SAMPLE_NANOS <= u128::MAX,
            totals.below(trial * MAX_SAMPLE_NANOS),
            vec@.len() == size,
            taken.len() == trial,
            trials_of(size, inputs, taken),
            forall|algorithm: Algorithm|
                #[trigger] totals.of(algorithm) == total(taken, algorithm),
        decreases trial_count - trial,
    {
        fill_random(vec.as_mut_slice(), rng, i32::MIN, i32::MAX);
        let samples = time_trial(&vec);
        proof {
            assert((trial + 1) * MAX_SAMPLE_NANOS == trial * MAX_SAMPLE_NANOS + MAX_SAMPLE_NANOS)
                by (nonlinear_arith);
            assert((trial + 1) * MAX_SAMPLE_NANOS <= trial_count * MAX_SAMPLE_NANOS)
                by (nonlinear_arith)
                requires
                    trial + 1 <= trial_count,
            ;
        }
        let ghost sums = totals;
        totals = totals.plus(&samples);
        proof {
            let before = taken;
            inputs = inputs.push(vec@);
            taken = taken.push(samples);
            assert(taken.drop_last() =~= before);
            assert forall|algorithm: Algorithm| #[trigger]
                totals.of(algorithm) == total(taken, algorithm) by {
                assert(sums.of(algorithm) == total(before, algorithm));
                assert(totals.of(algorithm) == sums.of(algorithm) + samples.of(algorithm));
            }
        }
        trial += 1;
    }
    let averages = totals.averaged(trial_count);
    proof {
        assert forall|algorithm: Algorithm| #[trigger]
            averages.of(algorithm) == total(taken, algorithm) / (taken.len() as int) by {
            assert(totals.of(algorithm) == total(taken, algorithm));
        }
        assert(trials_of(size, inputs, taken) && averages_of(taken, averages));
        let bound = MAX_SAMPLE_NANOS as int;
        lemma_average_below(totals.selection as int, trial_count as int, bound);
        lemma_average_below(totals.insertion as int, trial_count as int, bound);
        lemma_average_below(totals.bubble as int, trial_count as int, bound);
        lemma_average_below(totals.merge as int, trial_count as int, bound);
        lemma_average_below(totals.heap1 as int, trial_count as int, bound);
        lemma_average_below(totals.heap2 as int, trial_count as int, bound);
    }
    averages
}

/// Runs the experiment: for each size in turn, the averages are measured,
/// handed to `progress` with the size, and appended to the series.
pub fn worker<P: Fn(usize, &Timings)>(
    sizes: &Vec<usize>,
    config: &Config,
    rng: &mut ThreadRng,
    progress: P,
) -> (results: ResultSet)
    requires
        config.valid(),
        forall|size: usize, averages: &Timings|
            sizes@.contains(size) && averages.below(MAX_SAMPLE_NANOS as int) ==> #[trigger] call_requires(
                progress,
                (size, averages),
            ),
    ensures
        results.wf(),
        results.len() == sizes@.len(),
        forall|k: int|
            0 <= k < results.len() ==> (#[trigger] results.entry(k)).below(MAX_SAMPLE_NANOS as int),
{
    let mut results = ResultSet::new();
    let mut k: usize = 0;
    while k < sizes.len()
        invariant
            config.valid(),
            forall|size: usize, averages: &Timings|
                sizes@.contains(size) && averages.below(MAX_SAMPLE_NANOS as int)
                    ==> #[trigger] call_requires(progress, (size, averages)),
            k <= sizes@.len(),
            results.wf(),
            results.len() == k,
            forall|j: int|
                0 <= j < results.len() ==> (#[trigger] results.entry(j)).below(
                    MAX_SAMPLE_NANOS as int,
                ),
        decreases sizes@.len() - k,
    {
        let size = sizes[k];
        let averages = measure_size(size, config.trial_count, rng);
        assert(sizes@.contains(size)) by {
            assert(sizes@[k as int] == size);
        }
        progress(size, &averages);
        results.push(&averages);
        k += 1;
    }
    results
}

/// Runs the experiment over the series of sizes that `config` asks for.
pub fn worker_gen_sizes<P: Fn(usize, &Timings)>(
    config: &Config,
    rng: &mut ThreadRng,
    progress: P,
) -> (results: ResultSet)
    requires
        config.valid(),
        forall|size: usize, averages: &Timings|
            config.sizes().contains(size) && averages.below(MAX_SAMPLE_NANOS as int)
                ==> #[trigger] call_requires(progress, (size, averages)),
    ensures
        results.wf(),
        results.len() == config.sizes().len(),
        forall|k: int|
            0 <= k < results.len() ==> (#[trigger] results.entry(k)).below(MAX_SAMPLE_NANOS as int),
{
    let sizes = gen_sizes(config);
    worker(&sizes, config, rng, progress)
}

} // verus!
