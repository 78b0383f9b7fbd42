//! The check that is run once before anything is timed: every algorithm
//! sorts one small random sample, and the results are held against the sort
//! of the standard library.

use crate::bubble::bubble_sort;
use crate::heap::{heap1_sort, heap2_sort, HeapifiedSlice};
use crate::heap_model::{
    dominates, heap_below, inserted, is_heap, left_child, parent, right_child, settled,
};
use crate::insertion::insertion_sort;
use crate::merge::merge_sort;
use crate::order::{lemma_compare, lemma_i32_order, total_order};
use crate::random::fill_random;
use crate::selection::selection_sort;
use crate::sequence::{lemma_sorted_unique, permutation, sorted};
use rand::rngs::ThreadRng;
use vstd::prelude::*;

verus! {

/// The length of the sample.
pub const SAMPLE_LEN: usize = 20;

/// The least value that the sample may hold.
pub const SAMPLE_LOW: i32 = -100;

/// The greatest value that the sample may hold.
pub const SAMPLE_HIGH: i32 = 100;

/// What the check found wrong: the heap construction or the sort whose
/// result is not what it has to be.
#[derive(Clone, Copy, Debug, PartialEq, Eq)]
pub enum CorrectnessViolation {
    Heapify1,
    Heapify2,
    SelectionSort,
    InsertionSort,
    BubbleSort,
    MergeSort,
    Heap1Sort,
    Heap2Sort,
}

impl CorrectnessViolation {
    /// The words that name the violation.
    pub fn message(&self) -> (text: &'static str)
        ensures
            text@ == match *self {
                CorrectnessViolation::Heapify1 => "heapify_1 is incorrect!"@,
                CorrectnessViolation::Heapify2 => "heapify_2 is incorrect!"@,
                CorrectnessViolation::SelectionSort => "Selection sort is incorrect!"@,
                CorrectnessViolation::InsertionSort => "Insertion sort is incorrect!"@,
                CorrectnessViolation::BubbleSort => "Bubble sort is incorrect!"@,
                CorrectnessViolation::MergeSort => "Merge sort is incorrect!"@,
                CorrectnessViolation::Heap1Sort => "Heap v1 sort is incorrect!"@,
                CorrectnessViolation::Heap2Sort => "Heap v2 sort is incorrect!"@,
            },
    {
        match self {
            CorrectnessViolation::Heapify1 => "heapify_1 is incorrect!",
            CorrectnessViolation::Heapify2 => "heapify_2 is incorrect!",
            CorrectnessViolation::SelectionSort => "Selection sort is incorrect!",
            CorrectnessViolation::InsertionSort => "Insertion sort is incorrect!",
            CorrectnessViolation::BubbleSort => "Bubble sort is incorrect!",
            CorrectnessViolation::MergeSort => "Merge sort is incorrect!",
            CorrectnessViolation::Heap1Sort => "Heap v1 sort is incorrect!",
            CorrectnessViolation::Heap2Sort => "Heap v2 sort is incorrect!",
        }
    }
}

/// In a heap, every subtree is a heap.
pub proof fn lemma_heap_subtrees<T: Ord>(s: Seq<T>, top: int)
    requires
        is_heap(s),
        0 <= top,
    ensures
        heap_below(s, top),
    decreases s.len() - top,
{
    if top < s.len() {
        assert(dominates(s, top, s.len() as int));
        if left_child(top) < s.len() {
            lemma_heap_subtrees(s, left_child(top));
        }
        if right_child(top) < s.len() {
            lemma_heap_subtrees(s, right_child(top));
        }
    }
}

/// Where the tree below the top is a heap, so is the tree below every node.
proof fn lemma_node_subtree<T: Ord>(s: Seq<T>, i: int)
    requires
        heap_below(s, 0),
        0 <= i < s.len(),
    ensures
        heap_below(s, i),
    decreases i,
{
    if i > 0 {
        let p = parent(i);
        lemma_node_subtree(s, p);
        assert(left_child(p) == i || right_child(p) == i);
    }
}

/// A sequence whose tree below the top is a heap is a heap.
pub proof fn lemma_subtrees_heap<T: Ord>(s: Seq<T>)
    requires
        heap_below(s, 0),
    ensures
        is_heap(s),
{
    assert forall|i: int| 0 <= i < s.len() implies #[trigger] dominates(s, i, s.len() as int) by {
        lemma_node_subtree(s, i);
    }
}

/// Whether the subtree rooted at `top` is a max-heap: no child of `top` is
/// above it, and the subtrees rooted at its children are max-heaps. From the
/// top of the slice, this is whether the slice is a max-heap.
pub fn is_heapified<T: Ord>(slice: &[T], top: usize) -> (ok: bool)
    requires
        total_order::<T>(),
    ensures
        ok == heap_below(slice@, top as int),
        top == 0 ==> ok == is_heap(slice@),
    decreases slice@.len() - top,
{
    proof {
        if top == 0 {
            if is_heap(slice@) {
                lemma_heap_subtrees(slice@, 0);
            }
            if heap_below(slice@, 0) {
                lemma_subtrees_heap(slice@);
            }
        }
    }
    if top >= slice.len() / 2 {
        // no child lies in the slice
        return true;
    }
    let left = top * 2 + 1;
    let right = left + 1;
    proof {
        lemma_compare(slice@[left as int], slice@[top as int]);
    }
    if slice[left] > slice[top] || !is_heapified(slice, left) {
        return false;
    }
    if right < slice.len() {
        proof {
            lemma_compare(slice@[right as int], slice@[top as int]);
        }
        if slice[right] > slice[top] || !is_heapified(slice, right) {
            return false;
        }
    }
    true
}

/// What the check has computed of its sample.
#[derive(Debug)]
pub struct SelfCheck {
    /// The sample.
    pub sample: Vec<i32>,
    /// The heap built of it by insertion.
    pub heapified_1: Vec<i32>,
    /// The heap built of it from the bottom.
    pub heapified_2: Vec<i32>,
    /// The sample as the standard library sorts it.
    pub reference: Vec<i32>,
    pub selection_sorted: Vec<i32>,
    pub insertion_sorted: Vec<i32>,
    pub bubble_sorted: Vec<i32>,
    pub merge_sorted: Vec<i32>,
    pub heap1_sorted: Vec<i32>,
    pub heap2_sorted: Vec<i32>,
}

impl SelfCheck {
    /// The two heaps are the heaps of the sample, the reference is the
    /// sample in order, and every algorithm has arrived at the reference.
    pub open spec fn passed(&self) -> bool {
        &&& self.heapified_1@ == inserted(self.sample@, self.sample@.len() - 1)
        &&& self.heapified_2@ == settled(self.sample@, 0, self.sample@.len() as int / 2)
        &&& is_heap(self.heapified_1@)
        &&& is_heap(self.heapified_2@)
        &&& permutation(self.heapified_1@, self.sample@)
        &&& permutation(self.heapified_2@, self.sample@)
        &&& sorted(self.reference@)
        &&& permutation(self.reference@, self.sample@)
        &&& self.selection_sorted@ == self.reference@
        &&& self.insertion_sorted@ == self.reference@
        &&& self.bubble_sorted@ == self.reference@
        &&& self.merge_sorted@ == self.reference@
        &&& self.heap1_sorted@ == self.reference@
        &&& self.heap2_sorted@ == self.reference@
    }
}

/// A copy of `values`.
fn copy_of(values: &Vec<i32>) -> (copy: Vec<i32>)
    ensures
        copy@ == values@,
{
    let copy = values.clone();
    assert(copy@ =~= values@);
    copy
}

/// Builds both heaps of `sample` and sorts it with each of the six
/// algorithms and with the standard library, and holds the results against
/// what they have to be. No violation is ever found: the algorithms are
/// proved to do what is checked here.
pub fn check_sample(sample: &Vec<i32>) -> (outcome: Result<SelfCheck, CorrectnessViolation>)
    ensures
        outcome matches Ok(report) && report.sample@ == sample@ && report.passed(),
{
    proof {
        lemma_i32_order();
    }
    let mut heapified_1 = copy_of(sample);
    let mut heapified_2 = copy_of(sample);
    HeapifiedSlice::heapify_1(heapified_1.as_mut_slice());
    HeapifiedSlice::heapify_2(heapified_2.as_mut_slice());
    if !is_heapified(heapified_1.as_slice(), 0) {
        return Err(CorrectnessViolation::Heapify1);
    }
    if !is_heapified(heapified_2.as_slice(), 0) {
        return Err(CorrectnessViolation::Heapify2);
    }
    let mut reference = copy_of(sample);
    reference.as_mut_slice().sort();

    let mut selection_sorted = copy_of(sample);
    selection_sort(selection_sorted.as_mut_slice());
    let mut insertion_sorted = copy_of(sample);
    insertion_sort(insertion_sorted.as_mut_slice());
    let mut bubble_sorted = copy_of(sample);
    bubble_sort(bubble_sorted.as_mut_slice());
    let mut merge_sorted = copy_of(sample);
    merge_sort(merge_sorted.as_mut_slice());
    let mut heap1_sorted = copy_of(sample);
    heap1_sort(heap1_sorted.as_mut_slice());
    let mut heap2_sorted = copy_of(sample);
    heap2_sort(heap2_sorted.as_mut_slice());
    proof {
        lemma_sorted_unique(selection_sorted@, reference@);
        lemma_sorted_unique(insertion_sorted@, reference@);
        lemma_sorted_unique(bubble_sorted@, reference@);
        lemma_sorted_unique(merge_sorted@, reference@);
        lemma_sorted_unique(heap1_sorted@, reference@);
        lemma_sorted_unique(heap2_sorted@, reference@);
    }
    if !(reference == selection_sorted) {
        return Err(CorrectnessViolation::SelectionSort);
    }
    if !(reference == insertion_sorted) {
        return Err(CorrectnessViolation::InsertionSort);
    }
    if !(reference == bubble_sorted) {
        return Err(CorrectnessViolation::BubbleSort);
    }
    if !(reference == merge_sorted) {
        return Err(CorrectnessViolation::MergeSort);
    }
    if !(reference == heap1_sorted) {
        return Err(CorrectnessViolation::Heap1Sort);
    }
    if !(reference == heap2_sorted) {
        return Err(CorrectnessViolation::Heap2Sort);
    }
    Ok(
        SelfCheck {
            sample: copy_of(sample),
            heapified_1,
            heapified_2,
            reference,
            selection_sorted,
            insertion_sorted,
            bubble_sorted,
            merge_sorted,
            heap1_sorted,
            heap2_sorted,
        },
    )
}

/// Draws a sample of `SAMPLE_LEN` values from `SAMPLE_LOW` to `SAMPLE_HIGH`
/// and checks every algorithm on it; see [`check_sample`].
pub fn self_check(rng: &mut ThreadRng) -> (outcome: Result<SelfCheck, CorrectnessViolation>)
    ensures
        outcome matches Ok(report) && report.passed() && report.sample@.len() == SAMPLE_LEN
            && forall|i: int|
            0 <= i < SAMPLE_LEN ==> SAMPLE_LOW <= #[trigger] report.sample@[i] <= SAMPLE_HIGH,
{
    let mut vec: Vec<i32> = vec![0; SAMPLE_LEN];
    fill_random(vec.as_mut_slice(), rng, SAMPLE_LOW, SAMPLE_HIGH);
    check_sample(&vec)
}

} // verus!
