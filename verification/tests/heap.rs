use sort_bench::heap::{heap1_sort, heap2_sort, HeapifiedSlice};
use sort_bench::self_check::is_heapified;

fn is_max_heap(values: &[i32]) -> bool {
    (0..values.len()).all(|i| {
        let left = 2 * i + 1;
        let right = 2 * i + 2;
        (left >= values.len() || values[i] >= values[left])
            && (right >= values.len() || values[i] >= values[right])
    })
}

fn scrambled(len: usize) -> Vec<i32> {
    let mut state: u32 = 99;
    let mut values = Vec::with_capacity(len);
    for _ in 0..len {
        state = state.wrapping_mul(1_664_525).wrapping_add(1_013_904_223);
        values.push(((state >> 10) % 201) as i32 - 100);
    }
    values
}

#[test]
fn the_top_has_no_parent() {
    assert_eq!(HeapifiedSlice::<i32>::get_heap_parent(0), None);
}

#[test]
fn the_parent_is_half_of_one_less() {
    assert_eq!(HeapifiedSlice::<i32>::get_heap_parent(1), Some(0));
    assert_eq!(HeapifiedSlice::<i32>::get_heap_parent(2), Some(0));
    assert_eq!(HeapifiedSlice::<i32>::get_heap_parent(3), Some(1));
    assert_eq!(HeapifiedSlice::<i32>::get_heap_parent(4), Some(1));
    assert_eq!(HeapifiedSlice::<i32>::get_heap_parent(5), Some(2));
    assert_eq!(HeapifiedSlice::<i32>::get_heap_parent(6), Some(2));
    assert_eq!(HeapifiedSlice::<i32>::get_heap_parent(usize::MAX), Some((usize::MAX - 1) / 2));
}

#[test]
fn sifting_up_stops_below_a_parent_that_is_not_smaller() {
    let mut values = vec![9, 5, 8, 1, 7];
    HeapifiedSlice::fix_heap_bottom_to_top(&mut values, 4);
    assert_eq!(values, vec![9, 7, 8, 1, 5]);
}

#[test]
fn sifting_up_reaches_the_top() {
    let mut values = vec![9, 5, 8, 1, 10];
    HeapifiedSlice::fix_heap_bottom_to_top(&mut values, 4);
    assert_eq!(values, vec![10, 9, 8, 1, 5]);
}

#[test]
fn sifting_up_leaves_an_equal_parent() {
    let mut values = vec![5, 5];
    HeapifiedSlice::fix_heap_bottom_to_top(&mut values, 1);
    assert_eq!(values, vec![5, 5]);
}

#[test]
fn sifting_up_leaves_what_is_behind() {
    let mut values = vec![1, 2, 100, 200];
    HeapifiedSlice::fix_heap_bottom_to_top(&mut values, 1);
    assert_eq!(values, vec![2, 1, 100, 200]);
}

#[test]
fn sifting_down_follows_the_greater_child() {
    let mut values = vec![1, 9, 8, 4, 7, 6, 5];
    HeapifiedSlice::fix_heap_top_to_bottom(&mut values, 0, 7);
    assert_eq!(values, vec![9, 7, 8, 4, 1, 6, 5]);
}

#[test]
fn sifting_down_prefers_the_left_of_equal_children() {
    let mut values = vec![1, 5, 5];
    HeapifiedSlice::fix_heap_top_to_bottom(&mut values, 0, 3);
    assert_eq!(values, vec![5, 1, 5]);
}

#[test]
fn sifting_down_leaves_a_top_that_is_not_smaller() {
    let mut values = vec![5, 5, 5];
    HeapifiedSlice::fix_heap_top_to_bottom(&mut values, 0, 3);
    assert_eq!(values, vec![5, 5, 5]);
    let mut values = vec![7, 3, 6];
    HeapifiedSlice::fix_heap_top_to_bottom(&mut values, 0, 3);
    assert_eq!(values, vec![7, 3, 6]);
}

#[test]
fn sifting_down_with_one_child() {
    let mut values = vec![1, 2];
    HeapifiedSlice::fix_heap_top_to_bottom(&mut values, 0, 2);
    assert_eq!(values, vec![2, 1]);
    let mut values = vec![9, 1, 8, 3];
    HeapifiedSlice::fix_heap_top_to_bottom(&mut values, 1, 4);
    assert_eq!(values, vec![9, 3, 8, 1]);
}

#[test]
fn sifting_down_stays_within_the_heap() {
    // the heap ends before the 50, which is above everything
    let mut values = vec![1, 3, 50];
    HeapifiedSlice::fix_heap_top_to_bottom(&mut values, 0, 2);
    assert_eq!(values, vec![3, 1, 50]);
    let mut values = vec![1, 3, 50];
    HeapifiedSlice::fix_heap_top_to_bottom(&mut values, 0, 1);
    assert_eq!(values, vec![1, 3, 50]);
    let mut values = vec![1, 3, 50];
    HeapifiedSlice::fix_heap_top_to_bottom(&mut values, 0, 0);
    assert_eq!(values, vec![1, 3, 50]);
}

#[test]
fn sifting_down_from_behind_the_heap_does_nothing() {
    let mut values = vec![1, 2, 3];
    HeapifiedSlice::fix_heap_top_to_bottom(&mut values, 2, 3);
    assert_eq!(values, vec![1, 2, 3]);
    HeapifiedSlice::fix_heap_top_to_bottom(&mut values, usize::MAX, 3);
    assert_eq!(values, vec![1, 2, 3]);
}

#[test]
fn two_elements_in_heap_order_stay() {
    let mut values = vec![2, 1];
    HeapifiedSlice::heapify_1(&mut values);
    assert_eq!(values, vec![2, 1]);
    let mut values = vec![2, 1];
    HeapifiedSlice::heapify_2(&mut values);
    assert_eq!(values, vec![2, 1]);
}

#[test]
fn heap_sort_of_two_elements() {
    let mut values = vec![2, 1];
    HeapifiedSlice::heapify_1(&mut values).sort();
    assert_eq!(values, vec![1, 2]);
    let mut values = vec![2, 1];
    HeapifiedSlice::heapify_2(&mut values).sort();
    assert_eq!(values, vec![1, 2]);
}

#[test]
fn heap_operations_leave_a_single_element() {
    let mut values = vec![1];
    HeapifiedSlice::heapify_1(&mut values);
    assert_eq!(values, vec![1]);
    HeapifiedSlice::heapify_2(&mut values);
    assert_eq!(values, vec![1]);
    HeapifiedSlice::heapify_1(&mut values).sort();
    assert_eq!(values, vec![1]);
    HeapifiedSlice::fix_heap_bottom_to_top(&mut values, 0);
    assert_eq!(values, vec![1]);
    HeapifiedSlice::fix_heap_top_to_bottom(&mut values, 0, 1);
    assert_eq!(values, vec![1]);
}

#[test]
fn heap_operations_leave_an_empty_slice() {
    let mut values: Vec<i32> = Vec::new();
    HeapifiedSlice::heapify_1(&mut values).sort();
    assert!(values.is_empty());
    HeapifiedSlice::heapify_2(&mut values).sort();
    assert!(values.is_empty());
    HeapifiedSlice::fix_heap_top_to_bottom(&mut values, 0, 0);
    assert!(values.is_empty());
}

#[test]
fn insertion_builds_this_heap() {
    let mut values = vec![1, 2, 3, 4, 5];
    HeapifiedSlice::heapify_1(&mut values);
    assert_eq!(values, vec![5, 4, 2, 1, 3]);
}

#[test]
fn the_bottom_up_construction_builds_this_heap() {
    let mut values = vec![1, 2, 3, 4, 5];
    HeapifiedSlice::heapify_2(&mut values);
    assert_eq!(values, vec![5, 4, 3, 1, 2]);
}

#[test]
fn both_constructions_build_a_heap_of_the_same_elements() {
    for len in [1usize, 2, 3, 4, 5, 6, 7, 8, 20, 63, 64, 65, 200] {
        let input = scrambled(len);
        let mut expected = input.clone();
        expected.sort();

        let mut first = input.clone();
        HeapifiedSlice::heapify_1(&mut first);
        assert!(is_max_heap(&first), "insertion, {} elements", len);
        assert!(is_heapified(&first, 0));
        first.sort();
        assert_eq!(first, expected);

        let mut second = input.clone();
        HeapifiedSlice::heapify_2(&mut second);
        assert!(is_max_heap(&second), "bottom up, {} elements", len);
        assert!(is_heapified(&second, 0));
        second.sort();
        assert_eq!(second, expected);
    }
}

#[test]
fn sorting_a_heap_agrees_with_the_standard_sort() {
    // a max-heap written out by hand
    let mut values = vec![90, 70, 80, 30, 60, 80, 10, 20, 30];
    assert!(is_max_heap(&values));
    let mut expected = values.clone();
    expected.sort();
    HeapifiedSlice { slice: &mut values }.sort();
    assert_eq!(values, expected);
    assert_eq!(values, vec![10, 20, 30, 30, 60, 70, 80, 80, 90]);
}

#[test]
fn the_heap_lends_the_slice_it_was_built_over() {
    let mut values = vec![3, 1, 2];
    {
        let heap = HeapifiedSlice::heapify_2(&mut values);
        assert_eq!(heap.slice.len(), 3);
        assert_eq!(heap.slice[0], 3);
    }
    assert_eq!(values, vec![3, 1, 2]);
}

#[test]
fn the_heap_sorts_agree() {
    let input = scrambled(150);
    let mut first = input.clone();
    let mut second = input.clone();
    heap1_sort(&mut first);
    heap2_sort(&mut second);
    assert_eq!(first, second);
}

#[test]
fn a_heap_is_told_from_what_is_none() {
    assert!(is_heapified(&[9, 5, 8, 1, 4, 7], 0));
    assert!(is_heapified::<i32>(&[], 0));
    assert!(is_heapified(&[1], 0));
    assert!(is_heapified(&[2, 2, 2], 0));
    // the left child is above the top
    assert!(!is_heapified(&[1, 2], 0));
    // the right child is above the top
    assert!(!is_heapified(&[5, 4, 6], 0));
    // a grandchild on the right is above its parent
    assert!(!is_heapified(&[9, 8, 7, 1, 2, 3, 8], 0));
    // a grandchild on the left is above its parent
    assert!(!is_heapified(&[9, 5, 7, 6], 0));
}

#[test]
fn the_subtree_alone_is_looked_at() {
    // the tree is no heap, the subtree below node 1 is one
    let values = [1, 8, 9, 3, 4];
    assert!(!is_heapified(&values, 0));
    assert!(is_heapified(&values, 1));
    assert!(is_heapified(&values, 2));
    assert!(is_heapified(&values, 99));
}
