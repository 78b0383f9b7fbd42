use sort_bench::bubble::{bubble_sort, bubble_sort_counting};
use sort_bench::heap::{heap1_sort, heap2_sort};
use sort_bench::insertion::insertion_sort;
use sort_bench::merge::{merge, merge_sort};
use sort_bench::selection::selection_sort;

fn algorithms() -> Vec<(&'static str, fn(&mut [i32]))> {
    vec![
        ("selection", selection_sort::<i32> as fn(&mut [i32])),
        ("insertion", insertion_sort::<i32> as fn(&mut [i32])),
        ("bubble", bubble_sort::<i32> as fn(&mut [i32])),
        ("merge", merge_sort::<i32> as fn(&mut [i32])),
        ("heap v1", heap1_sort::<i32> as fn(&mut [i32])),
        ("heap v2", heap2_sort::<i32> as fn(&mut [i32])),
    ]
}

/// A fixed sequence of values that looks shuffled.
fn scrambled(len: usize) -> Vec<i32> {
    let mut state: u32 = 12345;
    let mut values = Vec::with_capacity(len);
    for _ in 0..len {
        state = state.wrapping_mul(1_103_515_245).wrapping_add(12_345);
        values.push(((state >> 8) % 2001) as i32 - 1000);
    }
    values
}

#[test]
fn each_algorithm_sorts_the_mixed_sample() {
    for (name, sort) in algorithms() {
        let mut values = vec![5, -3, 0, 0, 17, -3];
        sort(&mut values);
        assert_eq!(values, vec![-3, -3, 0, 0, 5, 17], "{}", name);
    }
}

#[test]
fn a_single_element_stays() {
    for (name, sort) in algorithms() {
        let mut values = vec![1];
        sort(&mut values);
        assert_eq!(values, vec![1], "{}", name);
    }
}

#[test]
fn an_empty_slice_stays() {
    for (name, sort) in algorithms() {
        let mut values: Vec<i32> = Vec::new();
        sort(&mut values);
        assert!(values.is_empty(), "{}", name);
    }
}

#[test]
fn two_elements_out_of_order_change_place() {
    for (name, sort) in algorithms() {
        let mut values = vec![2, 1];
        sort(&mut values);
        assert_eq!(values, vec![1, 2], "{}", name);
    }
}

#[test]
fn each_algorithm_agrees_with_the_standard_sort() {
    for len in [2usize, 3, 4, 5, 7, 8, 16, 33, 100, 257] {
        let input = scrambled(len);
        let mut expected = input.clone();
        expected.sort();
        for (name, sort) in algorithms() {
            let mut values = input.clone();
            sort(&mut values);
            assert_eq!(values, expected, "{} on {} elements", name, len);
        }
    }
}

#[test]
fn the_result_is_in_order_and_holds_the_same_elements() {
    let input = scrambled(64);
    for (name, sort) in algorithms() {
        let mut values = input.clone();
        sort(&mut values);
        assert!(values.windows(2).all(|pair| pair[0] <= pair[1]), "{}", name);
        for value in -1000..=1000 {
            let before = input.iter().filter(|x| **x == value).count();
            let after = values.iter().filter(|x| **x == value).count();
            assert_eq!(before, after, "{} on {}", name, value);
        }
    }
}

#[test]
fn sorted_input_is_left_as_it_is() {
    let input: Vec<i32> = vec![-7, -7, -2, 0, 1, 1, 3, 9, 40];
    for (name, sort) in algorithms() {
        let mut values = input.clone();
        sort(&mut values);
        assert_eq!(values, input, "{}", name);
    }
}

#[test]
fn reversed_input_is_sorted() {
    for (name, sort) in algorithms() {
        let mut values: Vec<i32> = (0..50).rev().collect();
        sort(&mut values);
        assert_eq!(values, (0..50).collect::<Vec<i32>>(), "{}", name);
    }
}

#[test]
fn equal_elements_are_sorted() {
    for (name, sort) in algorithms() {
        let mut values = vec![4; 9];
        sort(&mut values);
        assert_eq!(values, vec![4; 9], "{}", name);
    }
}

#[test]
fn the_extremes_of_the_type_are_sorted() {
    for (name, sort) in algorithms() {
        let mut values = vec![i32::MAX, 0, i32::MIN, -1, i32::MAX, i32::MIN];
        sort(&mut values);
        assert_eq!(values, vec![i32::MIN, i32::MIN, -1, 0, i32::MAX, i32::MAX], "{}", name);
    }
}

#[test]
fn other_element_types_are_sorted() {
    let mut words = vec!["pear", "apple", "fig", "apple", "kiwi"];
    selection_sort(&mut words);
    assert_eq!(words, vec!["apple", "apple", "fig", "kiwi", "pear"]);

    let mut words = vec!["pear", "apple", "fig", "apple", "kiwi"];
    heap2_sort(&mut words);
    assert_eq!(words, vec!["apple", "apple", "fig", "kiwi", "pear"]);

    let mut pairs = vec![(2u8, 'b'), (1, 'z'), (2, 'a'), (0, 'q')];
    merge_sort(&mut pairs);
    assert_eq!(pairs, vec![(0, 'q'), (1, 'z'), (2, 'a'), (2, 'b')]);

    let mut owned = vec![String::from("b"), String::from("a"), String::from("c")];
    insertion_sort(&mut owned);
    assert_eq!(owned, vec!["a", "b", "c"]);

    let mut owned = vec![String::from("b"), String::from("a"), String::from("c")];
    bubble_sort(&mut owned);
    assert_eq!(owned, vec!["a", "b", "c"]);

    let mut owned = vec![String::from("b"), String::from("a"), String::from("c")];
    heap1_sort(&mut owned);
    assert_eq!(owned, vec!["a", "b", "c"]);
}

#[test]
fn bubble_sort_makes_one_pass_over_sorted_input() {
    let mut values = vec![1, 2, 3, 4, 5, 6];
    assert_eq!(bubble_sort_counting(&mut values), 1);
    assert_eq!(values, vec![1, 2, 3, 4, 5, 6]);

    let mut values = vec![3];
    assert_eq!(bubble_sort_counting(&mut values), 1);
    assert_eq!(values, vec![3]);
}

#[test]
fn bubble_sort_makes_no_pass_over_nothing() {
    let mut values: Vec<i32> = Vec::new();
    assert_eq!(bubble_sort_counting(&mut values), 0);
}

#[test]
fn bubble_sort_counts_its_passes() {
    // one pass brings the 1 to the front, the second finds nothing to do
    let mut values = vec![2, 1, 3];
    assert_eq!(bubble_sort_counting(&mut values), 2);
    assert_eq!(values, vec![1, 2, 3]);

    // a reversed slice takes as many passes as it has elements
    let mut values = vec![4, 3, 2, 1];
    assert_eq!(bubble_sort_counting(&mut values), 4);
    assert_eq!(values, vec![1, 2, 3, 4]);
}

#[test]
fn insertion_sort_moves_an_element_to_the_front() {
    let mut values = vec![2, 3, 4, 1];
    insertion_sort(&mut values);
    assert_eq!(values, vec![1, 2, 3, 4]);
}

#[test]
fn merge_takes_the_smaller_head_first() {
    let mut buff = Vec::new();
    merge(&[1, 3, 5], &[2, 4, 6, 8], &mut buff);
    assert_eq!(buff, vec![1, 2, 3, 4, 5, 6, 8]);
}

#[test]
fn merge_prefers_the_left_side_on_ties() {
    let mut buff = Vec::new();
    merge(&[(1, 'l'), (2, 'l')], &[(1, 'r'), (2, 'r')], &mut buff);
    // the tuples order by their letter too, so compare by the number alone
    let mut keyed: Vec<Keyed> = Vec::new();
    merge(
        &[Keyed(1, 'l'), Keyed(2, 'l')],
        &[Keyed(1, 'r'), Keyed(2, 'r')],
        &mut keyed,
    );
    let letters: Vec<char> = keyed.iter().map(|k| k.1).collect();
    assert_eq!(letters, vec!['l', 'r', 'l', 'r']);
    assert_eq!(buff, vec![(1, 'l'), (1, 'r'), (2, 'l'), (2, 'r')]);
}

#[test]
fn merge_appends_to_what_the_buffer_holds() {
    let mut buff = vec![9, 9];
    merge(&[2], &[1], &mut buff);
    assert_eq!(buff, vec![9, 9, 1, 2]);
}

#[test]
fn merge_of_an_empty_side_is_the_other_side() {
    let mut buff = Vec::new();
    merge(&[], &[3, 1], &mut buff);
    assert_eq!(buff, vec![3, 1]);
    let mut buff = Vec::new();
    merge(&[3, 1], &[], &mut buff);
    assert_eq!(buff, vec![3, 1]);
}

/// A number with a letter that takes no part in the order.
#[derive(Clone, Copy, Debug)]
struct Keyed(i32, char);

impl PartialEq for Keyed {
    fn eq(&self, other: &Keyed) -> bool {
        self.0 == other.0
    }
}

impl Eq for Keyed {}

impl PartialOrd for Keyed {
    fn partial_cmp(&self, other: &Keyed) -> Option<std::cmp::Ordering> {
        Some(self.cmp(other))
    }
}

impl Ord for Keyed {
    fn cmp(&self, other: &Keyed) -> std::cmp::Ordering {
        self.0.cmp(&other.0)
    }
}

#[test]
fn elements_that_compare_equal_may_change_place() {
    // in order already, and still selection sort exchanges the two
    let mut values = vec![Keyed(1, 'a'), Keyed(1, 'b')];
    selection_sort(&mut values);
    let letters: Vec<char> = values.iter().map(|k| k.1).collect();
    assert_eq!(letters, vec!['b', 'a']);
}

fn letters(values: &[Keyed]) -> String {
    values.iter().map(|k| k.1).collect()
}

#[test]
fn insertion_sort_keeps_equal_elements_in_their_order() {
    let mut values = vec![Keyed(1, 'a'), Keyed(0, 'x'), Keyed(1, 'b'), Keyed(0, 'y'), Keyed(1, 'c')];
    insertion_sort(&mut values);
    assert_eq!(letters(&values), "xyabc");
}

#[test]
fn bubble_sort_keeps_equal_elements_in_their_order() {
    let mut values = vec![Keyed(1, 'a'), Keyed(0, 'x'), Keyed(1, 'b'), Keyed(0, 'y'), Keyed(1, 'c')];
    bubble_sort(&mut values);
    assert_eq!(letters(&values), "xyabc");
}

#[test]
fn merge_sort_merges_its_halves() {
    // the halves are [2, 1] and [3, 0, 1], the second again [3] and [0, 1]
    let mut values = vec![Keyed(2, 'a'), Keyed(1, 'b'), Keyed(3, 'c'), Keyed(0, 'd'), Keyed(1, 'e')];
    merge_sort(&mut values);
    assert_eq!(letters(&values), "dbeac");
}

#[test]
fn selection_sort_moves_the_first_of_the_greatest() {
    // the first 2 goes to the end, then the second 2 before it
    let mut values = vec![Keyed(2, 'a'), Keyed(2, 'b'), Keyed(1, 'c')];
    selection_sort(&mut values);
    assert_eq!(letters(&values), "cba");
}

#[test]
fn heap_sort_takes_the_heap_apart_from_the_top() {
    // a heap already: the top changes place with the last element, which
    // stays on top of its equal, and then changes place with it in turn
    let mut values = vec![Keyed(3, 'a'), Keyed(2, 'b'), Keyed(2, 'c')];
    heap1_sort(&mut values);
    assert_eq!(letters(&values), "bca");
}
