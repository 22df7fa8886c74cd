use clrs::chapter2::{
    bubble_sort, insertion_sort, linear_search, merge_sort, recursive_insertion_sort, selection_sort, sum_array,
    sum_array_with_initial_value,
};

#[test]
fn test_insertion_sort() {
    let mut arr = vec![5, 2, 4, 6, 1, 3];
    insertion_sort(&mut arr);
    assert!(arr.is_sorted());
}

#[test]
fn test_selection_sort() {
    let mut arr = vec![5, 2, 4, 6, 1, 3];
    selection_sort(&mut arr);
    assert!(arr.is_sorted());
}

#[test]
fn test_recursive_insertion_sort() {
    let mut arr = vec![5, 2, 4, 6, 1, 3];
    recursive_insertion_sort(&mut arr);
    assert!(arr.is_sorted());
}

#[test]
fn test_bubble_sort() {
    let mut arr = vec![5, 2, 4, 6, 1, 3];
    bubble_sort(&mut arr);
    assert!(arr.is_sorted());
}

#[test]
fn test_merge_sort() {
    let mut arr = vec![5, 2, 4, 6, 1, 3];
    merge_sort(&mut arr);
    assert!(arr.is_sorted());
}

#[test]
fn test_sum_array() {
    let arr = vec![1, 2, 3, 4, 5];
    let initial_value = 10;
    let sum = sum_array_with_initial_value(&arr, initial_value);
    assert_eq!(sum, initial_value + arr.iter().sum::<i32>());
}

#[test]
fn test_linear_search() {
    let arr = vec![1, 2, 3, 4, 5];
    let target = 3;
    let index = linear_search(&arr, &target);
    assert_eq!(index, Some(2));
    let index = linear_search(&arr, &10);
    assert_eq!(index, None);
}

fn all_sorts() -> Vec<fn(&mut [i32])> {
    vec![insertion_sort, recursive_insertion_sort, selection_sort, bubble_sort, merge_sort]
}

#[test]
fn sorts_give_the_exact_sorted_permutation() {
    for sort in all_sorts() {
        let mut arr = vec![5, 2, 4, 6, 1, 3];
        sort(&mut arr);
        assert_eq!(arr, vec![1, 2, 3, 4, 5, 6]);
    }
}

#[test]
fn sorts_keep_duplicates_and_negatives() {
    for sort in all_sorts() {
        let mut arr = vec![3, -1, 3, 0, -7, 3, 0, i32::MAX, i32::MIN];
        sort(&mut arr);
        assert_eq!(arr, vec![i32::MIN, -7, -1, 0, 0, 3, 3, 3, i32::MAX]);
    }
}

#[test]
fn sorts_accept_empty_and_single_element_slices() {
    for sort in all_sorts() {
        let mut empty: Vec<i32> = vec![];
        sort(&mut empty);
        assert!(empty.is_empty());
        let mut one = vec![42];
        sort(&mut one);
        assert_eq!(one, vec![42]);
    }
}

#[test]
fn sorts_order_short_slices() {
    for sort in all_sorts() {
        let mut two = vec![2, 1];
        sort(&mut two);
        assert_eq!(two, vec![1, 2]);
        let mut three = vec![5, 1, 3];
        sort(&mut three);
        assert_eq!(three, vec![1, 3, 5]);
        let mut reversed = vec![9, 8, 7, 6, 5, 4, 3, 2, 1, 0];
        sort(&mut reversed);
        assert_eq!(reversed, vec![0, 1, 2, 3, 4, 5, 6, 7, 8, 9]);
    }
}

#[test]
fn sum_array_adds_from_zero() {
    assert_eq!(sum_array(&[1, 2, 3, 4, 5]), 15);
    assert_eq!(sum_array(&[]), 0);
    assert_eq!(sum_array(&[-4, 9, -5]), 0);
}

#[test]
fn sum_with_initial_value_on_empty_is_initial() {
    assert_eq!(sum_array_with_initial_value(&[], 7), 7);
    assert_eq!(sum_array_with_initial_value(&[1, 2], -3), 0);
}

#[test]
fn linear_search_finds_first_occurrence() {
    let arr = [4, 7, 7, 1, 7];
    assert_eq!(linear_search(&arr, &7), Some(1));
    assert_eq!(linear_search(&arr, &4), Some(0));
    assert_eq!(linear_search(&[], &4), None);
}
