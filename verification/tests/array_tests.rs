use agg::array::{binary_search_pos, invert_container, quick_sort, remove_duplicates};

#[test]
fn test_quick_sort_basic() {
    let mut arr = [5, 3, 8, 1, 9, 2, 7, 4, 6, 0];
    quick_sort(&mut arr, &|a: &i32, b: &i32| *a < *b);
    assert_eq!(arr, [0, 1, 2, 3, 4, 5, 6, 7, 8, 9]);
}

#[test]
fn test_quick_sort_already_sorted() {
    let mut arr = [0, 1, 2, 3, 4];
    quick_sort(&mut arr, &|a: &i32, b: &i32| *a < *b);
    assert_eq!(arr, [0, 1, 2, 3, 4]);
}

#[test]
fn test_quick_sort_reverse() {
    let mut arr = [9, 8, 7, 6, 5, 4, 3, 2, 1, 0];
    quick_sort(&mut arr, &|a: &i32, b: &i32| *a < *b);
    assert_eq!(arr, [0, 1, 2, 3, 4, 5, 6, 7, 8, 9]);
}

#[test]
fn test_quick_sort_empty_and_single() {
    let mut empty: [i32; 0] = [];
    quick_sort(&mut empty, &|a: &i32, b: &i32| *a < *b);

    let mut single = [42];
    quick_sort(&mut single, &|a: &i32, b: &i32| *a < *b);
    assert_eq!(single, [42]);
}

#[test]
fn test_quick_sort_small_partition() {
    let mut arr = [5, 3, 1, 4, 2];
    quick_sort(&mut arr, &|a: &i32, b: &i32| *a < *b);
    assert_eq!(arr, [1, 2, 3, 4, 5]);
}

#[test]
fn test_quick_sort_large() {
    let mut arr: Vec<i32> = (0..100).rev().collect();
    quick_sort(&mut arr, &|a: &i32, b: &i32| *a < *b);
    let expected: Vec<i32> = (0..100).collect();
    assert_eq!(arr, expected);
}

#[test]
fn quick_sort_keeps_duplicates_and_sorts_descending_order() {
    let mut arr: Vec<i32> = vec![3, 1, 4, 1, 5, 9, 2, 6, 5, 3, 5, 8, 9, 7, 9, 3, 2, 3, 8, 4];
    quick_sort(&mut arr, &|a: &i32, b: &i32| *a > *b);
    assert_eq!(arr, vec![9, 9, 9, 8, 8, 7, 6, 5, 5, 5, 4, 4, 3, 3, 3, 3, 2, 2, 1, 1]);
}

#[test]
fn test_remove_duplicates() {
    let mut arr = [1, 1, 2, 3, 3, 3, 4, 5, 5];
    let n = remove_duplicates(&mut arr, &|a: &i32, b: &i32| *a == *b);
    assert_eq!(n, 5);
    assert_eq!(&arr[..n], &[1, 2, 3, 4, 5]);
}

#[test]
fn test_remove_duplicates_no_dups() {
    let mut arr = [1, 2, 3, 4, 5];
    let n = remove_duplicates(&mut arr, &|a: &i32, b: &i32| *a == *b);
    assert_eq!(n, 5);
}

#[test]
fn test_remove_duplicates_all_same() {
    let mut arr = [1, 1, 1, 1];
    let n = remove_duplicates(&mut arr, &|a: &i32, b: &i32| *a == *b);
    assert_eq!(n, 1);
}

#[test]
fn remove_duplicates_leaves_the_tail_in_place() {
    let mut arr = [1, 1, 2, 2, 3];
    let n = remove_duplicates(&mut arr, &|a: &i32, b: &i32| *a == *b);
    assert_eq!(n, 3);
    assert_eq!(arr, [1, 2, 3, 2, 3]);
}

#[test]
fn test_invert_container() {
    let mut arr = [1, 2, 3, 4, 5];
    invert_container(&mut arr);
    assert_eq!(arr, [5, 4, 3, 2, 1]);
}

#[test]
fn test_binary_search_pos() {
    let arr = [10, 20, 30, 40, 50];
    assert_eq!(binary_search_pos(&arr, &0, &|a: &i32, b: &i32| *a < *b), 0);
    assert_eq!(binary_search_pos(&arr, &25, &|a: &i32, b: &i32| *a < *b), 2);
    assert_eq!(binary_search_pos(&arr, &60, &|a: &i32, b: &i32| *a < *b), 5);
}

#[test]
fn binary_search_pos_places_equal_values_after_their_run() {
    let arr = [10, 20, 20, 20, 30];
    assert_eq!(binary_search_pos(&arr, &20, &|a: &i32, b: &i32| *a < *b), 4);
    let empty: [i32; 0] = [];
    assert_eq!(binary_search_pos(&empty, &20, &|a: &i32, b: &i32| *a < *b), 0);
}

#[test]
fn quick_sort_leaves_equal_keys_in_its_own_order() {
    let keys = [3, 1, 2, 3, 1, 2, 3, 1, 2, 0, 3, 1, 2, 3, 1, 2, 0, 0, 3, 2, 1, 2, 3, 1];
    let mut v: Vec<(i32, usize)> = keys.iter().enumerate().map(|(t, &k)| (k, t)).collect();
    quick_sort(&mut v, &|a: &(i32, usize), b: &(i32, usize)| a.0 < b.0);
    let tags: Vec<usize> = v.iter().map(|p| p.1).collect();
    assert_eq!(
        tags,
        vec![9, 17, 16, 1, 20, 14, 11, 23, 7, 4, 19, 12, 21, 5, 15, 8, 2, 22, 3, 18, 10, 13, 0, 6]
    );
}
