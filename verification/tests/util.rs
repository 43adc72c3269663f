use loveletter::util::{maxima_by, other, subtract_vector};

#[test]
fn test_vector_diff_trivial() {
    let xs: Vec<i32> = vec![];
    let ys: [i32; 0] = [];
    assert_eq!(Some(vec![]), subtract_vector(xs, &ys))
}

#[test]
fn test_vector_diff_identity() {
    let xs: Vec<i32> = vec![1, 2, 3];
    let ys: [i32; 0] = [];
    assert_eq!(Some(vec![1, 2, 3]), subtract_vector(xs, &ys))
}

#[test]
fn test_vector_diff_removes() {
    let xs: Vec<i32> = vec![1, 2, 3];
    let ys = [2];
    assert_eq!(Some(vec![1, 3]), subtract_vector(xs, &ys))
}

#[test]
fn test_vector_diff_only_removes_one() {
    let xs: Vec<i32> = vec![1, 2, 3, 2];
    let ys = [2];
    assert_eq!(Some(vec![1, 3, 2]), subtract_vector(xs, &ys))
}

#[test]
fn test_vector_diff_contains_excess_elements() {
    let xs: Vec<i32> = vec![1, 2, 3, 2];
    let ys = [2, 2, 2];
    assert_eq!(None, subtract_vector(xs, &ys))
}

#[test]
fn test_vector_diff_contains_novel_elements() {
    let xs: Vec<i32> = vec![1, 2, 3, 2];
    let ys = [4];
    assert_eq!(None, subtract_vector(xs, &ys))
}

#[test]
fn test_other_one() {
    assert_eq!(None, other((1, 2), 0));
    assert_eq!(Some(2), other((1, 2), 1));
    assert_eq!(Some(1), other((1, 2), 2));
}

#[test]
fn test_maxima_by_no_data() {
    let xs: Vec<i32> = vec![];
    let empty: Vec<&i32> = vec![];
    assert_eq!(empty, maxima_by(&xs, |&x| x));
}

#[test]
fn test_maxima_by_id_function() {
    let xs: Vec<i32> = vec![1, 2, 3, 2, 3, 1];
    assert_eq!(vec![&xs[2], &xs[4]], maxima_by(&xs, |&x| x));
}

#[test]
fn test_maxima_by_interesting_function() {
    let xs = vec!["hello", "cat", "dog", "world"];
    assert_eq!(vec![&xs[0], &xs[3]], maxima_by(&xs, |&x| x.len()));
}

// What is left after subtracting is the multiset difference, in the order they had.
#[test]
fn vector_diff_is_multiset_difference() {
    let xs: Vec<i32> = vec![5, 1, 5, 2, 5];
    let ys = [5, 2, 5];
    assert_eq!(Some(vec![1, 5]), subtract_vector(xs, &ys));
}

#[test]
fn other_of_equal_pair() {
    assert_eq!(Some(3), other((3, 3), 3));
}

#[test]
fn maxima_by_single_maximum() {
    let xs: Vec<i32> = vec![4, 9, 2];
    assert_eq!(vec![&xs[1]], maxima_by(&xs, |&x| x));
}

#[test]
fn maxima_by_all_equal() {
    let xs: Vec<i32> = vec![7, 7, 7];
    assert_eq!(vec![&xs[0], &xs[1], &xs[2]], maxima_by(&xs, |&x| x));
}
