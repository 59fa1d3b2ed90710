use input_loop::series::{fibonacci, FIRST_SEED, SECOND_SEED};

#[test]
fn five_terms_from_zero_and_one() {
    assert_eq!(fibonacci(0, 1, 5), Some(vec![0, 1, 1, 2, 3]));
}

#[test]
fn the_fibonacci_numbers_start_from_zero_and_one() {
    assert_eq!((FIRST_SEED, SECOND_SEED), (0, 1));
    assert_eq!(fibonacci(FIRST_SEED, SECOND_SEED, 8), Some(vec![0, 1, 1, 2, 3, 5, 8, 13]));
}

#[test]
fn no_terms_for_size_zero() {
    assert_eq!(fibonacci(0, 1, 0), Some(vec![]));
}

#[test]
fn no_terms_for_a_negative_size() {
    assert_eq!(fibonacci(0, 1, -1), Some(vec![]));
    assert_eq!(fibonacci(0, 1, i32::MIN), Some(vec![]));
}

#[test]
fn one_term_is_the_first_seed() {
    assert_eq!(fibonacci(0, 1, 1), Some(vec![0]));
    assert_eq!(fibonacci(7, 9, 1), Some(vec![7]));
}

#[test]
fn two_terms_are_the_seeds() {
    assert_eq!(fibonacci(0, 1, 2), Some(vec![0, 1]));
    assert_eq!(fibonacci(7, -9, 2), Some(vec![7, -9]));
}

#[test]
fn ten_terms_from_zero_and_one() {
    assert_eq!(fibonacci(0, 1, 10), Some(vec![0, 1, 1, 2, 3, 5, 8, 13, 21, 34]));
}

#[test]
fn other_seeds_give_their_own_series() {
    assert_eq!(fibonacci(2, 1, 6), Some(vec![2, 1, 3, 4, 7, 11]));
    assert_eq!(fibonacci(-1, -1, 5), Some(vec![-1, -1, -2, -3, -5]));
    assert_eq!(fibonacci(5, -3, 6), Some(vec![5, -3, 2, -1, 1, 0]));
    assert_eq!(fibonacci(0, 0, 4), Some(vec![0, 0, 0, 0]));
}

#[test]
fn each_term_is_the_sum_of_the_two_before() {
    for size in 0..=47 {
        let terms = fibonacci(0, 1, size).expect("the first 47 terms fit");
        assert_eq!(terms.len(), size as usize);
        if size >= 1 {
            assert_eq!(terms[0], 0);
        }
        if size >= 2 {
            assert_eq!(terms[1], 1);
        }
        for i in 2..terms.len() {
            assert_eq!(terms[i] as i64, terms[i - 2] as i64 + terms[i - 1] as i64);
        }
    }
}

#[test]
fn forty_seven_terms_are_the_most_that_fit() {
    let terms = fibonacci(0, 1, 47).expect("the first 47 terms fit");
    assert_eq!(terms.len(), 47);
    assert_eq!(terms[45], 1134903170);
    assert_eq!(terms[46], 1836311903);
    assert_eq!(fibonacci(0, 1, 48), None);
    assert_eq!(fibonacci(0, 1, 1000), None);
    assert_eq!(fibonacci(0, 1, i32::MAX), None);
}

#[test]
fn a_term_below_the_smallest_number_is_refused() {
    assert_eq!(fibonacci(i32::MIN, -1, 2), Some(vec![i32::MIN, -1]));
    assert_eq!(fibonacci(i32::MIN, -1, 3), None);
    assert_eq!(fibonacci(i32::MAX, 1, 3), None);
    assert_eq!(fibonacci(i32::MAX, 0, 3), Some(vec![i32::MAX, 0, i32::MAX]));
    assert_eq!(fibonacci(i32::MAX, 0, 4), Some(vec![i32::MAX, 0, i32::MAX, i32::MAX]));
    assert_eq!(fibonacci(i32::MAX, 0, 5), None);
}

#[test]
fn the_same_request_gives_the_same_series() {
    assert_eq!(fibonacci(0, 1, 30), fibonacci(0, 1, 30));
    assert_eq!(fibonacci(0, 1, 60), fibonacci(0, 1, 60));
}
