use phantom_cipher::report::{failures, tally};

#[test]
fn counts_successes_and_failures() {
    assert_eq!(tally(&[]), (0, 0));
    assert_eq!(tally(&[true, false, true]), (2, 1));
    assert_eq!(tally(&[false, false]), (0, 2));
}

#[test]
fn lists_failures_in_order() {
    assert_eq!(failures(&[]), Vec::<usize>::new());
    assert_eq!(failures(&[true, false, true, false]), vec![1, 3]);
    assert_eq!(failures(&[true]), Vec::<usize>::new());
}
