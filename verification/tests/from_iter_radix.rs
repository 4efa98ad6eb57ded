use num_digitize::FromIterRadix;

#[test]
fn test_vector_i8() {
    let i = 12345678;
    let result = i8::from_iter_radix(&vec![1, 2, 3, 4, 5, 6, 7, 8], 10);
    assert_eq!(i, result);
}

#[test]
fn test_slice_i8() {
    let i = 12345678;
    let result = i8::from_iter_radix(&[1, 2, 3, 4, 5, 6, 7, 8], 10);
    assert_eq!(i, result);
}
