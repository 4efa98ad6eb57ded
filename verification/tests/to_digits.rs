use num_digitize::ToDigits;

#[test]
fn lib_test_zero() {
    let i = 0;
    let vector: Vec<i8> = vec![];
    assert_eq!(i.to_digits(), vector);
}

#[test]
fn lib_test_i8() {
    let i: i8 = 123;
    let vector: Vec<i8> = vec![1, 2, 3];
    assert_eq!(i.to_digits(), vector);
}

#[test]
fn lib_test_i8_negative() {
    let i: i8 = -56;
    let vector: Vec<i8> = vec![-5, -6];
    assert_eq!(i.to_digits(), vector);
}

#[test]
fn lib_test_i16() {
    let i: i16 = 12366;
    let vector: Vec<i8> = vec![1, 2, 3, 6, 6];
    assert_eq!(i.to_digits(), vector);
}

#[test]
fn lib_test_i32() {
    let i: i32 = 4555;
    let vector: Vec<i8> = vec![4, 5, 5, 5];
    assert_eq!(i.to_digits(), vector);
}

#[test]
fn lib_test_i64() {
    let i: i64 = 45559;
    let vector: Vec<i8> = vec![4, 5, 5, 5, 9];
    assert_eq!(i.to_digits(), vector);
}

#[test]
fn lib_test_isize() {
    let i: isize = 4555934;
    let vector: Vec<i8> = vec![4, 5, 5, 5, 9, 3, 4];
    assert_eq!(i.to_digits(), vector);
}

#[test]
fn lib_test_u8() {
    let i: u8 = 255;
    let vector: Vec<i8> = vec![2, 5, 5];
    assert_eq!(i.to_digits(), vector);
}

#[test]
fn lib_test_u16() {
    let i: u16 = 25945;
    let vector: Vec<i8> = vec![2, 5, 9, 4, 5];
    assert_eq!(i.to_digits(), vector);
}

#[test]
fn lib_test_u32() {
    let i: u32 = 2591222345;
    let vector: Vec<i8> = vec![2, 5, 9, 1, 2, 2, 2, 3, 4, 5];
    assert_eq!(i.to_digits(), vector);
}

#[test]
fn lib_test_u64() {
    let i: u64 = 12341234765432;
    let vector: Vec<i8> = vec![1, 2, 3, 4, 1, 2, 3, 4, 7, 6, 5, 4, 3, 2];
    assert_eq!(i.to_digits(), vector);
}

#[test]
fn lib_test_usize() {
    let i: usize = 1234567890;
    let vector: Vec<i8> = vec![1, 2, 3, 4, 5, 6, 7, 8, 9, 0];
    assert_eq!(i.to_digits(), vector);
}
