use sbat::{ParseError, SliceVec, Veclike};

fn check_fixed_size(vec: &mut dyn Veclike<u8>) {
    assert!(vec.as_slice().is_empty());

    assert!(vec.try_push(1).is_ok());
    assert_eq!(vec.as_slice(), [1]);

    assert!(vec.try_push(2).is_ok());
    assert_eq!(vec.as_slice(), [1, 2]);

    assert!(vec.try_push(3).is_err());
    assert_eq!(vec.as_slice(), [1, 2]);

    vec.clear();
    assert!(vec.as_slice().is_empty());
}

#[test]
fn slice_vec() {
    let mut array = [0u8; 2usize];
    let mut sv = SliceVec::new(&mut array);
    check_fixed_size(&mut sv);
}

fn check_dynamic_size(vec: &mut dyn Veclike<u8>) {
    assert!(vec.as_slice().is_empty());

    assert!(vec.try_push(1).is_ok());
    assert_eq!(vec.as_slice(), [1]);

    assert!(vec.try_push(2).is_ok());
    assert_eq!(vec.as_slice(), [1, 2]);

    vec.clear();
    assert!(vec.as_slice().is_empty());
}

#[test]
fn vec_vec() {
    let mut v = Vec::new();
    check_dynamic_size(&mut v);
}

#[test]
fn slice_vec_full_push_reports_too_many_records() {
    let mut array = [7u8; 1];
    let mut sv = SliceVec::new(&mut array);
    assert!(sv.as_slice().is_empty());
    assert_eq!(sv.try_push(1), Ok(()));
    assert_eq!(sv.try_push(2), Err(ParseError::TooManyRecords));
    assert_eq!(sv.as_slice(), [1]);
}

#[test]
fn slice_vec_without_room() {
    let mut array: [u8; 0] = [];
    let mut sv = SliceVec::new(&mut array);
    assert_eq!(sv.try_push(1), Err(ParseError::TooManyRecords));
    assert!(sv.as_slice().is_empty());
}
