use datum_rs::{DatumArray, DatumBuffer, DatumFixedArray, DatumFixedBuffer, DatumNoRoomError, DatumPushable};

fn array_i_test<A: DatumArray<u8> + Clone>(mut array: A) {
    assert_eq!(array.len(), 0);
    assert_eq!(array.push(0), Ok(()));
    assert!(!array.is_empty());
    assert_eq!(array.len(), 1);
    assert_eq!(array.push(1), Ok(()));
    assert_eq!(array.len(), 2);
    assert_eq!(array.clone().pop(), Some(1));
    assert!(!array.is_empty());
    assert_eq!(array.len(), 2);
    assert_eq!(array.pop(), Some(1));
    assert_eq!(array.len(), 1);
    assert_eq!(array.pop(), Some(0));
    assert_eq!(array.len(), 0);
    assert_eq!(array.pop(), None);
    assert!(array.is_empty());
}

fn array_2_test<A: DatumArray<u8> + Clone>(mut array: A) {
    assert_eq!(array.len(), 0);
    assert_eq!(array.push(0), Ok(()));
    assert!(!array.is_empty());
    assert_eq!(array.len(), 1);
    assert_eq!(array.push(1), Ok(()));
    assert_eq!(array.len(), 2);
    assert_eq!(array.push(2), Err(DatumNoRoomError));
    assert_eq!(array.clone().pop(), Some(1));
    assert!(!array.is_empty());
    assert_eq!(array.len(), 2);
    assert_eq!(array.pop(), Some(1));
    assert_eq!(array.len(), 1);
    assert_eq!(array.pop(), Some(0));
    assert_eq!(array.len(), 0);
    assert_eq!(array.pop(), None);
    assert!(array.is_empty());
}

#[test]
fn array_tests() {
    let array: DatumFixedArray<u8, 2> = DatumFixedArray::default();
    array_2_test(array);
    array_i_test(Vec::new());
}

#[test]
fn fixed_array_iterates_in_order() {
    let mut array: DatumFixedArray<u8, 3> = DatumFixedArray::default();
    assert_eq!(array.push(7), Ok(()));
    assert_eq!(array.push(8), Ok(()));
    let mut it = array.into_iter();
    assert_eq!(it.next(), Some(7));
    assert_eq!(it.next(), Some(8));
    assert_eq!(it.next(), None);
}

#[test]
fn fixed_buffer_refuses_past_capacity() {
    let mut example: DatumFixedBuffer<3> = DatumFixedBuffer::default();
    assert!(example.push(1));
    assert!(example.push(2));
    assert!(example.push(3));
    assert!(!example.push(4));
    assert_eq!(example.len(), 3);
    assert_eq!(example.as_slice(), &[1, 2, 3]);
    example.truncate(0);
    assert_eq!(example.len(), 0);
    example.truncate(2);
    assert_eq!(example.len(), 0);
}
