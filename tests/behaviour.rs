use uintarray::{UintArray, UintArrayError};

#[test]
fn from_raw_rejects_length_over_capacity() {
    assert_eq!(Err(UintArrayError::InvalidLength), UintArray::from_raw(69421));
}

#[test]
fn from_raw_keeps_raw_word() {
    let a = UintArray::new_size(4).unwrap().extend(&[3, 1, 4]).unwrap();
    assert_eq!(Ok(a), UintArray::from_raw(a.raw_value()));
}

#[test]
fn new_size_rejects_too_large() {
    assert_eq!(Err(UintArrayError::SizeTooLarge), UintArray::new_size(128));
}

#[test]
fn new_size_rejects_not_power_of_two() {
    assert_eq!(Err(UintArrayError::NotPowerOfTwo), UintArray::new_size(15));
    assert_eq!(Err(UintArrayError::NotPowerOfTwo), UintArray::new_size(0));
}

#[test]
fn new_size_every_width_is_empty() {
    for width in [1usize, 2, 4, 8, 16, 32, 64] {
        let a = UintArray::new_size(width).unwrap();
        assert_eq!(width as u128, a.size());
        assert_eq!(0, a.len());
    }
}

#[test]
fn new_for_wide_type_is_too_large() {
    assert_eq!(Err(UintArrayError::SizeTooLarge), UintArray::new::<u128>());
    assert_eq!(8, UintArray::new::<u8>().unwrap().size());
}

#[test]
fn append_beyond_capacity_fails() {
    let a = UintArray::new::<u64>().unwrap();
    assert_eq!(1, a.cap());
    let a = a.append(0).unwrap();
    assert_eq!(Err(UintArrayError::CapacityExceeded), a.append(0));
    assert_eq!(Err(UintArrayError::CapacityExceeded), a.insert(0, 0));
}

#[test]
fn append_value_too_wide_fails() {
    let a = UintArray(524_314);
    assert_eq!(Err(UintArrayError::ValueOutOfRange), a.append(16));
    assert_eq!(Err(UintArrayError::ValueOutOfRange), a.insert(1, 16));
}

#[test]
fn length_field_caps_narrow_widths() {
    let ones = [1u128; 31];
    let a = UintArray::new_size(1).unwrap().extend(&ones).unwrap();
    assert_eq!(31, a.len());
    assert_eq!(120, a.cap());
    assert_eq!(Err(UintArrayError::CapacityExceeded), a.append(1));
    assert_eq!(Err(UintArrayError::CapacityExceeded), UintArray::new_size(1).unwrap().extend(&[0u128; 32]));
}

#[test]
fn extend_errors() {
    let a = UintArray(524_314);
    let cycle: Vec<u128> = (0..30).map(|i| i % 15).collect();
    assert_eq!(Err(UintArrayError::CapacityExceeded), a.extend(&cycle));
    let many: Vec<u128> = (0..100).collect();
    assert_eq!(Err(UintArrayError::CapacityExceeded), a.extend(&many));
    let wide: Vec<u128> = (16..200).collect();
    assert_eq!(Err(UintArrayError::CapacityExceeded), a.extend(&wide));
    assert_eq!(Err(UintArrayError::ValueOutOfRange), a.extend(&[1, 16, 2]));
}

#[test]
fn extend_to_exact_capacity() {
    let a = UintArray::new_size(16).unwrap();
    let full = a.extend(&[1, 2, 3, 4, 5, 6, 7]).unwrap();
    assert_eq!(7, full.len());
    assert_eq!(Some(7), full.at(6));
    assert_eq!(a, a.extend(&[]).unwrap());
}

#[test]
fn append_then_last() {
    let a = UintArray(524_314);
    let b = a.append(9).unwrap();
    assert_eq!(a.len() + 1, b.len());
    assert_eq!(Some(9), b.at(b.len() - 1));
}

#[test]
fn insert_shifts_later_elements() {
    let a = UintArray::new_size(8).unwrap().extend(&[10, 20, 30]).unwrap();
    let b = a.insert(1, 15).unwrap();
    assert_eq!(Some(10), b.at(0));
    assert_eq!(Some(15), b.at(1));
    assert_eq!(Some(20), b.at(2));
    assert_eq!(Some(30), b.at(3));
    let c = a.insert(99, 40).unwrap();
    assert_eq!(Some(40), c.at(3));
}

#[test]
fn pop_then_insert_restores() {
    let a = UintArray::new_size(8).unwrap().extend(&[10, 20, 30]).unwrap();
    for pos in 0..3 {
        let (b, item) = a.pop(pos);
        let c = b.insert(pos, item.unwrap()).unwrap();
        assert_eq!(a.0, c.0);
    }
}

#[test]
fn remove_absent_is_no_op() {
    let a = UintArray::new_size(8).unwrap().extend(&[1, 2, 1]).unwrap();
    assert_eq!(a, a.remove(7));
    let b = a.remove(1);
    assert_eq!(Some(2), b.at(0));
    assert_eq!(Some(1), b.at(1));
    assert_eq!(2, b.len());
}

#[test]
fn clear_keeps_size() {
    let a = UintArray::new::<u8>().unwrap().append(15).unwrap().append(14).unwrap().clear();
    assert_eq!(0, a.len());
    assert_eq!(8, a.size());
}

#[test]
fn aggregate_and_count() {
    let a = UintArray::new::<u8>().unwrap().extend(&[1, 2, 1, 1]).unwrap();
    assert_eq!(3, a.count(1));
    assert_eq!(5, a.aggregate(|x| x));
    assert_eq!(10, a.aggregate(|x| x * 2));
}

#[test]
fn format_of_empty_width_four() {
    let a = UintArray::new_size(4).unwrap();
    let text = a.format();
    assert_eq!(128 + 4 + 28, text.len());
    assert!(text.ends_with("0000 0000 0000 0000 0000 0000 0000 0010\n"));
}
