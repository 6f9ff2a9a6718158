use bitpack::Bitfield;
use bitpack::BitpackError;

#[test]
fn test_new_bitfield() {
    let bitfield = Bitfield::new(128);
    assert_eq!(bitfield.parts.len(), 2); // 128 bits should be in 2 u64s
    assert_eq!(bitfield.parts[0], 0);
    assert_eq!(bitfield.parts[1], 0);
}

#[test]
fn test_set_out_of_bounds() {
    let mut bitfield = Bitfield::new(64);
    let r = bitfield.set(64, true); // Out of bounds
    assert_eq!(r, Err(BitpackError::IndexOutOfRange { index: 64, word_count: 1 }));
    assert_eq!(bitfield.parts, vec![0]); // storage untouched
}

#[test]
fn test_get_out_of_bounds() {
    let bitfield = Bitfield::new(64);
    let r = bitfield.get(64); // Out of bounds
    assert_eq!(r, Err(BitpackError::IndexOutOfRange { index: 64, word_count: 1 }));
}

#[test]
fn test_set_and_get() {
    let mut bitfield = Bitfield::new(128);

    // Set some bits
    bitfield.set(0, true).unwrap();
    bitfield.set(63, true).unwrap();
    bitfield.set(64, true).unwrap();
    bitfield.set(127, true).unwrap();

    // Get and assert the bits
    assert_eq!(bitfield.get(0).unwrap(), true);
    assert_eq!(bitfield.get(63).unwrap(), true);
    assert_eq!(bitfield.get(64).unwrap(), true);
    assert_eq!(bitfield.get(127).unwrap(), true);

    // Assert some bits are false
    assert_eq!(bitfield.get(1).unwrap(), false);
    assert_eq!(bitfield.get(62).unwrap(), false);
    assert_eq!(bitfield.get(65).unwrap(), false);
    assert_eq!(bitfield.get(126).unwrap(), false);
}

#[test]
fn test_set_and_get_multiple_parts() {
    let mut bitfield = Bitfield::new(130); // More than one u64 part

    // Set some bits
    bitfield.set(64, true).unwrap(); // This should go into the second u64 part
    bitfield.set(128, true).unwrap(); // This should go into the third part

    // Get and assert the bits
    assert_eq!(bitfield.get(64).unwrap(), true);
    assert_eq!(bitfield.get(128).unwrap(), true);

    // Assert some bits are false
    assert_eq!(bitfield.get(0).unwrap(), false);
    assert_eq!(bitfield.get(63).unwrap(), false);
    assert_eq!(bitfield.get(65).unwrap(), false);
}

#[test]
fn test_set_bits() {
    let mut bitfield = Bitfield::new(64);

    bitfield.set(3, true).unwrap();
    bitfield.set(7, true).unwrap();
    bitfield.set(63, true).unwrap();

    assert_eq!(bitfield.parts[0], (1 << 3) | (1 << 7) | (1 << 63));
}

#[test]
fn test_get_bits() {
    let mut bitfield = Bitfield::new(64);

    bitfield.set(10, true).unwrap();
    bitfield.set(11, true).unwrap();

    assert_eq!(bitfield.get(10).unwrap(), true);
    assert_eq!(bitfield.get(11).unwrap(), true);
    assert_eq!(bitfield.get(12).unwrap(), false);
}

#[test]
fn test_bitfield_addressing() {
    let mut bitfield = Bitfield::new(128);
    assert_eq!(bitfield.parts.len(), 2);
    bitfield.set(64, true).unwrap();
    assert_eq!(bitfield.get(64).unwrap(), true);
    assert_eq!(bitfield.get(63).unwrap(), false);
    let r = bitfield.set(130, true); // 130 exceeds the capacity of new(128)
    assert_eq!(r, Err(BitpackError::IndexOutOfRange { index: 130, word_count: 2 }));
}

#[test]
fn test_set_same_value_twice_identical_storage() {
    let mut bitfield = Bitfield::new(128);
    bitfield.set(70, true).unwrap();
    let once = bitfield.parts.clone();
    bitfield.set(70, true).unwrap();
    assert_eq!(bitfield.parts, once);

    bitfield.set(70, false).unwrap();
    let cleared_once = bitfield.parts.clone();
    bitfield.set(70, false).unwrap();
    assert_eq!(bitfield.parts, cleared_once);
}

#[test]
fn test_new_zero_bits_has_no_words() {
    let bitfield = Bitfield::new(0);
    assert_eq!(bitfield.parts.len(), 0);
    let bitfield = Bitfield::new(1);
    assert_eq!(bitfield.parts.len(), 1);
    let bitfield = Bitfield::new(65);
    assert_eq!(bitfield.parts.len(), 2);
}
