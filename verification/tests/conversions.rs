use dns_resolver::conversions::{bool_to_u16, u16_to_bool, u16_to_u8, u32_to_u8, u8_slice_to_u32, u8_to_u16};

#[test]
fn u32_to_u8_test() {
    let num_1 = 0b11110000111100001111000011110000;
    let num_2 = 0b10101010101010101010101010101010;
    let num_3 = 0b11101100100000001110110010000000;
    assert_eq!(u32_to_u8(num_1), [0b11110000; 4]);
    assert_eq!(u32_to_u8(num_2), [0b10101010; 4]);
    assert_eq!(u32_to_u8(num_3), [0b11101100, 0b10000000, 0b11101100, 0b10000000]);
}

#[test]
fn u8_to_u32_test() {
    let nums_1 = [0b11110000; 4];
    let nums_2 = [0b10101010; 4];
    let nums_3 = [0b11101100, 0b10000000, 0b11101100, 0b10000000];
    assert_eq!(u8_slice_to_u32(&nums_1), 0b11110000111100001111000011110000);
    assert_eq!(u8_slice_to_u32(&nums_2), 0b10101010101010101010101010101010);
    assert_eq!(u8_slice_to_u32(&nums_3), 0b11101100100000001110110010000000);
}

#[test]
fn u16_to_u8_test() {
    let num_1 = 0b1111000011110000;
    let num_2 = 0b1010101010101010;
    let num_3 = 0b1110110010000000;
    assert_eq!(u16_to_u8(num_1), [0b11110000; 2]);
    assert_eq!(u16_to_u8(num_2), [0b10101010, 0b10101010]);
    assert_eq!(u16_to_u8(num_3), [0b11101100, 0b10000000]);
}

#[test]
fn u8_to_u16_test() {
    let nums_1 = [0b11110000; 2];
    let nums_2 = [0b10101010, 0b10101010];
    let nums_3 = [0b11101100, 0b10000000];
    assert_eq!(u8_to_u16(nums_1), 0b1111000011110000);
    assert_eq!(u8_to_u16(nums_2), 0b1010101010101010);
    assert_eq!(u8_to_u16(nums_3), 0b1110110010000000);
}

#[test]
fn bool_to_u16_test() {
    let val_true = true;
    let val_false = false;
    assert_eq!(bool_to_u16(val_true), 1);
    assert_eq!(bool_to_u16(val_false), 0);
}

#[test]
fn u16_to_bool_in_range_test() {
    assert_eq!(u16_to_bool(1), true);
    assert_eq!(u16_to_bool(0), false);
}
