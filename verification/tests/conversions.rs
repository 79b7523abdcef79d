use compute::signed::GarbledInt;
use compute::uint::GarbledUint;

#[test]
fn test_from_negative_i8() {
    let a: GarbledInt<8> = GarbledInt::from_i8(-2_i8); // Two's complement binary for -2 is 11111110
    let result: i8 = a.to_i8();
    assert_eq!(result, -2_i8);
}

#[test]
fn test_from_positive_i8() {
    let a: GarbledInt<8> = GarbledInt::from_i8(3_i8); // Binary for 3 is 00000011
    let result: i8 = a.to_i8();
    assert_eq!(result, 3);
}

#[test]
fn test_from_negative_i16() {
    // Two's complement binary for -21845 is 1010101010101011
    let a: GarbledInt<16> = GarbledInt::from_i16(-21845_i16);
    let result: i16 = a.to_i16();
    assert_eq!(result, -21845);
}

#[test]
fn test_from_positive_i16() {
    let a: GarbledInt<16> = GarbledInt::from_i16(21845_i16); // Binary for 21845 is 0101010101010101
    let result: i16 = a.to_i16();
    assert_eq!(result, 21845);
}

#[test]
fn test_from_negative_i32() {
    let a: GarbledInt<32> = GarbledInt::from_i32(-1431655765_i32);
    let result: i32 = a.to_i32();
    assert_eq!(result, -1431655765);
}

#[test]
fn test_from_positive_i32() {
    let a: GarbledInt<32> = GarbledInt::from_i32(1431655765_i32);
    let result: i32 = a.to_i32();
    assert_eq!(result, 1431655765);
}

#[test]
fn test_from_negative_i64() {
    let a: GarbledInt<64> = GarbledInt::from_i64(-6148914691236517205_i64);
    let result: i64 = a.to_i64();
    assert_eq!(result, -6148914691236517205);
}

#[test]
fn test_from_positive_i64() {
    let a: GarbledInt<64> = GarbledInt::from_i64(6148914691236517205_i64);
    let result: i64 = a.to_i64();
    assert_eq!(result, 6148914691236517205);
}

#[test]
fn test_from_negative_i128() {
    let a: GarbledInt<128> = GarbledInt::from_i128(-6148914691236517205_i128);
    let result: i128 = a.to_i128();
    assert_eq!(result, -6148914691236517205);
}

#[test]
fn test_from_positive_i128() {
    let a: GarbledInt<128> = GarbledInt::from_i128(6148914691236517205_i128);
    let result: i128 = a.to_i128();
    assert_eq!(result, 6148914691236517205);
}

#[test]
fn test_from_uint_to_int_i8() {
    let uint: GarbledUint<8> = GarbledUint::from_u8(170_u8); // 10101010 (unsigned)
    let int: GarbledInt<8> = GarbledInt::from_uint(uint); // -86 in two's complement
    let result: i8 = int.to_i8();
    assert_eq!(result, 170_u8 as i8);
}

#[test]
fn test_from_uint_to_int_i16() {
    let uint: GarbledUint<16> = GarbledUint::from_u16(43707_u16); // 0xAABB (unsigned)
    let int: GarbledInt<16> = GarbledInt::from_uint(uint); // -21829 in two's complement
    let result: i16 = int.to_i16();
    assert_eq!(result, 43707_u16 as i16);
}

#[test]
fn test_from_uint_to_int_i32() {
    let uint: GarbledUint<32> = GarbledUint::from_u32(2863311530_u32);
    let int: GarbledInt<32> = GarbledInt::from_uint(uint);
    let result: i32 = int.to_i32();
    assert_eq!(result, 2863311530_u32 as i32);
}

#[test]
fn test_from_uint_to_int_i64() {
    let uint: GarbledUint<64> = GarbledUint::from_u64(12297829382473034410_u64);
    let int: GarbledInt<64> = GarbledInt::from_uint(uint);
    let result: i64 = int.to_i64();
    assert_eq!(result, 12297829382473034410_u64 as i64);
}

#[test]
fn test_from_uint_to_int_i128() {
    let uint: GarbledUint<128> = GarbledUint::from_u128(12297829382473034410_u128);
    let int: GarbledInt<128> = GarbledInt::from_uint(uint);
    let result: i128 = int.to_i128();
    assert_eq!(result, 12297829382473034410_u128 as i128);
}

#[test]
fn test_signed_round_trip_small_widths() {
    let a: GarbledInt<4> = GarbledInt::from_i8(-2_i8);
    assert_eq!(a.to_i8(), -2_i8);
    let b: GarbledInt<1> = GarbledInt::from_i8(-1_i8);
    assert_eq!(b.to_i8(), -1_i8);
    let c: GarbledInt<2> = GarbledInt::from_i8(1_i8);
    assert_eq!(c.to_i8(), 1_i8);
}

#[test]
fn test_unsigned_round_trip_all_widths() {
    assert_eq!(GarbledUint::<8>::from_u8(255).to_u8(), 255);
    assert_eq!(GarbledUint::<16>::from_u16(65535).to_u16(), 65535);
    assert_eq!(GarbledUint::<32>::from_u32(4000000000).to_u32(), 4000000000);
    assert_eq!(GarbledUint::<64>::from_u64(u64::MAX).to_u64(), u64::MAX);
    assert_eq!(GarbledUint::<128>::from_u128(u128::MAX).to_u128(), u128::MAX);
    assert_eq!(GarbledUint::<1>::from_u8(1).to_u8(), 1);
    assert_eq!(GarbledUint::<8>::from_u8(0).to_u8(), 0);
}

#[test]
fn test_encode_is_lsb_first() {
    let a = GarbledUint::<8>::from_u8(170); // 10101010, LSB first: 0,1,0,1,0,1,0,1
    assert_eq!(
        a.bits,
        vec![false, true, false, true, false, true, false, true]
    );
    let b = GarbledInt::<8>::from_i8(-2); // 11111110, LSB first: 0 then seven 1s
    assert_eq!(b.bits, vec![false, true, true, true, true, true, true, true]);
}
