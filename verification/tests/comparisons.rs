use compute::circuit::eval_circuit;
use compute::uint::comparator_circuit;
use compute::uint::equality_circuit;
use compute::uint::order_of_bits;
use compute::uint::CmpOrder;
use compute::uint::GarbledUint;

#[test]
fn test_uint_equality() {
    let a: GarbledUint<8> = GarbledUint::from_u8(123_u8);
    let b: GarbledUint<8> = GarbledUint::from_u8(123_u8);
    let c: GarbledUint<8> = GarbledUint::from_u8(124_u8);

    assert!(a.equals(&b).unwrap());
    assert!(!a.equals(&c).unwrap());
}

#[test]
fn test_unsigned_comparison() {
    let a: GarbledUint<8> = GarbledUint::from_u8(100_u8);
    let b: GarbledUint<8> = GarbledUint::from_u8(150_u8);

    assert_eq!(a.compare(&b).unwrap(), CmpOrder::Less);
    assert_eq!(b.compare(&a).unwrap(), CmpOrder::Greater);
    assert!(!a.equals(&b).unwrap());

    let c: GarbledUint<8> = GarbledUint::from_u8(200_u8);
    let d: GarbledUint<8> = GarbledUint::from_u8(200_u8);

    assert_eq!(c.compare(&d).unwrap(), CmpOrder::Equal);
    assert!(c.compare(&d).unwrap() != CmpOrder::Greater);
    assert!(c.compare(&d).unwrap() != CmpOrder::Less);
}

#[test]
fn test_uint_edge_cases() {
    let zero: GarbledUint<8> = GarbledUint::from_u8(0_u8);
    let max: GarbledUint<8> = GarbledUint::from_u8(u8::MAX);

    assert_eq!(zero.compare(&max).unwrap(), CmpOrder::Less);
    assert_eq!(max.compare(&zero).unwrap(), CmpOrder::Greater);
    assert!(!zero.equals(&max).unwrap());
}

#[test]
fn test_uint_larger_comparison() {
    let a16: GarbledUint<16> = GarbledUint::from_u16(1000_u16);
    let b16: GarbledUint<16> = GarbledUint::from_u16(2000_u16);
    assert_eq!(a16.compare(&b16).unwrap(), CmpOrder::Less);

    let a32: GarbledUint<32> = GarbledUint::from_u32(10000_u32);
    let b32: GarbledUint<32> = GarbledUint::from_u32(20000_u32);
    assert_eq!(a32.compare(&b32).unwrap(), CmpOrder::Less);

    let a64: GarbledUint<64> = GarbledUint::from_u64(10000000000_u64);
    let b64: GarbledUint<64> = GarbledUint::from_u64(20000000000_u64);
    assert_eq!(a64.compare(&b64).unwrap(), CmpOrder::Less);

    let a128: GarbledUint<128> = GarbledUint::from_u128(100000000000000000000_u128);
    let b128: GarbledUint<128> = GarbledUint::from_u128(200000000000000000000_u128);
    assert_eq!(a128.compare(&b128).unwrap(), CmpOrder::Less);
}

#[test]
fn test_order_of_bits_decision() {
    // the decision taken on a comparator circuit's two output bits
    assert_eq!(order_of_bits(true, false), CmpOrder::Less);
    assert_eq!(order_of_bits(false, true), CmpOrder::Equal);
    assert_eq!(order_of_bits(false, false), CmpOrder::Greater);
}

#[test]
fn test_comparator_circuit_reference_outputs() {
    // the circuit the MPC comparison hands to the engine, evaluated plainly
    let c = comparator_circuit(8);
    let e = equality_circuit(8);
    for (a, b) in [(0u8, 0u8), (100, 150), (150, 100), (200, 200), (255, 0)] {
        let mut bits = GarbledUint::<8>::from_u8(a).bits;
        bits.extend(GarbledUint::<8>::from_u8(b).bits);
        let out = eval_circuit(&c, &bits);
        assert_eq!(out[0], a < b);
        assert_eq!(out[1], a == b);
        let expect = if a < b {
            CmpOrder::Less
        } else if a == b {
            CmpOrder::Equal
        } else {
            CmpOrder::Greater
        };
        assert_eq!(order_of_bits(out[0], out[1]), expect);
        let eq_out = eval_circuit(&e, &bits);
        assert_eq!(eq_out[0], a == b);
    }
}
