use compute::builder::CircuitBuilder;
use compute::mpc::execute;
use compute::ops::BitOp;
use compute::uint::GarbledUint;

fn bit_u8(op: BitOp, a: u8, b: u8) -> u8 {
    let mut ctx = CircuitBuilder::new();
    let xa = ctx.input_contrib(8);
    let xb = ctx.input_contrib(8);
    let out = ctx.map2(op, &xa, &xb);
    let c = ctx.finalize(out);
    let mut bits: Vec<bool> = Vec::new();
    bits.extend(GarbledUint::<8>::from_u8(a).bits);
    bits.extend(GarbledUint::<8>::from_u8(b).bits);
    let r = execute(&c, &bits, &Vec::new()).unwrap();
    GarbledUint::<8>::new(r).to_u8()
}

#[test]
fn test_macro_bitwise_and() {
    let a = 2_u8;
    let b = 3_u8;

    let result = bit_u8(BitOp::And, a, b);
    assert_eq!(result, a & b);
}

#[test]
fn test_macro_bitwise_or() {
    let a = 2_u8;
    let b = 3_u8;

    let result = bit_u8(BitOp::Or, a, b);
    assert_eq!(result, a | b);
}

#[test]
fn test_macro_bitwise_xor() {
    let a = 2_u8;
    let b = 3_u8;

    let result = bit_u8(BitOp::Xor, a, b);
    assert_eq!(result, a ^ b);
}

#[test]
fn test_macro_bitwise_not() {
    let a = 2_u8;

    let mut ctx = CircuitBuilder::new();
    let xa = ctx.input_contrib(8);
    let out = ctx.not_wires(&xa);
    let c = ctx.finalize(out);
    let bits = GarbledUint::<8>::from_u8(a).bits;
    let r = execute(&c, &bits, &Vec::new()).unwrap();
    let result = GarbledUint::<8>::new(r).to_u8();
    assert_eq!(result, !a);
}

#[test]
fn test_macro_bitwise_nand() {
    let a = 2_u8;
    let b = 3_u8;

    let result = bit_u8(BitOp::Nand, a, b);
    assert_eq!(result, !(a & b));
}

#[test]
fn test_macro_bitwise_nor() {
    let a = 2_u8;
    let b = 3_u8;

    let result = bit_u8(BitOp::Nor, a, b);
    assert_eq!(result, !(a | b));
}

#[test]
fn test_macro_bitwise_xnor() {
    let a = 2_u8;
    let b = 3_u8;

    let result = bit_u8(BitOp::Xnor, a, b);
    assert_eq!(result, !(a ^ b));
}

#[test]
fn test_macro_bool_return() {
    let a = 2_u8;
    let b = 3_u8;

    let mut ctx = CircuitBuilder::new();
    let xa = ctx.input_contrib(8);
    let xb = ctx.input_contrib(8);
    let eq = ctx.eq_wire(&xa, &xb);
    let mut outs: Vec<u32> = Vec::new();
    outs.push(eq);
    let c = ctx.finalize(outs);
    let mut bits: Vec<bool> = Vec::new();
    bits.extend(GarbledUint::<8>::from_u8(a).bits);
    bits.extend(GarbledUint::<8>::from_u8(b).bits);
    let r = execute(&c, &bits, &Vec::new()).unwrap();
    let result = r[0];
    assert!(!result);
}
