use compute::builder::CircuitBuilder;
use compute::mpc::execute;
use compute::uint::GarbledUint;

fn go_u8(args: &[u8], f: impl Fn(&mut CircuitBuilder, &Vec<Vec<u32>>) -> Vec<u32>) -> u8 {
    let mut b = CircuitBuilder::new();
    let mut ins: Vec<Vec<u32>> = Vec::new();
    for _ in args {
        ins.push(b.input_contrib(8));
    }
    let out = f(&mut b, &ins);
    let c = b.finalize(out);
    let mut bits: Vec<bool> = Vec::new();
    for v in args {
        bits.extend(GarbledUint::<8>::from_u8(*v).bits);
    }
    let r = execute(&c, &bits, &Vec::new()).unwrap();
    GarbledUint::<8>::new(r).to_u8()
}

fn go_u16(args: &[u16], f: impl Fn(&mut CircuitBuilder, &Vec<Vec<u32>>) -> Vec<u32>) -> u16 {
    let mut b = CircuitBuilder::new();
    let mut ins: Vec<Vec<u32>> = Vec::new();
    for _ in args {
        ins.push(b.input_contrib(16));
    }
    let out = f(&mut b, &ins);
    let c = b.finalize(out);
    let mut bits: Vec<bool> = Vec::new();
    for v in args {
        bits.extend(GarbledUint::<16>::from_u16(*v).bits);
    }
    let r = execute(&c, &bits, &Vec::new()).unwrap();
    GarbledUint::<16>::new(r).to_u16()
}

fn go_bool(a: bool, f: impl Fn(&mut CircuitBuilder, &Vec<u32>) -> Vec<u32>) -> bool {
    let mut b = CircuitBuilder::new();
    let xa = b.input_contrib(1);
    let out = f(&mut b, &xa);
    let c = b.finalize(out);
    let bits = vec![a];
    let r = execute(&c, &bits, &Vec::new()).unwrap();
    r[0]
}

fn k8(b: &mut CircuitBuilder, v: u8) -> Vec<u32> {
    b.constant_wires(&GarbledUint::<8>::from_u8(v).bits)
}

#[test]
fn test_macro_mux() {
    let a = 5_u8;
    let b = 10_u8;

    let result = go_u8(&[a, b], |ctx, ins| {
        let condition = ctx.eq_wire(&ins[0], &ins[1]);
        ctx.mux_wires(condition, &ins[0], &ins[1])
    });
    assert_eq!(result, b);
}

#[test]
fn test_macro_if_else() {
    let a = 10_u16;
    let b = 5_u16;

    let result: u16 = go_u16(&[a, b], |ctx, ins| {
        let cond = ctx.eq_wire(&ins[0], &ins[1]);
        let c = ctx.mul_wires(&ins[0], &ins[1]);
        let then_branch = ctx.add_wires(&c, &ins[0]);
        let else_branch = ctx.add_wires(&ins[0], &ins[1]);
        ctx.mux_wires(cond, &then_branch, &else_branch)
    });
    assert_eq!(result, a + b);
}

fn mux_circuit2(a: u8, b: u8) -> u8 {
    go_u8(&[a, b], |ctx, ins| {
        let true_branch = ctx.mul_wires(&ins[0], &ins[1]);
        let false_branch = ctx.add_wires(&ins[0], &ins[1]);
        let condition = ctx.eq_wire(&ins[0], &ins[1]);
        ctx.mux_wires(condition, &true_branch, &false_branch)
    })
}

#[test]
fn test_macro_if_else2() {
    let a = 10_u8;
    let b = 5_u8;

    let result = mux_circuit2(a, b);
    assert_eq!(result, a + b);

    let a = 5_u8;
    let result = mux_circuit2(a, b);
    assert_eq!(result, a * b);
}

fn mux_circuit3(a: u8, b: u8) -> u8 {
    go_u8(&[a, b], |ctx, ins| {
        let cond = ctx.eq_wire(&ins[0], &ins[1]);
        let t = ctx.mul_wires(&ins[0], &ins[1]);
        let f = ctx.add_wires(&ins[0], &ins[1]);
        ctx.mux_wires(cond, &t, &f)
    })
}

#[test]
fn test_macro_if_else3() {
    let a = 4_u8;
    let b = 4_u8;

    let result = mux_circuit3(a, b);
    assert_eq!(result, a * b);

    let a = 5_u8;
    let result = mux_circuit3(a, b);
    assert_eq!(result, a + b);
}

#[test]
fn test_macro_if_else4() {
    let a = 5_u8;
    let b = 7_u8;

    let result = go_u8(&[a, b], |ctx, ins| {
        let cond = ctx.eq_wire(&ins[0], &ins[1]);
        let c = ctx.mul_wires(&ins[0], &ins[1]);
        let t = ctx.add_wires(&c, &ins[0]);
        let x = ctx.add_wires(&ins[0], &ins[1]);
        let f = ctx.mul_wires(&x, &x);
        ctx.mux_wires(cond, &t, &f)
    });
    assert_eq!(result, (a + b) * (a + b));
}

fn equal_branches(a: u8, b: u8) -> u8 {
    go_u8(&[a, b], |ctx, ins| {
        let cond = ctx.eq_wire(&ins[0], &ins[1]);
        let t = ctx.mul_wires(&ins[0], &ins[1]);
        let f = ctx.add_wires(&ins[0], &ins[1]);
        ctx.mux_wires(cond, &t, &f)
    })
}

#[test]
fn test_macro_equal() {
    let a = 2_u8;
    let b = 3_u8;

    let result = equal_branches(a, b);
    assert_eq!(result, a + b);
}

#[test]
fn test_macro_not_equal() {
    let a = 2_u8;
    let b = 3_u8;

    let result = go_u8(&[a, b], |ctx, ins| {
        let cond = ctx.ne_wire(&ins[0], &ins[1]);
        let t = ctx.mul_wires(&ins[0], &ins[1]);
        let f = ctx.add_wires(&ins[0], &ins[1]);
        ctx.mux_wires(cond, &t, &f)
    });
    assert_eq!(result, a * b);
}

fn greater_than_branches(a: u8, b: u8) -> u8 {
    go_u8(&[a, b], |ctx, ins| {
        let cond = ctx.gt_wire(&ins[0], &ins[1]);
        let t = ctx.mul_wires(&ins[0], &ins[1]);
        let f = ctx.add_wires(&ins[0], &ins[1]);
        ctx.mux_wires(cond, &t, &f)
    })
}

#[test]
fn test_macro_greater_than() {
    let a = 2_u8;
    let b = 3_u8;

    let result = greater_than_branches(a, b);
    assert_eq!(result, a + b);

    let a = 3_u8;
    let result = greater_than_branches(a, b);
    assert_eq!(result, a + b);

    let a = 4_u8;
    let result = greater_than_branches(a, b);
    assert_eq!(result, a * b);
}

fn ge_branches(a: u8, b: u8) -> u8 {
    go_u8(&[a, b], |ctx, ins| {
        let cond = ctx.ge_wire(&ins[0], &ins[1]);
        let t = ctx.mul_wires(&ins[0], &ins[1]);
        let f = ctx.add_wires(&ins[0], &ins[1]);
        ctx.mux_wires(cond, &t, &f)
    })
}

#[test]
fn test_macro_greater_than_or_equal() {
    let a = 2_u8;
    let b = 3_u8;

    let result = ge_branches(a, b);
    assert_eq!(result, a + b);

    let a = 3_u8;
    let result = ge_branches(a, b);
    assert_eq!(result, a * b);

    let a = 4_u8;
    let result = ge_branches(a, b);
    assert_eq!(result, a * b);
}

fn lt_branches(a: u8, b: u8) -> u8 {
    go_u8(&[a, b], |ctx, ins| {
        let cond = ctx.lt_wire(&ins[0], &ins[1]);
        let t = ctx.mul_wires(&ins[0], &ins[1]);
        let f = ctx.add_wires(&ins[0], &ins[1]);
        ctx.mux_wires(cond, &t, &f)
    })
}

#[test]
fn test_macro_less_than() {
    let a = 2_u8;
    let b = 3_u8;

    let result = lt_branches(a, b);
    assert_eq!(result, a * b);

    let a = 3_u8;
    let result = lt_branches(a, b);
    assert_eq!(result, a + b);

    let a = 4_u8;
    let result = lt_branches(a, b);
    assert_eq!(result, a + b);
}

fn le_branches(a: u8, b: u8) -> u8 {
    go_u8(&[a, b], |ctx, ins| {
        let cond = ctx.le_wire(&ins[0], &ins[1]);
        let t = ctx.mul_wires(&ins[0], &ins[1]);
        let f = ctx.add_wires(&ins[0], &ins[1]);
        ctx.mux_wires(cond, &t, &f)
    })
}

#[test]
fn test_macro_less_than_or_equal() {
    let a = 2_u8;
    let b = 3_u8;

    let result = le_branches(a, b);
    assert_eq!(result, a * b);

    let a = 3_u8;
    let result = le_branches(a, b);
    assert_eq!(result, a * b);

    let a = 4_u8;
    let result = le_branches(a, b);
    assert_eq!(result, a + b);
}

fn if_elif_else_circuit(a: u8) -> u8 {
    go_u8(&[a], |ctx, ins| {
        let k100 = k8(ctx, 100);
        let k50 = k8(ctx, 50);
        let k1 = k8(ctx, 1);
        let k2 = k8(ctx, 2);
        let c1 = ctx.gt_wire(&ins[0], &k100);
        let c2 = ctx.gt_wire(&ins[0], &k50);
        let t1 = ctx.add_wires(&ins[0], &k1);
        let t2 = ctx.add_wires(&ins[0], &k2);
        let inner = ctx.mux_wires(c2, &t2, &ins[0]);
        ctx.mux_wires(c1, &t1, &inner)
    })
}

#[test]
fn test_if_elif_else() {
    let a = 60_u8;
    let result = if_elif_else_circuit(a);
    assert_eq!(result, 62_u8);

    let a = 110_u8;
    let result = if_elif_else_circuit(a);
    assert_eq!(result, 111_u8);

    let a = 40_u8;
    let result = if_elif_else_circuit(a);
    assert_eq!(result, 40_u8);
}

fn nested_if_circuit(a: u8) -> u8 {
    go_u8(&[a], |ctx, ins| {
        let k100 = k8(ctx, 100);
        let k200 = k8(ctx, 200);
        let k1 = k8(ctx, 1);
        let k2 = k8(ctx, 2);
        let c1 = ctx.gt_wire(&ins[0], &k100);
        let c2 = ctx.gt_wire(&ins[0], &k200);
        let t1 = ctx.add_wires(&ins[0], &k1);
        let t2 = ctx.add_wires(&ins[0], &k2);
        let inner = ctx.mux_wires(c2, &t1, &t2);
        ctx.mux_wires(c1, &inner, &ins[0])
    })
}

#[test]
fn test_nested_if() {
    let a = 150_u8;
    let result = nested_if_circuit(a);
    assert_eq!(result, 152_u8);

    let a = 250_u8;
    let result = nested_if_circuit(a);
    assert_eq!(result, 251_u8);

    let a = 50_u8;
    let result = nested_if_circuit(a);
    assert_eq!(result, 50_u8);
}

fn nested_if_else_circuit(a: u8) -> u8 {
    go_u8(&[a], |ctx, ins| {
        let k100 = k8(ctx, 100);
        let k200 = k8(ctx, 200);
        let k50 = k8(ctx, 50);
        let k1 = k8(ctx, 1);
        let k2 = k8(ctx, 2);
        let k3 = k8(ctx, 3);
        let k4 = k8(ctx, 4);
        let c1 = ctx.gt_wire(&ins[0], &k100);
        let c2 = ctx.gt_wire(&ins[0], &k200);
        let c3 = ctx.gt_wire(&ins[0], &k50);
        let t1 = ctx.add_wires(&ins[0], &k1);
        let t2 = ctx.add_wires(&ins[0], &k2);
        let t3 = ctx.add_wires(&ins[0], &k3);
        let t4 = ctx.add_wires(&ins[0], &k4);
        let then_inner = ctx.mux_wires(c2, &t1, &t2);
        let else_inner = ctx.mux_wires(c3, &t3, &t4);
        ctx.mux_wires(c1, &then_inner, &else_inner)
    })
}

#[test]
fn test_nested_if_else() {
    let a = 150_u8;
    let result = nested_if_else_circuit(a);
    assert_eq!(result, 152_u8);

    let a = 250_u8;
    let result = nested_if_else_circuit(a);
    assert_eq!(result, 251_u8);

    let a = 60_u8;
    let result = nested_if_else_circuit(a);
    assert_eq!(result, 63_u8);

    let a = 40_u8;
    let result = nested_if_else_circuit(a);
    assert_eq!(result, 44_u8);
}

#[test]
fn test_nested_if_else_if() {
    let a = 150_u8;
    let result = nested_if_else_circuit(a);
    assert_eq!(result, 152_u8);

    let a = 250_u8;
    let result = nested_if_else_circuit(a);
    assert_eq!(result, 251_u8);

    let a = 60_u8;
    let result = nested_if_else_circuit(a);
    assert_eq!(result, 63_u8);

    let a = 40_u8;
    let result = nested_if_else_circuit(a);
    assert_eq!(result, 44_u8);
}

fn if_else_circuit(a: u8) -> u8 {
    go_u8(&[a], |ctx, ins| {
        let k100 = k8(ctx, 100);
        let k1 = k8(ctx, 1);
        let k2 = k8(ctx, 2);
        let cond = ctx.gt_wire(&ins[0], &k100);
        let t = ctx.add_wires(&ins[0], &k1);
        let f = ctx.add_wires(&ins[0], &k2);
        ctx.mux_wires(cond, &t, &f)
    })
}

#[test]
fn test_if_else() {
    let a = 150_u8;
    let result = if_else_circuit(a);
    assert_eq!(result, 151_u8);

    let a = 50_u8;
    let result = if_else_circuit(a);
    assert_eq!(result, 52_u8);
}

#[test]
fn test_macro_bool_literal() {
    let bool1 = true;
    let result = go_bool(bool1, |ctx, xa| {
        let x = ctx.constant_wires(&vec![false]);
        let y = ctx.constant_wires(&vec![true]);
        ctx.mux_wires(xa[0], &x, &y)
    });
    assert_eq!(result, !bool1);
}

#[test]
fn test_macro_bool_literal2() {
    let bool1 = false;
    let result = go_bool(bool1, |ctx, xa| {
        let f = ctx.constant_wires(&vec![false]);
        let t = ctx.constant_wires(&vec![true]);
        ctx.mux_wires(xa[0], &f, &t)
    });
    assert_eq!(result, !bool1);
}

fn if_assign_circuit(a: u8) -> u8 {
    go_u8(&[a], |ctx, ins| {
        let ky = k8(ctx, 22);
        let kc = k8(ctx, 100);
        let k1 = k8(ctx, 1);
        let cond = ctx.eq_wire(&ins[0], &k1);
        let t = ctx.add_wires(&kc, &k1);
        let f = ctx.add_wires(&ky, &k1);
        ctx.mux_wires(cond, &t, &f)
    })
}

#[test]
fn macro_test_if_assign() {
    let a = 1_u8;
    let result = if_assign_circuit(a);
    assert_eq!(result, 101);

    let a = 2_u8;
    let result = if_assign_circuit(a);
    assert_eq!(result, 23);
}

#[test]
fn macro_test_assignment2() {
    let a = 42_u8;
    let result = go_u8(&[a], |ctx, ins| {
        let k1 = k8(ctx, 1);
        ctx.add_wires(&ins[0], &k1)
    });
    assert_eq!(result, 43);
}

#[test]
fn macro_test_assignment() {
    let a = 42_u8;
    let result = go_u8(&[a], |ctx, ins| ins[0].clone());
    assert_eq!(result, 42);
}

fn match_circuit(a: u8) -> u8 {
    go_u8(&[a], |ctx, ins| {
        let k1 = k8(ctx, 1);
        let k2 = k8(ctx, 2);
        let k3 = k8(ctx, 3);
        let k7 = k8(ctx, 7);
        let kb8 = k8(ctx, 8);
        let k9 = k8(ctx, 9);
        let k10 = k8(ctx, 10);
        let c1 = ctx.eq_wire(&ins[0], &k1);
        let c2 = ctx.eq_wire(&ins[0], &k2);
        let c3 = ctx.eq_wire(&ins[0], &k3);
        let m3 = ctx.mux_wires(c3, &k9, &k10);
        let m2 = ctx.mux_wires(c2, &kb8, &m3);
        ctx.mux_wires(c1, &k7, &m2)
    })
}

#[test]
fn test_macro_match() {
    let a = 1_u8;
    let result = match_circuit(a);
    assert_eq!(result, 7_u8);

    let a = 2_u8;
    let result = match_circuit(a);
    assert_eq!(result, 8_u8);

    let a = 3_u8;
    let result = match_circuit(a);
    assert_eq!(result, 9_u8);

    let a = 4_u8;
    let result = match_circuit(a);
    assert_eq!(result, 10_u8);
}

fn match_expr_circuit(a: u8) -> u8 {
    go_u8(&[a], |ctx, ins| {
        let k1 = k8(ctx, 1);
        let k2 = k8(ctx, 2);
        let k3 = k8(ctx, 3);
        let kb = k8(ctx, 5);
        let kp2 = k8(ctx, 2);
        let arm1 = ctx.add_wires(&kb, &kp2);
        let kb8 = k8(ctx, 8);
        let k9 = k8(ctx, 9);
        let k10 = k8(ctx, 10);
        let c1 = ctx.eq_wire(&ins[0], &k1);
        let c2 = ctx.eq_wire(&ins[0], &k2);
        let c3 = ctx.eq_wire(&ins[0], &k3);
        let m3 = ctx.mux_wires(c3, &k9, &k10);
        let m2 = ctx.mux_wires(c2, &kb8, &m3);
        ctx.mux_wires(c1, &arm1, &m2)
    })
}

#[test]
fn test_macro_match_with_expr() {
    let a = 1_u8;
    let result = match_expr_circuit(a);
    assert_eq!(result, 7_u8);

    let a = 2_u8;
    let result = match_expr_circuit(a);
    assert_eq!(result, 8_u8);

    let a = 3_u8;
    let result = match_expr_circuit(a);
    assert_eq!(result, 9_u8);

    let a = 4_u8;
    let result = match_expr_circuit(a);
    assert_eq!(result, 10_u8);
}

fn match_block_circuit(a: u8) -> u8 {
    go_u8(&[a], |ctx, ins| {
        let k1 = k8(ctx, 1);
        let k2 = k8(ctx, 2);
        let k3 = k8(ctx, 3);
        let kp2 = k8(ctx, 2);
        let kb5 = k8(ctx, 5);
        let kb6 = k8(ctx, 6);
        let kb7 = k8(ctx, 7);
        let arm1 = ctx.add_wires(&kb5, &kp2);
        let arm2 = ctx.add_wires(&kb6, &kp2);
        let arm3 = ctx.add_wires(&kb7, &kp2);
        let k10 = k8(ctx, 10);
        let c1 = ctx.eq_wire(&ins[0], &k1);
        let c2 = ctx.eq_wire(&ins[0], &k2);
        let c3 = ctx.eq_wire(&ins[0], &k3);
        let m3 = ctx.mux_wires(c3, &arm3, &k10);
        let m2 = ctx.mux_wires(c2, &arm2, &m3);
        ctx.mux_wires(c1, &arm1, &m2)
    })
}

#[test]
fn test_macro_match_with_block() {
    let a = 1_u8;
    let result = match_block_circuit(a);
    assert_eq!(result, 7_u8);

    let a = 2_u8;
    let result = match_block_circuit(a);
    assert_eq!(result, 8_u8);

    let a = 3_u8;
    let result = match_block_circuit(a);
    assert_eq!(result, 9_u8);

    let a = 4_u8;
    let result = match_block_circuit(a);
    assert_eq!(result, 10_u8);
}

fn if_consts_circuit(a: u8) -> u8 {
    go_u8(&[a], |ctx, ins| {
        let k42 = k8(ctx, 42);
        let k1 = k8(ctx, 1);
        let k54 = k8(ctx, 54);
        let cond = ctx.eq_wire(&ins[0], &k42);
        let t = ctx.add_wires(&ins[0], &k1);
        ctx.mux_wires(cond, &t, &k54)
    })
}

#[test]
fn macro_test_if_with_consts() {
    let a = 42_u8;
    let result = if_consts_circuit(a);
    assert_eq!(result, 43);

    let a = 43_u8;
    let result = if_consts_circuit(a);
    assert_eq!(result, 54);
}

fn if_consts2_circuit(a: u8) -> u8 {
    go_u8(&[a], |ctx, ins| {
        let k0 = k8(ctx, 0);
        let k11 = k8(ctx, 11);
        let k22 = k8(ctx, 22);
        let k33 = k8(ctx, 33);
        let k42 = k8(ctx, 42);
        let k32 = k8(ctx, 32);
        let k43 = k8(ctx, 43);
        let kt33 = k8(ctx, 33);
        let k54 = k8(ctx, 54);
        let acc1 = ctx.add_wires(&k0, &k11);
        let acc2 = ctx.add_wires(&k0, &k22);
        let acc3 = ctx.add_wires(&k0, &k33);
        let t1 = ctx.add_wires(&k43, &acc1);
        let t2 = ctx.add_wires(&kt33, &acc2);
        let t3 = ctx.add_wires(&k54, &acc3);
        let c1 = ctx.eq_wire(&ins[0], &k42);
        let c2 = ctx.eq_wire(&ins[0], &k32);
        let inner = ctx.mux_wires(c2, &t2, &t3);
        ctx.mux_wires(c1, &t1, &inner)
    })
}

#[test]
fn macro_test_if_with_consts2() {
    let a = 42_u8;
    let result = if_consts2_circuit(a);
    assert_eq!(result, 54);

    let a = 32_u8;
    let result = if_consts2_circuit(a);
    assert_eq!(result, 55);

    let a = 0_u8;
    let result = if_consts2_circuit(a);
    assert_eq!(result, 87);
}

fn if_consts1_circuit(a: u8) -> u8 {
    go_u8(&[a], |ctx, ins| {
        let k5 = k8(ctx, 5);
        let k1 = k8(ctx, 1);
        let k2 = k8(ctx, 2);
        let k3 = k8(ctx, 3);
        let k42 = k8(ctx, 42);
        let k32 = k8(ctx, 32);
        let k43 = k8(ctx, 43);
        let k33 = k8(ctx, 33);
        let kl2 = k8(ctx, 2);
        let acc1 = ctx.add_wires(&k5, &k1);
        let acc2 = ctx.add_wires(&k5, &k2);
        let acc3 = ctx.add_wires(&k5, &k3);
        let t1 = ctx.add_wires(&k43, &acc1);
        let t2 = ctx.add_wires(&k33, &acc2);
        let t3 = ctx.add_wires(&kl2, &acc3);
        let c1 = ctx.eq_wire(&ins[0], &k42);
        let c2 = ctx.eq_wire(&ins[0], &k32);
        let inner = ctx.mux_wires(c2, &t2, &t3);
        ctx.mux_wires(c1, &t1, &inner)
    })
}

#[test]
fn macro_test_if_with_consts1() {
    let a = 42_u8;
    let result = if_consts1_circuit(a);
    assert_eq!(result, 49);

    let a = 32_u8;
    let result = if_consts1_circuit(a);
    assert_eq!(result, 40);

    let a = 12_u8;
    let result = if_consts1_circuit(a);
    assert_eq!(result, 10);

    let a = 0_u8;
    let result = if_consts1_circuit(a);
    assert_eq!(result, 10);
}

fn match_consts_circuit(a: u8) -> u8 {
    go_u8(&[a], |ctx, ins| {
        let k49 = k8(ctx, 49);
        let k40 = k8(ctx, 40);
        let k2 = k8(ctx, 2);
        let k3 = k8(ctx, 3);
        let k1 = k8(ctx, 1);
        let arm1 = ctx.mul_wires(&ins[0], &k2);
        let arm2 = ctx.mul_wires(&ins[0], &k3);
        let arm3 = ctx.mul_wires(&ins[0], &k1);
        let c1 = ctx.eq_wire(&ins[0], &k49);
        let c2 = ctx.eq_wire(&ins[0], &k40);
        let inner = ctx.mux_wires(c2, &arm2, &arm3);
        ctx.mux_wires(c1, &arm1, &inner)
    })
}

#[test]
fn macro_test_match_with_consts() {
    let a = 49_u8;
    let result = match_consts_circuit(a);
    assert_eq!(result, 98);

    let a = 40_u8;
    let result = match_consts_circuit(a);
    assert_eq!(result, 120);

    let a = 12_u8;
    let result = match_consts_circuit(a);
    assert_eq!(result, 12);
}

fn if_and_match_circuit(a: u8) -> u8 {
    go_u8(&[a], |ctx, ins| {
        let k5 = k8(ctx, 5);
        let k1 = k8(ctx, 1);
        let k2 = k8(ctx, 2);
        let k3 = k8(ctx, 3);
        let k42 = k8(ctx, 42);
        let k32 = k8(ctx, 32);
        let k43 = k8(ctx, 43);
        let k33 = k8(ctx, 33);
        let kl2 = k8(ctx, 2);
        let acc1 = ctx.add_wires(&k5, &k1);
        let acc2 = ctx.add_wires(&k5, &k2);
        let acc3 = ctx.add_wires(&k5, &k3);
        let t1 = ctx.add_wires(&k43, &acc1);
        let t2 = ctx.add_wires(&k33, &acc2);
        let t3 = ctx.add_wires(&kl2, &acc3);
        let c1 = ctx.eq_wire(&ins[0], &k42);
        let c2 = ctx.eq_wire(&ins[0], &k32);
        let inner = ctx.mux_wires(c2, &t2, &t3);
        let if_else = ctx.mux_wires(c1, &t1, &inner);
        let k49 = k8(ctx, 49);
        let k40 = k8(ctx, 40);
        let km2 = k8(ctx, 2);
        let km3 = k8(ctx, 3);
        let km1 = k8(ctx, 1);
        let arm1 = ctx.mul_wires(&ins[0], &km2);
        let arm2 = ctx.mul_wires(&ins[0], &km3);
        let arm3 = ctx.mul_wires(&ins[0], &km1);
        let m1 = ctx.eq_wire(&if_else, &k49);
        let m2 = ctx.eq_wire(&if_else, &k40);
        let minner = ctx.mux_wires(m2, &arm2, &arm3);
        let match_out = ctx.mux_wires(m1, &arm1, &minner);
        ctx.add_wires(&match_out, &if_else)
    })
}

#[test]
fn macro_test_if_and_match_with_consts() {
    let a = 42_u8;
    let result = if_and_match_circuit(a);
    assert_eq!(result, 133);

    let a = 32_u8;
    let result = if_and_match_circuit(a);
    assert_eq!(result, 136);

    let a = 12_u8;
    let result = if_and_match_circuit(a);
    assert_eq!(result, 22);
}

fn if_bool_circuit(a: bool) -> bool {
    go_bool(a, |ctx, xa| {
        let t = ctx.constant_wires(&vec![true]);
        let f = ctx.constant_wires(&vec![false]);
        ctx.mux_wires(xa[0], &t, &f)
    })
}

#[test]
fn test_macro_if_bool() {
    let a = true;
    let result = if_bool_circuit(a);
    assert!(result);

    let a = false;
    let result = if_bool_circuit(a);
    assert!(!result);
}

fn if_le_circuit(a: u8) -> u8 {
    go_u8(&[a], |ctx, ins| {
        let k50 = k8(ctx, 50);
        let k25 = k8(ctx, 25);
        let k100 = k8(ctx, 100);
        let cond = ctx.le_wire(&ins[0], &k50);
        ctx.mux_wires(cond, &k25, &k100)
    })
}

#[test]
fn test_macro_if() {
    let a = 42_u8;
    let result = if_le_circuit(a);
    assert_eq!(result, 25);

    let a = 132_u8;
    let result = if_le_circuit(a);
    assert_eq!(result, 100);
}
