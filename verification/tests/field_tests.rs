use mpc_prep::field::{evaluate_polynomial, interpolate, LargeField};

fn fe(x: u64) -> LargeField {
    LargeField::from_u64(x)
}

#[test]
fn field_add_sub_mul_small_values() {
    assert_eq!(fe(2).add(&fe(3)), fe(5));
    assert_eq!(fe(7).sub(&fe(3)), fe(4));
    assert_eq!(fe(6).mul(&fe(7)), fe(42));
    assert_eq!(LargeField::zero(), fe(0));
    assert_eq!(LargeField::one(), fe(1));
}

#[test]
fn field_sub_wraps_below_zero() {
    // 3 - 5 = p - 2, and adding 5 back gives 3.
    let d = fe(3).sub(&fe(5));
    assert_ne!(d, fe(0));
    assert_eq!(d.add(&fe(5)), fe(3));
    assert_eq!(d.add(&fe(2)), fe(0));
}

#[test]
fn field_inverse_of_two() {
    let w = fe(2).inv().unwrap();
    assert_eq!(w.mul(&fe(2)), fe(1));
    assert!(fe(0).inv().is_none());
}

#[test]
fn field_square_roots_square_back() {
    let (r1, r2) = fe(4).sqrt().unwrap();
    assert_eq!(r1.mul(&r1), fe(4));
    assert_eq!(r2.mul(&r2), fe(4));
    assert_eq!(r1.add(&r2), fe(0));
    let (z1, z2) = fe(0).sqrt().unwrap();
    assert_eq!(z1, fe(0));
    assert_eq!(z2, fe(0));
}

#[test]
fn field_some_value_is_not_a_square() {
    let mut found = false;
    for x in 2..200u64 {
        match fe(x).sqrt() {
            None => found = true,
            Some((r, _)) => assert_eq!(r.mul(&r), fe(x)),
        }
    }
    assert!(found);
}

#[test]
fn field_serialization_round_trip() {
    let x = fe(0x0102_0304_0506_0708);
    let b = x.to_bytes_be();
    assert_eq!(b[31], 0x08);
    assert_eq!(b[24], 0x01);
    assert_eq!(b[0], 0);
    assert_eq!(LargeField::from_bytes_be(&b), x);
    let m = fe(3).sub(&fe(4)).to_bytes_be();
    // p - 1 = 0x0800000000000011000000000000000000000000000000000000000000000000
    assert_eq!(m[0], 0x08);
    assert_eq!(m[7], 0x11);
    assert_eq!(m[31], 0x00);
}

#[test]
fn field_from_bytes_reduces_modulo_p() {
    // p itself reads as zero, p + 1 as one.
    let mut p = [0u8; 32];
    p[0] = 0x08;
    p[7] = 0x11;
    p[31] = 0x01;
    assert_eq!(LargeField::from_bytes_be(&p), fe(0));
    p[31] = 0x02;
    assert_eq!(LargeField::from_bytes_be(&p), fe(1));
}

#[test]
fn field_interpolation_and_evaluation() {
    // f(x) = 5 + 2x + 3x^2 at x = 1, 2, 3.
    let xs = vec![fe(1), fe(2), fe(3)];
    let ys = vec![fe(10), fe(21), fe(38)];
    let cs = interpolate(&xs, &ys).unwrap();
    assert_eq!(cs, vec![fe(5), fe(2), fe(3)]);
    assert_eq!(evaluate_polynomial(&cs, &fe(0)), fe(5));
    assert_eq!(evaluate_polynomial(&cs, &fe(4)), fe(61));
    let dup = vec![fe(1), fe(1), fe(3)];
    assert_eq!(interpolate(&dup, &ys), None);
    let short = vec![fe(10), fe(21)];
    assert_eq!(interpolate(&xs, &short), None);
    assert_eq!(interpolate(&vec![], &vec![]), Some(vec![]));
    assert_eq!(evaluate_polynomial(&vec![], &fe(7)), fe(0));
    // A constant through two points has one coefficient.
    assert_eq!(interpolate(&vec![fe(1), fe(2)], &vec![fe(4), fe(4)]), Some(vec![fe(4)]));
}

#[test]
fn field_montgomery_comparison_is_not_value_order() {
    // The comparison is on Montgomery forms; it is a strict order.
    let a = fe(1);
    let b = fe(2);
    assert!(a.montgomery_gt(&b) != b.montgomery_gt(&a));
    assert!(!a.montgomery_gt(&a));
}
