use ecc::FieldElement;

#[test]
fn new_keeps_every_value_below_the_prime() {
    for v in 0..13u32 {
        let e = FieldElement::new(v, 13).unwrap();
        assert_eq!(e.num(), v);
        assert_eq!(e.prime(), 13);
    }
}

#[test]
fn new_refuses_values_at_or_above_the_prime() {
    assert_eq!(FieldElement::new(13, 13), Err("num is not in field range"));
    assert_eq!(FieldElement::new(100, 13), Err("num is not in field range"));
    assert_eq!(FieldElement::new(u32::MAX, 13), Err("num is not in field range"));
}

#[test]
fn results_stay_in_the_field() {
    for a in 0..13u32 {
        for b in 0..13u32 {
            let x = FieldElement::new(a, 13).unwrap();
            let y = FieldElement::new(b, 13).unwrap();
            assert!(x.add(y).num() < 13);
            assert!(x.sub(y).num() < 13);
            assert!(x.mul(y).num() < 13);
        }
    }
}

#[test]
fn zero_is_additive_identity_and_inverses_exist() {
    let zero = FieldElement::new(0, 19).unwrap();
    for a in 0..19u32 {
        let x = FieldElement::new(a, 19).unwrap();
        assert_eq!(x.add(zero), x);
        let neg = FieldElement::new((19 - a) % 19, 19).unwrap();
        assert_eq!(x.add(neg), zero);
    }
}

#[test]
fn sub_wraps_below_zero() {
    let a = FieldElement::new(3, 13).unwrap();
    let b = FieldElement::new(10, 13).unwrap();
    assert_eq!(a.sub(b).num(), 6);
    assert_eq!(b.sub(a).num(), 7);
    assert_eq!(a.sub(a).num(), 0);
}

#[test]
fn mul_with_large_prime_does_not_overflow() {
    let p = 4_294_967_291u32;
    let a = FieldElement::new(p - 1, p).unwrap();
    assert_eq!(a.mul(a).num(), 1);
    assert_eq!(a.add(a).num(), p - 2);
}

#[test]
fn pow_uses_modular_exponentiation() {
    let p = 4_294_967_291u32;
    let a = FieldElement::new(2, p).unwrap();
    // Fermat: a^(p-1) == 1 for a prime p.
    assert_eq!(a.pow(p - 1).num(), 1);
    let b = FieldElement::new(7, 13).unwrap();
    assert_eq!(b.pow(0).num(), 1);
    assert_eq!(b.pow(1).num(), 7);
    assert_eq!(b.pow(2).num(), 10);
    assert_eq!(b.pow(12).num(), 1);
}

#[test]
fn moduli_below_two_are_refused() {
    assert_eq!(FieldElement::new(0, 0), Err("prime must be greater than 1"));
    assert_eq!(FieldElement::new(0, 1), Err("prime must be greater than 1"));
    assert_eq!(FieldElement::new(5, 1), Err("prime must be greater than 1"));
    assert_eq!(FieldElement::new(1, 2).unwrap().prime(), 2);
}

#[test]
fn represent_with_several_digits() {
    let e = FieldElement::new(44, 57).unwrap();
    assert_eq!(e.represent(), "FieldElement_57(44)");
    let f = FieldElement::new(0, 4_294_967_291).unwrap();
    assert_eq!(f.represent(), "FieldElement_4294967291(0)");
}

#[test]
fn elements_of_different_fields_differ() {
    let a = FieldElement::new(1, 3).unwrap();
    let b = FieldElement::new(1, 5).unwrap();
    assert!(a != b);
}
