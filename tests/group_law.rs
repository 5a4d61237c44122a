use ecc::Point;

fn pt(x: i32, y: i32, a: i32, b: i32) -> Point {
    Point::new(Some(x), Some(y), a, b).unwrap()
}

fn inf(a: i32, b: i32) -> Point {
    Point::new(None, None, a, b).unwrap()
}

/// The six points of y² = x³ + 1 with integer coordinates form a cyclic group.
fn torsion_points() -> Vec<Point> {
    vec![
        inf(0, 1),
        pt(2, 3, 0, 1),
        pt(0, 1, 0, 1),
        pt(-1, 0, 0, 1),
        pt(0, -1, 0, 1),
        pt(2, -3, 0, 1),
    ]
}

#[test]
fn infinity_for_any_curve() {
    for (a, b) in [(5, 7), (0, 0), (i32::MIN, i32::MAX), (-3, 4)] {
        let p = Point::new(None, None, a, b).unwrap();
        assert_eq!(p.x(), None);
        assert_eq!(p.y(), None);
        assert_eq!(p.a(), a);
        assert_eq!(p.b(), b);
    }
}

#[test]
fn half_given_coordinates_are_refused() {
    assert_eq!(Point::new(Some(-1), None, 5, 7), Err("not on the curve"));
    assert_eq!(Point::new(None, Some(-1), 5, 7), Err("not on the curve"));
}

#[test]
fn membership_with_extreme_coordinates() {
    assert_eq!(
        Point::new(Some(i32::MIN), Some(i32::MAX), i32::MAX, i32::MIN),
        Err("not on the curve")
    );
    let p = pt(0, 46340, 0, 46340 * 46340);
    assert_eq!(p.y(), Some(46340));
}

#[test]
fn identity_law() {
    let p = pt(-1, -1, 5, 7);
    let o = inf(5, 7);
    assert_eq!(p.add(o), Ok(p));
    assert_eq!(o.add(p), Ok(p));
    assert_eq!(o.add(o), Ok(o));
}

#[test]
fn vertical_pair_sums_to_infinity() {
    let p = pt(-1, -1, 5, 7);
    let q = pt(-1, 1, 5, 7);
    assert_eq!(p.add(q), Ok(inf(5, 7)));
    let r = pt(18, 77, 5, 7);
    let s = pt(18, -77, 5, 7);
    assert_eq!(r.add(s), Ok(inf(5, 7)));
}

#[test]
fn doubling_with_vertical_tangent_is_infinity() {
    let p = pt(-1, 0, 0, 1);
    assert_eq!(p.add(p), Ok(inf(0, 1)));
}

#[test]
fn doubling() {
    let p = pt(-1, -1, 5, 7);
    assert_eq!(p.add(p), Ok(pt(18, 77, 5, 7)));
    let q = pt(2, 3, 0, 1);
    assert_eq!(q.add(q), Ok(pt(0, 1, 0, 1)));
}

#[test]
fn chord_addition() {
    let p = pt(2, 3, 0, 1);
    let q = pt(0, 1, 0, 1);
    assert_eq!(p.add(q), Ok(pt(-1, 0, 0, 1)));
}

#[test]
fn sum_without_integer_coordinates_is_refused() {
    let p = pt(-1, 1, 5, 7);
    let q = pt(2, 5, 5, 7);
    assert_eq!(p.add(q), Err("sum is not an integer point"));
}

#[test]
fn sum_beyond_i32_is_refused() {
    let p = pt(0, 1, 200_000, 1);
    assert_eq!(p.add(p), Err("sum is out of range"));
}

#[test]
fn group_law_is_commutative_on_sample() {
    let pts = torsion_points();
    for p in &pts {
        for q in &pts {
            assert_eq!(p.add(*q), q.add(*p));
            assert!(p.add(*q).is_ok());
        }
    }
}

#[test]
fn group_law_is_associative_on_sample() {
    let pts = torsion_points();
    for p in &pts {
        for q in &pts {
            for r in &pts {
                let left = p.add(*q).unwrap().add(*r).unwrap();
                let right = p.add(q.add(*r).unwrap()).unwrap();
                assert_eq!(left, right);
            }
        }
    }
}

#[test]
fn torsion_point_has_order_six() {
    let g = pt(2, 3, 0, 1);
    let mut acc = g;
    let mut order = 1;
    while acc.x().is_some() {
        acc = acc.add(g).unwrap();
        order += 1;
    }
    assert_eq!(order, 6);
}
