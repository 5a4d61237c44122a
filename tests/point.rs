use ecc::Point;

#[test]
fn test_point() {
    let p1 = Point::new(Some(-1), Some(-1), 5, 7);
    match p1 {
        Ok(pp) => {
            assert_eq!(pp.x().unwrap(), -1);
            assert_eq!(pp.y().unwrap(), -1);
        }
        Err(_e) => {
            assert!(false)
        }
    }

    let p2 = Point::new(Some(-1), Some(-2), 5, 7);
    match p2 {
        Ok(_p) => {
            assert!(false)
        }
        Err(e) => {
            assert_eq!(e, "not on the curve")
        }
    }

    let p3 = Point::new(Some(18), Some(77), 5, 7);
    match p3 {
        Ok(pp) => {
            assert_eq!(pp.x().unwrap(), 18);
            assert_eq!(pp.y().unwrap(), 77);
        }
        Err(_e) => {
            assert!(false)
        }
    }

    let p4 = Point::new(None, None, 5, 7);
    assert!(p4.is_ok());
}
