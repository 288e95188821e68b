use ec_arith::curve::{AddError, EllipticCurve, InvalidPoint, Point};
use ec_arith::inverse::{modular_inverse, NoInverse};

#[test]
fn mod_inv() {
    assert_eq!(modular_inverse(2, 17).unwrap(), 9);
}

#[test]
fn point_addition() {
    let curve = EllipticCurve::new(2, 2, 17);
    let p = Point::new(5, 1);
    let r = Point::new(6, 3);
    assert_eq!(Point::add_over(p, p, curve).unwrap(), r)
}

#[test]
fn point_on_function() {
    let curve = EllipticCurve::new(2, 2, 17);
    let p = Point::new(5, 1);
    let q = Point::new(5, 2);
    assert!(curve.contains(&p));
    assert!(!curve.contains(&q));
}

#[test]
fn membership_of_unreduced_coordinates() {
    // The same residue classes as (5, 1), shifted by multiples of 17.
    let curve = EllipticCurve::new(2, 2, 17);
    assert!(curve.contains(&Point::new(22, -16)));
    assert!(curve.contains(&Point::new(-12, 18)));
    assert!(!curve.contains(&Point::new(22, -15)));
}

#[test]
fn mod_inv_of_negative_value() {
    // -3 is congruent to 14 modulo 17, and 14 * 11 == 154 == 9 * 17 + 1.
    assert_eq!(modular_inverse(-3, 17).unwrap(), 11);
}

#[test]
fn mod_inv_of_unreduced_value() {
    // 20 is congruent to 3 modulo 17, and 3 * 6 == 18.
    assert_eq!(modular_inverse(20, 17).unwrap(), 6);
}

#[test]
fn mod_inv_result_is_canonical() {
    for a in 1..17i128 {
        let x = modular_inverse(a, 17).unwrap();
        assert!(0 <= x && x < 17);
        assert_eq!((a * x).rem_euclid(17), 1);
    }
}

#[test]
fn mod_inv_without_inverse() {
    // 6 and 9 share the divisor 3.
    assert_eq!(
        modular_inverse(6, 9),
        Err(NoInverse { value: 6, modulus: 9 })
    );
}

#[test]
fn doubling_result_is_on_curve() {
    let curve = EllipticCurve::new(2, 2, 17);
    let p = Point::new(5, 1);
    let r = Point::add_over(p, p, curve).unwrap();
    assert_eq!(r, Point::new(6, 3));
    assert!(curve.contains(&r));
}

#[test]
fn chord_addition() {
    let curve = EllipticCurve::new(2, 2, 17);
    let p = Point::new(5, 1);
    let q = Point::new(6, 3);
    let r = Point::add_over(p, q, curve).unwrap();
    assert_eq!(r, Point::new(10, 6));
    assert!(curve.contains(&r));
}

#[test]
fn addition_commutes() {
    let curve = EllipticCurve::new(2, 2, 17);
    let p = Point::new(5, 1);
    let q = Point::new(6, 3);
    assert_eq!(Point::add_over(p, q, curve), Point::add_over(q, p, curve));
}

#[test]
fn sum_coordinates_are_canonical() {
    let curve = EllipticCurve::new(2, 2, 17);
    let points = [Point::new(5, 1), Point::new(6, 3), Point::new(10, 6)];
    for p in points {
        for q in points {
            if let Ok(r) = Point::add_over(p, q, curve) {
                assert!(0 <= r.x && r.x < 17);
                assert!(0 <= r.y && r.y < 17);
                assert!(curve.contains(&r));
            }
        }
    }
}

#[test]
fn first_point_off_curve_is_reported() {
    let curve = EllipticCurve::new(2, 2, 17);
    let bad = Point::new(5, 2);
    let good = Point::new(5, 1);
    assert_eq!(
        Point::add_over(bad, good, curve),
        Err(AddError::NotOnCurve(InvalidPoint::new(bad, curve)))
    );
}

#[test]
fn second_point_off_curve_is_reported() {
    let curve = EllipticCurve::new(2, 2, 17);
    let good = Point::new(5, 1);
    let bad = Point::new(5, 2);
    assert_eq!(
        Point::add_over(good, bad, curve),
        Err(AddError::NotOnCurve(InvalidPoint::new(bad, curve)))
    );
}

#[test]
fn both_points_off_curve_reports_the_first() {
    let curve = EllipticCurve::new(2, 2, 17);
    let bad1 = Point::new(5, 2);
    let bad2 = Point::new(6, 2);
    assert_eq!(
        Point::add_over(bad1, bad2, curve),
        Err(AddError::NotOnCurve(InvalidPoint::new(bad1, curve)))
    );
}

#[test]
fn vertical_chord_has_no_sum() {
    // (5, 16) is the reflection of (5, 1); the chord through them is
    // vertical and the sum would be the point at infinity.
    let curve = EllipticCurve::new(2, 2, 17);
    let p = Point::new(5, 1);
    let q = Point::new(5, 16);
    assert!(curve.contains(&q));
    assert_eq!(
        Point::add_over(p, q, curve),
        Err(AddError::NonInvertibleSlope)
    );
}

#[test]
fn doubling_with_zero_ordinate_has_no_sum() {
    // (0, 0) lies on y^2 = x^3 - x over the field with five elements; its
    // tangent is vertical.
    let curve = EllipticCurve::new(-1, 0, 5);
    let p = Point::new(0, 0);
    assert!(curve.contains(&p));
    assert_eq!(
        Point::add_over(p, p, curve),
        Err(AddError::NonInvertibleSlope)
    );
}
