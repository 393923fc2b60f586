use advent2020::math::{Abs, Vector2, Vector3, Vector4};

#[test]
fn vectors_hold_their_numbers() {
    let v = Vector2::new(1, -2);
    assert_eq!((v.x(), v.y()), (1, -2));
    let v = Vector3::new(1, -2, 3);
    assert_eq!((v.x(), v.y(), v.z()), (1, -2, 3));
    let v = Vector4::new(1, -2, 3, -4);
    assert_eq!((v.x(), v.y(), v.z(), v.w()), (1, -2, 3, -4));
    assert_eq!(Vector2::<isize>::default(), Vector2::new(0, 0));
}

#[test]
fn manhattan_distance_adds_the_distances_along_the_axes() {
    let a: Vector2<isize> = Vector2::new(17, -8);
    let origin: Vector2<isize> = Vector2::new(0, 0);
    assert_eq!(a.manhattan_distance(origin), 25);
    assert_eq!(origin.manhattan_distance(a), 25);
    assert_eq!(a.manhattan_distance(a), 0);
    assert_eq!(a.manhattan_distance(Vector2::new(20, -10)), 5);
    assert_eq!(Abs::abs(-5isize), 5);
    assert_eq!(Abs::abs(5isize), 5);
}

#[test]
fn vector_arithmetic_that_fits() {
    let a: Vector2<isize> = Vector2::new(1, 2);
    assert_eq!(a.checked_add(Vector2::new(3, -5)), Some(Vector2::new(4, -3)));
    assert_eq!(a.checked_sub(Vector2::new(3, -5)), Some(Vector2::new(-2, 7)));
    assert_eq!(a.checked_mul(-3), Some(Vector2::new(-3, -6)));
    assert_eq!(a.checked_neg(), Some(Vector2::new(-1, -2)));
    assert_eq!(a.checked_add(Vector2::new(isize::MAX, 0)), None);
    assert_eq!(Vector2::new(0, isize::MIN).checked_neg(), None);
    assert_eq!(Vector2::new(isize::MAX, 1).checked_mul(2), None);
    let b: Vector3<isize> = Vector3::new(1, 2, 3);
    assert_eq!(b.checked_add(Vector3::new(1, 1, 1)), Some(Vector3::new(2, 3, 4)));
    assert_eq!(b.checked_sub(Vector3::new(1, 1, 1)), Some(Vector3::new(0, 1, 2)));
    assert_eq!(b.checked_mul(2), Some(Vector3::new(2, 4, 6)));
    assert_eq!(b.checked_neg(), Some(Vector3::new(-1, -2, -3)));
    assert_eq!(b.checked_add(Vector3::new(0, 0, isize::MAX)), None);
    let c: Vector4<isize> = Vector4::new(1, 2, 3, 4);
    assert_eq!(
        c.checked_add(Vector4::new(1, 1, 1, 1)),
        Some(Vector4::new(2, 3, 4, 5))
    );
    assert_eq!(
        c.checked_sub(Vector4::new(1, 1, 1, 1)),
        Some(Vector4::new(0, 1, 2, 3))
    );
    assert_eq!(c.checked_mul(0), Some(Vector4::new(0, 0, 0, 0)));
    assert_eq!(c.checked_neg(), Some(Vector4::new(-1, -2, -3, -4)));
    assert_eq!(c.checked_sub(Vector4::new(0, 0, 0, isize::MIN)), None);
}
