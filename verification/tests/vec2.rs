use raycaster::{Rect, Vec2};

#[test]
fn constructors_set_both_components() {
    let v = Vec2::new(3i32, -4);
    assert_eq!(v.x, 3);
    assert_eq!(v.y, -4);
    assert_eq!(Vec2::<i32>::zero(), Vec2::new(0, 0));
    assert_eq!(Vec2::<u8>::zero(), Vec2::new(0, 0));
    assert_eq!(Vec2::scalar(7u16), Vec2::new(7, 7));
}

#[test]
fn arithmetic_goes_component_by_component() {
    let a = Vec2::new(7i32, -9);
    let b = Vec2::new(2i32, 3);
    assert_eq!(a + b, Vec2::new(9, -6));
    assert_eq!(a - b, Vec2::new(5, -12));
    assert_eq!(a * b, Vec2::new(14, -27));
    assert_eq!(a / b, Vec2::new(3, -3));
}

#[test]
fn compound_arithmetic_changes_the_left_side() {
    let mut v = Vec2::new(7i32, -9);
    v += Vec2::new(1, 1);
    assert_eq!(v, Vec2::new(8, -8));
    v -= Vec2::new(3, -3);
    assert_eq!(v, Vec2::new(5, -5));
    v *= Vec2::new(2, 4);
    assert_eq!(v, Vec2::new(10, -20));
    v /= Vec2::new(3, 3);
    assert_eq!(v, Vec2::new(3, -6));
}

#[test]
fn scale_multiplies_both_components() {
    let v = Vec2::new(3i32, -4);
    assert_eq!(v.scaled(5), Vec2::new(15, -20));
    assert_eq!(v, Vec2::new(3, -4));
    let mut w = v;
    w.scale(2).scale(3);
    assert_eq!(w, Vec2::new(18, -24));
}

#[test]
fn magnitude_is_the_root_of_the_squares() {
    let v = Vec2::new(3i32, 4);
    assert_eq!(v.sq_magn(), 25);
    assert_eq!(v.magn(), 5);
    assert_eq!(Vec2::new(1i32, 1).sq_magn(), 2);
    assert_eq!(Vec2::new(1i32, 1).magn(), 1);
    assert_eq!(Vec2::new(-6i16, 0).magn(), 6);
    assert_eq!(Vec2::new(10u8, 10).magn(), 14);
}

#[test]
fn normalize_divides_by_the_length() {
    let mut v = Vec2::new(6i32, 0);
    assert_eq!(v.normalize(), 6);
    assert_eq!(v, Vec2::new(1, 0));
    let mut w = Vec2::new(3i32, 4);
    assert_eq!(w.normalize(), 5);
    assert_eq!(w, Vec2::new(0, 0));
    let mut d = Vec2::new(-8i32, 6);
    assert_eq!(d.normalize(), 10);
    assert_eq!(d, Vec2::new(0, 0));
    assert_eq!(Vec2::new(0i32, -9).normalized(), Vec2::new(0, -1));
}

#[test]
fn normalize_leaves_the_zero_vector_alone() {
    let mut v = Vec2::<i32>::zero();
    assert_eq!(v.normalize(), 0);
    assert_eq!(v, Vec2::new(0, 0));
    let mut u = Vec2::<u8>::zero();
    assert_eq!(u.normalize(), 0);
    assert_eq!(u, Vec2::new(0, 0));
    assert_eq!(Vec2::<i16>::zero().normalized(), Vec2::new(0, 0));
}

#[test]
fn cast_goes_through_the_double() {
    assert_eq!(Vec2::new(300i32, -5).cast::<u8>(), Vec2::new(255, 0));
    assert_eq!(Vec2::new(50usize, 50).cast::<isize>(), Vec2::new(50, 50));
    assert_eq!(Vec2::new(-2i32, 2).cast::<i32>(), Vec2::new(-2, 2));
    assert_eq!(Vec2::new(u64::MAX, (1 << 53) + 1).cast::<u64>(), Vec2::new(u64::MAX, 1 << 53));
    assert_eq!(Vec2::new(i64::MIN, i64::MAX).cast::<i32>(), Vec2::new(i32::MIN, i32::MAX));
}

#[test]
fn rotate_uses_the_old_x_for_the_new_y() {
    // A quarter turn: cosine zero, sine one.
    let mut v = Vec2::new(1i32, 2);
    v.rotate(0, 1);
    assert_eq!(v, Vec2::new(-2, 1));
    assert_eq!(Vec2::new(1i32, 0).rotated(0, 1), Vec2::new(0, 1));
    assert_eq!(Vec2::new(3i32, 5).rotated(1, 0), Vec2::new(3, 5));
    assert_eq!(Vec2::new(3i32, 5).rotated(-1, 0), Vec2::new(-3, -5));
    let mut w = Vec2::new(2i32, 3);
    w.rotate(0, 1).rotate(0, 1);
    assert_eq!(w, Vec2::new(-2, -3));
    assert_eq!(Vec2::new(2i32, 3).rotated(2, 5), Vec2::new(4 - 15, 10 + 6));
}

#[test]
fn equality_compares_both_components() {
    assert!(Vec2::new(1i32, 2) == Vec2::new(1, 2));
    assert!(Vec2::new(1i32, 2) != Vec2::new(1, 3));
    assert!(Vec2::new(1i32, 2) != Vec2::new(0, 2));
}

#[test]
fn order_is_by_x_then_by_y() {
    assert!(Vec2::new(1i32, 5) < Vec2::new(2, 0));
    assert!(Vec2::new(1i32, 2) < Vec2::new(1, 3));
    assert!(Vec2::new(2i32, 0) > Vec2::new(1, 100));
    assert!(Vec2::new(1i32, 2) <= Vec2::new(1, 2));
    assert_eq!(Vec2::new(1i32, 2).partial_cmp(&Vec2::new(1, 2)), Some(std::cmp::Ordering::Equal));
    assert_eq!(Vec2::new(0i32, 9).cmp(&Vec2::new(1, 0)), std::cmp::Ordering::Less);
    assert_eq!(Vec2::new(1i32, 9).cmp(&Vec2::new(1, 0)), std::cmp::Ordering::Greater);
    let all = vec![Vec2::new(0i32, 5), Vec2::new(1, 0), Vec2::new(0, -1)];
    assert_eq!(all.iter().min(), Some(&Vec2::new(0, -1)));
    assert_eq!(all.iter().max(), Some(&Vec2::new(1, 0)));
}

#[test]
fn rect_area_is_end_less_start() {
    let r = Rect::new(Vec2::new(1i32, 2), Vec2::new(4, 8));
    assert_eq!(r.area(), Vec2::new(3, 6));
    let flat = Rect::new(Vec2::new(-3i32, 7), Vec2::new(-3, 7));
    assert_eq!(flat.area(), Vec2::new(0, 0));
}

#[test]
fn normalize_leaves_the_zero_vector_alone_in_every_integer_type() {
    let mut a = Vec2::<u16>::zero();
    assert_eq!(a.normalize(), 0);
    assert_eq!(a, Vec2::new(0, 0));
    let mut b = Vec2::<u32>::zero();
    assert_eq!(b.normalize(), 0);
    assert_eq!(b, Vec2::new(0, 0));
    let mut c = Vec2::<u64>::zero();
    assert_eq!(c.normalize(), 0);
    assert_eq!(c, Vec2::new(0, 0));
    let mut d = Vec2::<u128>::zero();
    assert_eq!(d.normalize(), 0);
    assert_eq!(d, Vec2::new(0, 0));
    let mut e = Vec2::<usize>::zero();
    assert_eq!(e.normalize(), 0);
    assert_eq!(e, Vec2::new(0, 0));
    let mut f = Vec2::<i8>::zero();
    assert_eq!(f.normalize(), 0);
    assert_eq!(f, Vec2::new(0, 0));
    let mut g = Vec2::<i64>::zero();
    assert_eq!(g.normalize(), 0);
    assert_eq!(g, Vec2::new(0, 0));
    let mut h = Vec2::<i128>::zero();
    assert_eq!(h.normalize(), 0);
    assert_eq!(h, Vec2::new(0, 0));
    let mut i = Vec2::<isize>::zero();
    assert_eq!(i.normalize(), 0);
    assert_eq!(i, Vec2::new(0, 0));
}

#[test]
fn half_is_zero_among_whole_numbers() {
    assert_eq!(raycaster::scalar::half::<i32>(), 0);
    assert_eq!(raycaster::scalar::half::<u8>(), 0);
    assert_eq!(raycaster::scalar::zero::<i64>(), 0);
    assert_eq!(raycaster::scalar::one::<u16>(), 1);
}
