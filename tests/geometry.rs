use podracer::geometry::{isqrt, Vector2};

#[test]
fn cross_product_of_a_vector_with_itself_is_zero() {
    for v in [Vector2::new(3, -7), Vector2::new(0, 0), Vector2::new(-1000, 250)] {
        assert_eq!(v.outer_product(v), 0);
    }
}

#[test]
fn cross_product_is_signed() {
    assert_eq!(Vector2::new(1, 0).outer_product(Vector2::new(0, 1)), 1);
    assert_eq!(Vector2::new(0, 1).outer_product(Vector2::new(1, 0)), -1);
}

#[test]
fn dot_product_is_symmetric_and_bilinear() {
    let a = Vector2::new(3, -4);
    let b = Vector2::new(-2, 9);
    let c = Vector2::new(5, 1);
    assert_eq!(a.inner_product(b), -42);
    assert_eq!(a.inner_product(b), b.inner_product(a));
    assert_eq!(a.add(b).inner_product(c), a.inner_product(c) + b.inner_product(c));
    assert_eq!(a.scale(-3).inner_product(b), -3 * a.inner_product(b));
}

#[test]
fn norm_squared_of_three_four() {
    assert_eq!(Vector2::new(3, 4).norm_squared(), 25);
}

#[test]
fn floor_square_roots() {
    assert_eq!(isqrt(0), 0);
    assert_eq!(isqrt(1), 1);
    assert_eq!(isqrt(24), 4);
    assert_eq!(isqrt(25), 5);
    assert_eq!(isqrt(5000), 70);
    assert_eq!(isqrt(1u128 << 100), 1u128 << 50);
}

#[test]
fn rescaling_the_zero_vector_gives_zero() {
    assert_eq!(Vector2::zero().rescaled(10000), Vector2::new(0, 0));
}

#[test]
fn rescaling_to_the_current_length_is_identity() {
    let v = Vector2::new(3, 4);
    assert_eq!(v.rescaled(25), v);
    let w = Vector2::new(1000, 0).rescaled(160000);
    assert_eq!(w, Vector2::new(400, 0));
    assert_eq!(w.rescaled(160000), w);
}

#[test]
fn rescaling_truncates_toward_zero() {
    assert_eq!(Vector2::new(3, 4).rescaled(100), Vector2::new(6, 8));
    assert_eq!(Vector2::new(1, 1).rescaled(10000), Vector2::new(70, 70));
    assert_eq!(Vector2::new(-1, 1).rescaled(10000), Vector2::new(-70, 70));
    assert_eq!(Vector2::new(0, -5).rescaled(160000), Vector2::new(0, -400));
}

#[test]
fn halving_rounds_toward_zero() {
    assert_eq!(Vector2::new(7, -7).halved(), Vector2::new(3, -3));
    assert_eq!(Vector2::new(-1000, 1000).halved(), Vector2::new(-500, 500));
}

#[test]
fn sums_differences_and_negation() {
    let a = Vector2::new(5, -2);
    let b = Vector2::new(-1, 8);
    assert_eq!(a.add(b), Vector2::new(4, 6));
    assert_eq!(a.sub(b), Vector2::new(6, -10));
    assert_eq!(a.neg(), Vector2::new(-5, 2));
    assert_eq!(a.scale(3), Vector2::new(15, -6));
}
