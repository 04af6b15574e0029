use uicore::math::bounded_to;
use uicore::math::saturating;
use uicore::math::Rect;
use uicore::math::Thickness;
use uicore::math::Vec2;

#[test]
fn saturating_narrows_at_both_ends() {
    assert_eq!(saturating(5), 5);
    assert_eq!(saturating(-5), -5);
    assert_eq!(saturating(i64::MAX), i32::MAX);
    assert_eq!(saturating(i64::MIN), i32::MIN);
    assert_eq!(saturating(i32::MAX as i64 + 1), i32::MAX);
    assert_eq!(saturating(i32::MIN as i64 - 1), i32::MIN);
}

#[test]
fn bounded_to_clamps_between_zero_and_limit() {
    assert_eq!(bounded_to(5, 10), 5);
    assert_eq!(bounded_to(15, 10), 10);
    assert_eq!(bounded_to(-3, 10), 0);
    assert_eq!(bounded_to(5, 0), 0);
    assert_eq!(bounded_to(5, -7), 0);
}

#[test]
fn vec2_union_and_bounds() {
    assert_eq!(Vec2::new(3, 9).union(Vec2::new(5, 2)), Vec2::new(5, 9));
    assert_eq!(Vec2::new(30, 90).bounded_by(Vec2::new(50, 50)), Vec2::new(30, 50));
    assert_eq!(Vec2::new(30, 90).bounded_by(Vec2::new(-1, 0)), Vec2::zero());
    assert_eq!(Vec2::new(-4, 2).bounded_by(Vec2::new(10, 10)), Vec2::new(0, 2));
    assert_eq!(Vec2::new(1, 2).grown(10, -5), Vec2::new(11, -3));
    assert_eq!(Vec2::new(i32::MAX, i32::MIN).grown(10, -5), Vec2::new(i32::MAX, i32::MIN));
}

#[test]
fn thickness_sums() {
    let t = Thickness::new(1, 2, 3, 4);
    assert_eq!(t.horizontal(), 4);
    assert_eq!(t.vertical(), 6);
    assert_eq!(Thickness::uniform(i32::MAX).horizontal(), 2 * (i32::MAX as i64));
    assert_eq!(Thickness::zero(), Thickness::uniform(0));
}

#[test]
fn rect_edges_and_deflate() {
    let r = Rect::new(10, 20, 30, 40);
    assert_eq!(r.right(), 40);
    assert_eq!(r.bottom(), 60);
    assert_eq!(r.size(), Vec2::new(30, 40));
    assert_eq!(Rect::from_size(Vec2::new(7, 8)), Rect::new(0, 0, 7, 8));
    assert_eq!(r.deflate(&Thickness::new(1, 2, 3, 4)), Rect::new(11, 22, 26, 34));
    assert_eq!(r.deflate(&Thickness::uniform(100)), Rect::new(110, 120, 0, 0));
    assert_eq!(r.deflate(&Thickness::uniform(-5)), Rect::new(5, 15, 40, 50));
}
