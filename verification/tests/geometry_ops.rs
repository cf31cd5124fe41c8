use yakui_core::geometry::{Constraints, Extent2};

#[test]
fn constrain_clamps_above_max() {
    let c = Constraints::new(Extent2::new(0, 0), Extent2::new(200, 200));
    let r = c.constrain(Extent2::new(250, 150));
    assert_eq!(r, Extent2::new(200, 150));
}

#[test]
fn constrain_clamps_below_min() {
    let c = Constraints::new(Extent2::new(10, 20), Extent2::new(200, 200));
    let r = c.constrain(Extent2::new(0, 300));
    assert_eq!(r, Extent2::new(10, 200));
}

#[test]
fn constrain_keeps_fitting_size() {
    let c = Constraints::new(Extent2::new(0, 0), Extent2::new(100, 100));
    let r = c.constrain(Extent2::new(70, 30));
    assert_eq!(r, Extent2::new(70, 30));
}

#[test]
fn add_saturates_at_max() {
    let a = Extent2::new(u32::MAX - 1, 5);
    let b = Extent2::new(10, 7);
    let r = a.add_sat(b);
    assert_eq!(r, Extent2::new(u32::MAX, 12));
}

#[test]
fn sub_saturates_at_zero() {
    let a = Extent2::new(3, 10);
    let b = Extent2::new(5, 4);
    let r = a.sub_sat(b);
    assert_eq!(r, Extent2::new(0, 6));
}

#[test]
fn loose_constraints_admit_zero() {
    let c = Constraints::loose(Extent2::new(64, 64));
    assert_eq!(c.constrain(Extent2::zero()), Extent2::zero());
    assert_eq!(c.constrain(Extent2::new(100, 1)), Extent2::new(64, 1));
}
