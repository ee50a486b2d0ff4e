use blocks::ga::{Rotor, Transform};

fn rotor(s: i64, e1e2: i64, e1e3: i64, e2e3: i64) -> Rotor<i64> {
    Rotor { s, e1e2, e1e3, e2e3 }
}

#[test]
fn rotor_identity_is_neutral() {
    let r = rotor(2, 3, -5, 7);
    assert_eq!(Rotor::<i64>::identity().then(r), r);
    assert_eq!(r.then(Rotor::identity()), r);
}

#[test]
fn rotor_reverse_negates_the_bivector() {
    assert_eq!(rotor(2, 3, -5, 7).reverse(), rotor(2, -3, 5, -7));
}

#[test]
fn rotor_product_exact_values() {
    // e1e2 * e1e3 = -e2e3, e1e3 * e1e2 = e2e3, e1e2 * e1e2 = -1
    assert_eq!(rotor(0, 1, 0, 0).then(rotor(0, 0, 1, 0)), rotor(0, 0, 0, -1));
    assert_eq!(rotor(0, 0, 1, 0).then(rotor(0, 1, 0, 0)), rotor(0, 0, 0, 1));
    assert_eq!(rotor(0, 1, 0, 0).then(rotor(0, 1, 0, 0)), rotor(-1, 0, 0, 0));
    assert_eq!(rotor(1, 2, 3, 4).then(rotor(5, 6, 7, 8)), rotor(-60, 20, 14, 32));
}

#[test]
fn rotor_times_its_reverse_is_its_squared_norm() {
    let r = rotor(1, 2, 3, 4);
    assert_eq!(r.then(r.reverse()), rotor(30, 0, 0, 0));
}

#[test]
fn rotor_part_of_from_rotor_is_the_rotor() {
    let r = rotor(9, -8, 7, -6);
    let t = Transform::from_rotor(r);
    assert_eq!(t.e0e1, 0);
    assert_eq!(t.e0e2, 0);
    assert_eq!(t.e0e3, 0);
    assert_eq!(t.e0e1e2e3, 0);
    assert_eq!(t.rotor_part(), r);
}

#[test]
fn transform_reverse_keeps_scalar_and_pseudoscalar() {
    let t = Transform { s: 1, e0e1: 2, e0e2: 3, e0e3: 4, e1e2: 5, e1e3: 6, e2e3: 7, e0e1e2e3: 8 };
    let r = t.reverse();
    assert_eq!(r, Transform { s: 1, e0e1: -2, e0e2: -3, e0e3: -4, e1e2: -5, e1e3: -6, e2e3: -7, e0e1e2e3: 8 });
    assert_eq!(r.rotor_part(), t.rotor_part().reverse());
}

#[test]
fn transform_identity_is_neutral() {
    let t = Transform { s: 1, e0e1: 2, e0e2: 3, e0e3: 4, e1e2: 5, e1e3: 6, e2e3: 7, e0e1e2e3: 8 };
    assert_eq!(Transform::<i64>::identity().then(t), t);
    assert_eq!(t.then(Transform::identity()), t);
}

#[test]
fn translations_compose_by_adding() {
    let a = Transform { s: 1, e0e1: 2, e0e2: 0, e0e3: 0, e1e2: 0, e1e3: 0, e2e3: 0, e0e1e2e3: 0 };
    let b = Transform { s: 1, e0e1: 0, e0e2: 5, e0e3: 0, e1e2: 0, e1e3: 0, e2e3: 0, e0e1e2e3: 0 };
    assert_eq!(a.then(b), Transform { s: 1, e0e1: 2, e0e2: 5, e0e3: 0, e1e2: 0, e1e3: 0, e2e3: 0, e0e1e2e3: 0 });
}

#[test]
fn rotor_part_of_a_product_of_rotations() {
    let a = rotor(1, 2, 3, 4);
    let b = rotor(5, 6, 7, 8);
    let product = Transform::from_rotor(a).then(Transform::from_rotor(b));
    assert_eq!(product.rotor_part(), a.then(b));
    assert_eq!(product.e0e1, 0);
    assert_eq!(product.e0e1e2e3, 0);
}

#[test]
fn quarter_turns_compose_to_a_half_turn() {
    let h = std::f32::consts::FRAC_1_SQRT_2;
    let quarter = Rotor { s: h, e1e2: h, e1e3: 0.0f32, e2e3: 0.0 };
    let half = quarter.then(quarter);
    assert!(half.s.abs() < 1e-6);
    assert!((half.e1e2 - 1.0).abs() < 1e-6);
    assert_eq!(half.e1e3, 0.0);
    assert_eq!(half.e2e3, 0.0);
}

#[test]
fn reversing_twice_gives_the_rotor_back() {
    let r = rotor(4, -3, 2, -1);
    assert_eq!(r.reverse().reverse(), r);
}

#[test]
fn reverse_times_rotor_is_the_same_squared_norm() {
    let r = rotor(1, 2, 3, 4);
    assert_eq!(r.reverse().then(r), rotor(30, 0, 0, 0));
    assert_eq!(r.reverse().then(r), r.then(r.reverse()));
}

#[test]
fn unit_rotor_times_its_reverse_is_the_identity() {
    let r = rotor(0, 0, -1, 0);
    assert_eq!(r.then(r.reverse()), Rotor::identity());
    assert_eq!(r.reverse().then(r), Rotor::identity());
}

#[test]
fn reversing_a_transform_twice_gives_it_back() {
    let t = Transform { s: 3, e0e1: -2, e0e2: 9, e0e3: 4, e1e2: -5, e1e3: 6, e2e3: 7, e0e1e2e3: -8 };
    assert_eq!(t.reverse().reverse(), t);
}

#[test]
fn reverse_commutes_with_from_rotor() {
    let r = rotor(2, 3, -5, 7);
    assert_eq!(Transform::from_rotor(r).reverse(), Transform::from_rotor(r.reverse()));
}

#[test]
fn translations_add_their_components_in_either_order() {
    let a = Transform { s: 1, e0e1: 2, e0e2: -3, e0e3: 4, e1e2: 0, e1e3: 0, e2e3: 0, e0e1e2e3: 0 };
    let b = Transform { s: 1, e0e1: 5, e0e2: 7, e0e3: -11, e1e2: 0, e1e3: 0, e2e3: 0, e0e1e2e3: 0 };
    let sum = Transform { s: 1, e0e1: 7, e0e2: 4, e0e3: -7, e1e2: 0, e1e3: 0, e2e3: 0, e0e1e2e3: 0 };
    assert_eq!(a.then(b), sum);
    assert_eq!(b.then(a), sum);
}

#[test]
fn reverse_of_a_translation_moves_back() {
    let t = Transform { s: 1, e0e1: 2, e0e2: -3, e0e3: 4, e1e2: 0, e1e3: 0, e2e3: 0, e0e1e2e3: 0 };
    let back = Transform { s: 1, e0e1: -2, e0e2: 3, e0e3: -4, e1e2: 0, e1e3: 0, e2e3: 0, e0e1e2e3: 0 };
    assert_eq!(t.reverse(), back);
    assert_eq!(t.then(t.reverse()), Transform::identity());
}
