use rand::SeedableRng;

use wgslsmith::ast::Statement;
use wgslsmith::types::{DataType, ScalarType, TypeConstraints};

fn rng(seed: u64) -> rand::rngs::StdRng {
    rand::rngs::StdRng::seed_from_u64(seed)
}

#[test]
fn any_of_collects_exactly_the_given_types() {
    let c = TypeConstraints::any_of(&[
        DataType::Scalar(ScalarType::Bool),
        DataType::Vector(3, ScalarType::U32),
    ]);
    assert!(c.contains_type(DataType::Scalar(ScalarType::Bool)));
    assert!(c.contains_type(DataType::Vector(3, ScalarType::U32)));
    assert!(!c.contains_type(DataType::Scalar(ScalarType::I32)));
    assert!(!c.contains_type(DataType::Vector(2, ScalarType::U32)));
}

#[test]
fn union_and_intersection_behave_as_sets() {
    let ints = TypeConstraints::ints();
    let bools = TypeConstraints::bools();
    let u = ints.union(bools);
    assert!(u.contains_type(DataType::Scalar(ScalarType::I32)));
    assert!(u.contains_type(DataType::Scalar(ScalarType::U32)));
    assert!(u.contains_type(DataType::Scalar(ScalarType::Bool)));

    // Disjoint sets intersect to the empty set, signalled by None.
    assert!(ints.intersection(bools).is_none());
    assert!(!ints.intersects(bools));

    let w = u.intersection(ints).unwrap();
    assert!(w.contains_type(DataType::Scalar(ScalarType::I32)));
    assert!(!w.contains_type(DataType::Scalar(ScalarType::Bool)));
}

#[test]
fn union_is_commutative_and_idempotent_on_masks() {
    let a = TypeConstraints::vec_i32s();
    let b = TypeConstraints::scalars();
    assert_eq!(a.union(b), b.union(a));
    assert_eq!(a.union(a), a);
    assert_eq!(
        a.union(b).union(TypeConstraints::bools()),
        a.union(b.union(TypeConstraints::bools()))
    );
}

#[test]
fn select_returns_the_single_member() {
    let c = TypeConstraints::only(DataType::Vector(4, ScalarType::Bool));
    let mut r = rng(3);
    for _ in 0..10 {
        assert_eq!(c.select(&mut r), DataType::Vector(4, ScalarType::Bool));
    }
}

#[test]
fn select_is_uniform_over_the_member_list() {
    // The verified structure guarantees a duplicate-free candidate list in
    // canonical order; over many draws each scalar should appear about a
    // third of the time.
    let c = TypeConstraints::scalars();
    let mut counts = [0u32; 3];
    for seed in 0..30000u64 {
        let mut r = rng(seed);
        match c.select(&mut r) {
            DataType::Scalar(ScalarType::Bool) => counts[0] += 1,
            DataType::Scalar(ScalarType::I32) => counts[1] += 1,
            DataType::Scalar(ScalarType::U32) => counts[2] += 1,
            other => panic!("selected a type outside the set: {:?}", other),
        }
    }
    let expected = 10000.0f64;
    for &n in &counts {
        let dev = (n as f64 - expected).abs() / expected;
        assert!(dev < 0.05, "selection is not uniform: {:?}", counts);
    }
}

#[test]
fn members_are_canonical_and_duplicate_free() {
    let c = TypeConstraints::unconstrained();
    let v = c.members();
    assert_eq!(v.len(), 12);
    for i in 0..v.len() {
        for j in (i + 1)..v.len() {
            assert_ne!(v[i], v[j]);
        }
    }
    assert_eq!(v[0], DataType::Scalar(ScalarType::Bool));
    assert_eq!(v[11], DataType::Vector(4, ScalarType::U32));
}

#[test]
fn into_compount_statement_returns_the_inner_block() {
    let stmts = vec![Statement::Break, Statement::Return(None)];
    let c = Statement::Compound(stmts);
    let inner = c.into_compount_statement();
    assert_eq!(inner.len(), 2);
    assert_eq!(inner[0], Statement::Break);
    assert_eq!(inner[1], Statement::Return(None));
}
