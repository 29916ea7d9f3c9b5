use rand::SeedableRng;

use wgslsmith::ast::{BinOp, Expr, ExprNode, Lit, Statement, UnOp};
use wgslsmith::generator::{ExprGenerator, Options, gen_module};
use wgslsmith::scope::Scope;
use wgslsmith::types::{DataType, ScalarType, TypeConstraints};
use wgslsmith::writer::write_module;

fn rng(seed: u64) -> rand::rngs::StdRng {
    rand::rngs::StdRng::seed_from_u64(seed)
}

fn default_options() -> Options {
    Options { seed: None, debug: false, enabled_fns: Vec::new() }
}

#[test]
fn seed_zero_module_looks_like_a_shader() {
    let m = gen_module(0, &default_options());
    let text = write_module(&m);
    assert!(text.starts_with("fn main() {"), "unexpected start: {}", &text[..40.min(text.len())]);
    assert!(text.contains("let "), "no let declaration:\n{}", text);
    assert!(text.contains("return"), "no return:\n{}", text);
    assert!(text.ends_with('\n'));
}

#[test]
fn same_seed_gives_byte_identical_output() {
    let opts = default_options();
    for seed in [0u64, 1, 42, 7, 123456789] {
        let a = write_module(&gen_module(seed, &opts));
        let b = write_module(&gen_module(seed, &opts));
        assert_eq!(a, b, "two runs with seed {} diverged", seed);
    }
}

#[test]
fn bool_expr_at_depth_zero_has_a_boolean_production() {
    let mut g = ExprGenerator::new(rng(42), Scope::new());
    let e = g.gen_expr(TypeConstraints::bools());
    assert_eq!(e.data_type, DataType::Scalar(ScalarType::Bool));
    match &e.expr {
        Expr::Lit(Lit::Bool(_)) => (),
        Expr::UnOp(UnOp::Not, _) => (),
        Expr::BinOp(BinOp::LogAnd, _, _) => (),
        Expr::BinOp(BinOp::LogOr, _, _) => (),
        Expr::Var(_) => panic!("no boolean binding is visible in an empty scope"),
        other => panic!("production not admitted under a Bool constraint: {:?}", other),
    }
}

#[test]
fn vec_i32_expr_on_empty_scope_is_a_constructor() {
    let mut g = ExprGenerator::new(rng(7), Scope::new());
    let e = g.gen_expr(TypeConstraints::vec_i32s());
    match (&e.data_type, &e.expr) {
        (DataType::Vector(n, ScalarType::I32), Expr::TypeCons(t, args)) => {
            assert!((2..=4).contains(n));
            assert_eq!(*t, e.data_type);
            assert_eq!(args.len(), *n as usize);
            for a in args {
                assert_eq!(a.data_type, DataType::Scalar(ScalarType::I32));
            }
        },
        other => panic!("expected a vector constructor, got {:?}", other),
    }
}

#[test]
fn productions_are_uniform_over_the_admitted_set() {
    // For the unconstrained set at depth 0 over an empty scope the admitted
    // productions are literal, constructor, unary and binary; each should
    // come back about a quarter of the time over many fresh seeds.
    let mut counts = [0u32; 4];
    let n = 20000u64;
    for seed in 0..n {
        let mut g = ExprGenerator::new(rng(seed), Scope::new());
        let e = g.gen_expr(TypeConstraints::unconstrained());
        match &e.expr {
            Expr::Lit(_) => counts[0] += 1,
            Expr::TypeCons(_, _) => counts[1] += 1,
            Expr::UnOp(_, _) => counts[2] += 1,
            Expr::BinOp(_, _, _) => counts[3] += 1,
            other => panic!("production not admitted at depth zero: {:?}", other),
        }
    }
    let expected = n as f64 / 4.0;
    for &c in &counts {
        let dev = (c as f64 - expected).abs() / expected;
        assert!(dev < 0.05, "distribution is not uniform: {:?}", counts);
    }
}

fn assert_generator_form(e: &ExprNode) {
    match &e.expr {
        Expr::Lit(_) => (),
        Expr::Var(_) => (),
        Expr::TypeCons(t, args) => {
            assert_eq!(*t, e.data_type);
            match t {
                DataType::Vector(n, s) => {
                    assert_eq!(args.len(), *n as usize);
                    for a in args {
                        assert_eq!(a.data_type, DataType::Scalar(*s));
                        assert_generator_form(a);
                    }
                },
                other => panic!("generated a non-vector constructor: {:?}", other),
            }
        },
        Expr::UnOp(_, x) => assert_generator_form(x),
        Expr::BinOp(_, l, r) => {
            assert_generator_form(l);
            assert_generator_form(r);
        },
        other => panic!("generated a production outside the admitted set: {:?}", other),
    }
}

#[test]
fn generated_expressions_keep_the_generator_form() {
    for seed in 0..200u64 {
        let mut g = ExprGenerator::new(rng(seed), Scope::new());
        let e = g.gen_expr(TypeConstraints::unconstrained());
        assert_generator_form(&e);
    }
}

#[test]
fn generated_module_has_let_first_and_return_last() {
    for seed in 0..50u64 {
        let m = gen_module(seed, &default_options());
        assert_eq!(m.functions.len(), 1);
        let body = &m.functions[0].body;
        assert!(body.len() >= 2);
        assert!(matches!(body[0], Statement::LetDecl(_, _)));
        assert!(matches!(body[body.len() - 1], Statement::Return(None)));
    }
}
