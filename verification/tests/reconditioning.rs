use wgslsmith::analysis::remove_accessed_vars;
use wgslsmith::ast::{AssignmentLhs, BinOp, Expr, ExprNode, FnDecl, Lit, Module, SafeHelper,
    Statement, SwitchCase};
use wgslsmith::recondition::recondition;
use wgslsmith::safe_ops::{safe_div_i32, safe_div_u32, safe_mod_i32, safe_mod_u32, wrap_add_i32,
    wrap_mul_i32, wrap_neg_i32, wrap_sub_i32};
use wgslsmith::types::{DataType, ScalarType};
use wgslsmith::writer::write_module;

fn int_lit(v: i32) -> ExprNode {
    ExprNode { data_type: DataType::Scalar(ScalarType::I32), expr: Expr::Lit(Lit::Int(v)) }
}

fn uint_lit(v: u32) -> ExprNode {
    ExprNode { data_type: DataType::Scalar(ScalarType::U32), expr: Expr::Lit(Lit::UInt(v)) }
}

fn one_stmt_module(st: Statement) -> Module {
    Module {
        helpers: vec![],
        functions: vec![
            FnDecl { name: "main".to_string(), params: vec![], result_type: None, body: vec![st] },
        ],
    }
}

fn div_by_zero_module() -> Module {
    let div = ExprNode {
        data_type: DataType::Scalar(ScalarType::I32),
        expr: Expr::BinOp(BinOp::Divide, Box::new(int_lit(1)), Box::new(int_lit(0))),
    };
    one_stmt_module(Statement::LetDecl("a".to_string(), div))
}

fn vec2_int_lit(v: i32) -> ExprNode {
    ExprNode {
        data_type: DataType::Vector(2, ScalarType::I32),
        expr: Expr::TypeCons(DataType::Vector(2, ScalarType::I32), vec![int_lit(v), int_lit(v)]),
    }
}

fn vector_div_module() -> Module {
    let div = ExprNode {
        data_type: DataType::Vector(2, ScalarType::I32),
        expr: Expr::BinOp(BinOp::Divide, Box::new(vec2_int_lit(6)), Box::new(vec2_int_lit(0))),
    };
    one_stmt_module(Statement::LetDecl("v".to_string(), div))
}

fn oversized_shift_module() -> Module {
    let x = ExprNode {
        data_type: DataType::Scalar(ScalarType::I32),
        expr: Expr::Var("x".to_string()),
    };
    let shift = ExprNode {
        data_type: DataType::Scalar(ScalarType::I32),
        expr: Expr::BinOp(BinOp::LShift, Box::new(x), Box::new(uint_lit(33))),
    };
    one_stmt_module(Statement::LetDecl("s".to_string(), shift))
}

#[test]
fn division_by_zero_becomes_a_safe_call() {
    let r = recondition(div_by_zero_module());
    assert_eq!(r.helpers, vec![SafeHelper::DivI32]);
    match &r.functions[0].body[0] {
        Statement::LetDecl(name, e) => {
            assert_eq!(name, "a");
            match &e.expr {
                Expr::FnCall(n, args) => {
                    assert_eq!(n, "SAFE_DIV_I32");
                    assert_eq!(args.len(), 2);
                    assert_eq!(args[0], int_lit(1));
                    assert_eq!(args[1], int_lit(0));
                },
                other => panic!("division was not replaced: {:?}", other),
            }
        },
        other => panic!("unexpected statement: {:?}", other),
    }
    // The helper's value on the rewritten operands: a zero divisor returns
    // the dividend.
    assert_eq!(safe_div_i32(1, 0), 1);
}

#[test]
fn vector_division_calls_the_arity_keyed_helper() {
    // No overloading exists in the target language: a vec2<i32> division
    // dispatches through a helper named for its shape, whose elementwise
    // definition is emitted with the scalar helper ahead of all functions.
    let r = recondition(vector_div_module());
    assert_eq!(r.helpers, vec![SafeHelper::DivI32]);
    match &r.functions[0].body[0] {
        Statement::LetDecl(_, e) => match &e.expr {
            Expr::FnCall(n, args) => {
                assert_eq!(n, "SAFE_DIV_I32_V2");
                assert_eq!(args.len(), 2);
            },
            other => panic!("vector division was not replaced: {:?}", other),
        },
        other => panic!("unexpected statement: {:?}", other),
    }
    let text = write_module(&r);
    let scalar_pos = text.find("fn SAFE_DIV_I32(").unwrap();
    let v2_pos = text.find("fn SAFE_DIV_I32_V2(").unwrap();
    let main_pos = text.find("fn main").unwrap();
    assert!(scalar_pos < v2_pos && v2_pos < main_pos);

    let once = recondition(vector_div_module());
    let twice = recondition(recondition(vector_div_module()));
    assert_eq!(once, twice);
}

#[test]
fn oversized_shift_amount_is_masked() {
    let r = recondition(oversized_shift_module());
    match &r.functions[0].body[0] {
        Statement::LetDecl(_, e) => match &e.expr {
            Expr::BinOp(BinOp::LShift, _, rhs) => match &rhs.expr {
                Expr::BinOp(BinOp::BitAnd, amount, mask) => {
                    assert_eq!(**amount, uint_lit(33));
                    assert_eq!(**mask, uint_lit(31));
                },
                other => panic!("shift amount was not masked: {:?}", other),
            },
            other => panic!("unexpected expression: {:?}", other),
        },
        other => panic!("unexpected statement: {:?}", other),
    }
    // The masked amount equals the in-range amount the shift receives.
    assert_eq!(33u32 & 31, 1);
}

#[test]
fn reconditioning_is_idempotent() {
    let once = recondition(div_by_zero_module());
    let twice = recondition(recondition(div_by_zero_module()));
    assert_eq!(once, twice);

    let once = recondition(oversized_shift_module());
    let twice = recondition(recondition(oversized_shift_module()));
    assert_eq!(once, twice);

    let m = wgslsmith::generator::gen_module(
        11,
        &wgslsmith::generator::Options { seed: Some(11), debug: false, enabled_fns: vec![] },
    );
    let m2 = wgslsmith::generator::gen_module(
        11,
        &wgslsmith::generator::Options { seed: Some(11), debug: false, enabled_fns: vec![] },
    );
    let once = recondition(m);
    let twice = recondition(recondition(m2));
    assert_eq!(write_module(&once), write_module(&twice));
    assert_eq!(once, twice);
}

#[test]
fn signed_addition_is_wrapped_through_the_unsigned_domain() {
    let sum = ExprNode {
        data_type: DataType::Scalar(ScalarType::I32),
        expr: Expr::BinOp(BinOp::Plus, Box::new(int_lit(1)), Box::new(int_lit(2))),
    };
    let r = recondition(one_stmt_module(Statement::LetDecl("a".to_string(), sum)));
    assert!(r.helpers.is_empty());
    match &r.functions[0].body[0] {
        Statement::LetDecl(_, e) => {
            // i32(u32(1) + u32(2)): an i32 conversion around a u32 sum of
            // two u32 conversions.
            assert_eq!(e.data_type, DataType::Scalar(ScalarType::I32));
            match &e.expr {
                Expr::TypeCons(t, outer) => {
                    assert_eq!(*t, DataType::Scalar(ScalarType::I32));
                    assert_eq!(outer.len(), 1);
                    assert_eq!(outer[0].data_type, DataType::Scalar(ScalarType::U32));
                    match &outer[0].expr {
                        Expr::BinOp(BinOp::Plus, l, rr) => {
                            assert!(matches!(l.expr, Expr::TypeCons(_, _)));
                            assert!(matches!(rr.expr, Expr::TypeCons(_, _)));
                        },
                        other => panic!("expected an unsigned sum: {:?}", other),
                    }
                },
                other => panic!("signed sum was not wrapped: {:?}", other),
            }
        },
        other => panic!("unexpected statement: {:?}", other),
    }
}

#[test]
fn signed_negation_is_wrapped_through_the_unsigned_domain() {
    let neg = ExprNode {
        data_type: DataType::Scalar(ScalarType::I32),
        expr: Expr::UnOp(wgslsmith::ast::UnOp::Neg, Box::new(int_lit(5))),
    };
    let r = recondition(one_stmt_module(Statement::LetDecl("a".to_string(), neg)));
    match &r.functions[0].body[0] {
        Statement::LetDecl(_, e) => match &e.expr {
            Expr::TypeCons(t, outer) => {
                assert_eq!(*t, DataType::Scalar(ScalarType::I32));
                match &outer[0].expr {
                    Expr::BinOp(BinOp::Minus, z, _) => {
                        assert_eq!(**z, uint_lit(0));
                    },
                    other => panic!("expected a zero-minus form: {:?}", other),
                }
            },
            other => panic!("negation was not wrapped: {:?}", other),
        },
        other => panic!("unexpected statement: {:?}", other),
    }
}

#[test]
fn unsigned_arithmetic_is_left_alone() {
    let sum = ExprNode {
        data_type: DataType::Scalar(ScalarType::U32),
        expr: Expr::BinOp(BinOp::Plus, Box::new(uint_lit(1)), Box::new(uint_lit(2))),
    };
    let r = recondition(one_stmt_module(Statement::LetDecl("a".to_string(), sum)));
    assert!(r.helpers.is_empty());
    match &r.functions[0].body[0] {
        Statement::LetDecl(_, e) => {
            assert!(matches!(e.expr, Expr::BinOp(BinOp::Plus, _, _)));
        },
        other => panic!("unexpected statement: {:?}", other),
    }
}

#[test]
fn already_masked_shift_is_left_alone() {
    let masked_amount = ExprNode {
        data_type: DataType::Scalar(ScalarType::U32),
        expr: Expr::BinOp(BinOp::BitAnd, Box::new(uint_lit(40)), Box::new(uint_lit(31))),
    };
    let shift = ExprNode {
        data_type: DataType::Scalar(ScalarType::U32),
        expr: Expr::BinOp(BinOp::RShift, Box::new(uint_lit(8)), Box::new(masked_amount)),
    };
    let m = one_stmt_module(Statement::LetDecl("s".to_string(), shift));
    let m2 = one_stmt_module(match &m.functions[0].body[0] {
        Statement::LetDecl(n, e) => Statement::LetDecl(
            n.clone(),
            ExprNode { data_type: e.data_type, expr: clone_expr(&e.expr) },
        ),
        _ => unreachable!(),
    });
    let r = recondition(m);
    assert_eq!(r, m2);
}

fn clone_expr(e: &Expr) -> Expr {
    match e {
        Expr::Lit(Lit::UInt(v)) => Expr::Lit(Lit::UInt(*v)),
        Expr::BinOp(op, l, r) => Expr::BinOp(
            *op,
            Box::new(ExprNode { data_type: l.data_type, expr: clone_expr(&l.expr) }),
            Box::new(ExprNode { data_type: r.data_type, expr: clone_expr(&r.expr) }),
        ),
        _ => unreachable!(),
    }
}

#[test]
fn safe_operations_agree_on_the_legal_domain() {
    assert_eq!(safe_div_i32(7, 2), 3);
    assert_eq!(safe_div_i32(-7, 2), -3);
    assert_eq!(safe_div_i32(7, -2), -3);
    assert_eq!(safe_div_i32(-7, -2), 3);
    assert_eq!(safe_mod_i32(7, 3), 1);
    assert_eq!(safe_mod_i32(-7, 3), -1);
    assert_eq!(safe_mod_i32(7, -3), 1);
    assert_eq!(safe_div_u32(9, 4), 2);
    assert_eq!(safe_mod_u32(9, 4), 1);
}

#[test]
fn safe_operations_are_stable_outside_the_legal_domain() {
    assert_eq!(safe_div_i32(5, 0), 5);
    assert_eq!(safe_div_i32(i32::MIN, -1), i32::MIN);
    assert_eq!(safe_mod_i32(5, 0), 0);
    assert_eq!(safe_mod_i32(i32::MIN, -1), 0);
    assert_eq!(safe_div_u32(5, 0), 5);
    assert_eq!(safe_mod_u32(5, 0), 0);
}

#[test]
fn wrapping_helpers_match_twos_complement() {
    assert_eq!(wrap_add_i32(2, 3), 5);
    assert_eq!(wrap_add_i32(i32::MAX, 1), i32::MIN);
    assert_eq!(wrap_sub_i32(i32::MIN, 1), i32::MAX);
    assert_eq!(wrap_mul_i32(1 << 20, 1 << 20), 0);
    assert_eq!(wrap_neg_i32(5), -5);
    assert_eq!(wrap_neg_i32(i32::MIN), i32::MIN);
}

#[test]
fn helper_injection_happens_once_and_in_order() {
    // A module with both flavors of division: both helpers appear once, in
    // the canonical order, ahead of every function.
    let idiv = ExprNode {
        data_type: DataType::Scalar(ScalarType::I32),
        expr: Expr::BinOp(BinOp::Divide, Box::new(int_lit(4)), Box::new(int_lit(2))),
    };
    let udiv = ExprNode {
        data_type: DataType::Scalar(ScalarType::U32),
        expr: Expr::BinOp(BinOp::Divide, Box::new(uint_lit(4)), Box::new(uint_lit(2))),
    };
    let m = Module {
        helpers: vec![],
        functions: vec![
            FnDecl {
                name: "main".to_string(),
                params: vec![],
                result_type: None,
                body: vec![
                    Statement::LetDecl("a".to_string(), idiv),
                    Statement::LetDecl("b".to_string(), udiv),
                ],
            },
        ],
    };
    let r = recondition(m);
    assert_eq!(r.helpers, vec![SafeHelper::DivI32, SafeHelper::DivU32]);
    let text = write_module(&r);
    let div_pos = text.find("fn SAFE_DIV_I32").unwrap();
    let main_pos = text.find("fn main").unwrap();
    assert!(div_pos < main_pos);
}

#[test]
fn remove_accessed_vars_keeps_only_unread_names() {
    // `x` is read inside an if condition, `y` inside a switch case body,
    // `z` never: only `z` survives.
    let x_read = ExprNode {
        data_type: DataType::Scalar(ScalarType::Bool),
        expr: Expr::Var("x".to_string()),
    };
    let y_read = ExprNode {
        data_type: DataType::Scalar(ScalarType::I32),
        expr: Expr::Var("y".to_string()),
    };
    let switch = Statement::Switch(
        int_lit(0),
        vec![
            SwitchCase {
                selector: Lit::Int(1),
                body: vec![Statement::LetDecl("w".to_string(), y_read)],
            },
        ],
        vec![],
    );
    let m = Module {
        helpers: vec![],
        functions: vec![
            FnDecl {
                name: "main".to_string(),
                params: vec![],
                result_type: None,
                body: vec![Statement::If(x_read, vec![], None), switch],
            },
        ],
    };
    let mut vars = vec!["x".to_string(), "y".to_string(), "z".to_string()];
    remove_accessed_vars(&mut vars, &m);
    assert_eq!(vars, vec!["z".to_string()]);
}

#[test]
fn assignment_targets_do_not_count_as_reads() {
    let m = one_stmt_module(Statement::Assignment(
        AssignmentLhs::Expr(wgslsmith::ast::LhsExprNode {
            data_type: DataType::Scalar(ScalarType::I32),
            expr: wgslsmith::ast::LhsExpr::Ident("x".to_string()),
        }),
        int_lit(3),
    ));
    let mut vars = vec!["x".to_string()];
    remove_accessed_vars(&mut vars, &m);
    assert_eq!(vars, vec!["x".to_string()]);
}
