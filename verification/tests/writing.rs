use wgslsmith::ast::{BinOp, Expr, ExprNode, FnDecl, Lit, Module, Statement};
use wgslsmith::scope::Scope;
use wgslsmith::types::{DataType, ScalarType, TypeConstraints};
use wgslsmith::writer::write_module;

#[test]
fn writer_emits_the_exact_canonical_text() {
    let sum = ExprNode {
        data_type: DataType::Scalar(ScalarType::I32),
        expr: Expr::BinOp(
            BinOp::Plus,
            Box::new(ExprNode {
                data_type: DataType::Scalar(ScalarType::I32),
                expr: Expr::Lit(Lit::Int(1)),
            }),
            Box::new(ExprNode {
                data_type: DataType::Scalar(ScalarType::I32),
                expr: Expr::Lit(Lit::Int(-2)),
            }),
        ),
    };
    let ret = ExprNode {
        data_type: DataType::Scalar(ScalarType::U32),
        expr: Expr::Lit(Lit::UInt(7)),
    };
    let m = Module {
        helpers: vec![],
        functions: vec![
            FnDecl {
                name: "main".to_string(),
                params: vec![],
                result_type: Some(DataType::Scalar(ScalarType::U32)),
                body: vec![
                    Statement::LetDecl("x0".to_string(), sum),
                    Statement::Return(Some(ret)),
                ],
            },
        ],
    };
    let text = write_module(&m);
    assert_eq!(
        text,
        "fn main() -> u32 {\n    let x0 = (1 + -2);\n    return 7u;\n}\n"
    );
}

#[test]
fn writer_spells_vector_types_and_constructors() {
    let args: Vec<ExprNode> = (0..2)
        .map(|i| ExprNode {
            data_type: DataType::Scalar(ScalarType::U32),
            expr: Expr::Lit(Lit::UInt(i)),
        })
        .collect();
    let cons = ExprNode {
        data_type: DataType::Vector(2, ScalarType::U32),
        expr: Expr::TypeCons(DataType::Vector(2, ScalarType::U32), args),
    };
    let m = Module {
        helpers: vec![],
        functions: vec![
            FnDecl {
                name: "main".to_string(),
                params: vec![],
                result_type: None,
                body: vec![Statement::LetDecl("v".to_string(), cons)],
            },
        ],
    };
    let text = write_module(&m);
    assert_eq!(text, "fn main() {\n    let v = vec2<u32>(0u, 1u);\n}\n");
}

#[test]
fn scope_lookup_is_innermost_first() {
    let mut s = Scope::new();
    s.insert("a".to_string(), DataType::Scalar(ScalarType::I32), false);
    assert_eq!(s.lookup(&"a".to_string()), Some(DataType::Scalar(ScalarType::I32)));
    s.push();
    s.insert("a".to_string(), DataType::Scalar(ScalarType::Bool), true);
    assert_eq!(s.lookup(&"a".to_string()), Some(DataType::Scalar(ScalarType::Bool)));
    s.pop();
    assert_eq!(s.lookup(&"a".to_string()), Some(DataType::Scalar(ScalarType::I32)));
    assert_eq!(s.lookup(&"b".to_string()), None);
}

#[test]
fn scope_candidates_respect_constraints_and_mutability() {
    let mut s = Scope::new();
    s.insert("i".to_string(), DataType::Scalar(ScalarType::I32), false);
    s.insert("b".to_string(), DataType::Scalar(ScalarType::Bool), true);
    assert!(s.intersects(TypeConstraints::bools()));
    assert!(s.intersects(TypeConstraints::i32s()));
    assert!(!s.intersects(TypeConstraints::u32s()));
    assert!(!s.intersects(TypeConstraints::vectors()));
    assert!(s.intersects_assignable(TypeConstraints::bools()));
    assert!(!s.intersects_assignable(TypeConstraints::i32s()));
}
