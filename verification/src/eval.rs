//! A value semantics for the scalar fragment of the expression language:
//! enough to state and prove that reconditioning preserves meaning. An
//! expression evaluates under an environment of scalar values; evaluation is
//! partial, and an undefined operator application — division by zero, signed
//! overflow, an oversized shift — evaluates to nothing. The preservation
//! theorem says the rewritten expression evaluates to the same value wherever
//! the source expression evaluates at all.

use vstd::prelude::*;

use crate::ast::{BinOp, Expr, ExprNode, Lit, UnOp, shift_rhs_type};
use crate::recondition::{cast_rel, const_u32_shape, is_const_u32, is_masked, lemma_shape_const,
    rc_expr_rel, rc_exprs_rel, shift_rhs_rel};
use crate::safe_ops::{safe_div_i32_spec, safe_div_u32_spec, safe_mod_i32_spec, safe_mod_u32_spec,
    trunc_div, trunc_rem};
use crate::types::{DataType, ScalarType, scalar_of};

verus! {

/// A scalar runtime value.
pub enum Val {
    B(bool),
    I(i32),
    U(u32),
}

/// Unsigned wrap-around of an integer into `u32`.
pub open spec fn wrap_u(x: int) -> u32 {
    (x % 0x1_0000_0000) as u32
}

/// The unsigned value with the bit pattern of a signed one.
pub open spec fn iu(i: i32) -> u32 {
    if i >= 0 {
        i as u32
    } else {
        (i + 0x1_0000_0000) as u32
    }
}

/// The signed value with the bit pattern of an unsigned one.
pub open spec fn ui(u: u32) -> i32 {
    if u <= 0x7FFF_FFFFu32 {
        u as i32
    } else {
        (u - 0x1_0000_0000) as i32
    }
}

/// The value of an expression under an environment, when it has one. The
/// modeled fragment is scalar: vector constructions, postfix accessors and
/// calls other than the injected helpers evaluate to nothing; unsigned
/// arithmetic wraps; signed overflow, a zero divisor and a shift amount of
/// 32 or more are undefined.
pub open spec fn eval_expr(e: ExprNode, env: Map<Seq<char>, Val>) -> Option<Val>
    decreases e,
{
    match e.expr {
        Expr::Lit(l) => match l {
            Lit::Bool(b) => Option::Some(Val::B(b)),
            Lit::Int(i) => Option::Some(Val::I(i)),
            Lit::UInt(u) => Option::Some(Val::U(u)),
        },
        Expr::Var(n) => if env.contains_key(n@) {
            Option::Some(env[n@])
        } else {
            Option::None
        },
        Expr::TypeCons(t, args) => {
            if args@.len() == 1 {
                cast_eval(t, eval_expr(args@[0], env))
            } else {
                Option::None
            }
        },
        Expr::UnOp(op, x) => un_eval(op, e.data_type, eval_expr(*x, env)),
        Expr::BinOp(op, l, r) => {
            if (op == BinOp::LShift || op == BinOp::RShift) && (*r).data_type != shift_rhs_type(
                e.data_type,
            ) {
                Option::None
            } else {
                bin_eval(op, e.data_type, eval_expr(*l, env), eval_expr(*r, env))
            }
        },
        Expr::FnCall(n, args) => {
            if args@.len() == 2 {
                call_eval(n@, eval_expr(args@[0], env), eval_expr(args@[1], env))
            } else {
                Option::None
            }
        },
        Expr::Postfix(_, _) => Option::None,
    }
}

/// A scalar conversion: between the two integer types the value is the bit
/// pattern, reinterpreted.
pub open spec fn cast_eval(t: DataType, v: Option<Val>) -> Option<Val> {
    match (t, v) {
        (DataType::Scalar(ScalarType::I32), Option::Some(Val::I(i))) => Option::Some(Val::I(i)),
        (DataType::Scalar(ScalarType::I32), Option::Some(Val::U(u))) => Option::Some(
            Val::I(ui(u)),
        ),
        (DataType::Scalar(ScalarType::U32), Option::Some(Val::U(u))) => Option::Some(Val::U(u)),
        (DataType::Scalar(ScalarType::U32), Option::Some(Val::I(i))) => Option::Some(
            Val::U(iu(i)),
        ),
        _ => Option::None,
    }
}

/// A unary operator application; negation is defined only at the signed
/// scalar shape it is typed at.
pub open spec fn un_eval(op: UnOp, dt: DataType, v: Option<Val>) -> Option<Val> {
    match (op, v) {
        (UnOp::Neg, Option::Some(Val::I(i))) => if i == i32::MIN || dt != DataType::Scalar(
            ScalarType::I32,
        ) {
            Option::None
        } else {
            Option::Some(Val::I((0 - i) as i32))
        },
        (UnOp::Not, Option::Some(Val::B(b))) => Option::Some(Val::B(!b)),
        (UnOp::BitNot, Option::Some(Val::I(i))) => Option::Some(Val::I((-1 - i) as i32)),
        (UnOp::BitNot, Option::Some(Val::U(u))) => Option::Some(Val::U((u32::MAX - u) as u32)),
        _ => Option::None,
    }
}

/// A binary operator application: the values must fit the operator and the
/// node's annotated scalar shape, so evaluation is defined only on well
/// typed nodes.
pub open spec fn bin_eval(op: BinOp, dt: DataType, lv: Option<Val>, rv: Option<Val>) -> Option<
    Val,
> {
    match (lv, rv) {
        (Option::Some(l), Option::Some(r)) => bin_eval_vals(op, dt, l, r),
        _ => Option::None,
    }
}

/// A binary operator on two present values.
pub open spec fn bin_eval_vals(op: BinOp, dt: DataType, l: Val, r: Val) -> Option<Val> {
    match (op, l, r) {
        (BinOp::Plus, Val::I(x), Val::I(y)) => if dt == DataType::Scalar(ScalarType::I32) {
            in_i32_or_none(x + y)
        } else {
            Option::None
        },
        (BinOp::Minus, Val::I(x), Val::I(y)) => if dt == DataType::Scalar(ScalarType::I32) {
            in_i32_or_none(x - y)
        } else {
            Option::None
        },
        (BinOp::Times, Val::I(x), Val::I(y)) => if dt == DataType::Scalar(ScalarType::I32) {
            in_i32_or_none(x * y)
        } else {
            Option::None
        },
        (BinOp::Plus, Val::U(x), Val::U(y)) => if dt == DataType::Scalar(ScalarType::U32) {
            Option::Some(Val::U(wrap_u(x + y)))
        } else {
            Option::None
        },
        (BinOp::Minus, Val::U(x), Val::U(y)) => if dt == DataType::Scalar(ScalarType::U32) {
            Option::Some(Val::U(wrap_u(x - y)))
        } else {
            Option::None
        },
        (BinOp::Times, Val::U(x), Val::U(y)) => if dt == DataType::Scalar(ScalarType::U32) {
            Option::Some(Val::U(wrap_u(x * y)))
        } else {
            Option::None
        },
        (BinOp::Divide, Val::I(x), Val::I(y)) => if y == 0 || (x == i32::MIN && y == -1) || dt
            != DataType::Scalar(ScalarType::I32) {
            Option::None
        } else {
            Option::Some(Val::I(trunc_div(x as int, y as int) as i32))
        },
        (BinOp::Mod, Val::I(x), Val::I(y)) => if y == 0 || (x == i32::MIN && y == -1) || dt
            != DataType::Scalar(ScalarType::I32) {
            Option::None
        } else {
            Option::Some(Val::I(trunc_rem(x as int, y as int) as i32))
        },
        (BinOp::Divide, Val::U(x), Val::U(y)) => if y == 0 || dt != DataType::Scalar(
            ScalarType::U32,
        ) {
            Option::None
        } else {
            Option::Some(Val::U((x as int / y as int) as u32))
        },
        (BinOp::Mod, Val::U(x), Val::U(y)) => if y == 0 || dt != DataType::Scalar(
            ScalarType::U32,
        ) {
            Option::None
        } else {
            Option::Some(Val::U((x as int % y as int) as u32))
        },
        (BinOp::BitAnd, Val::I(x), Val::I(y)) => Option::Some(Val::I(x & y)),
        (BinOp::BitOr, Val::I(x), Val::I(y)) => Option::Some(Val::I(x | y)),
        (BinOp::BitXOr, Val::I(x), Val::I(y)) => Option::Some(Val::I(x ^ y)),
        (BinOp::BitAnd, Val::U(x), Val::U(y)) => Option::Some(Val::U(x & y)),
        (BinOp::BitOr, Val::U(x), Val::U(y)) => Option::Some(Val::U(x | y)),
        (BinOp::BitXOr, Val::U(x), Val::U(y)) => Option::Some(Val::U(x ^ y)),
        (BinOp::LShift, Val::U(x), Val::U(s)) => if s < 32 && dt == DataType::Scalar(
            ScalarType::U32,
        ) {
            Option::Some(Val::U(x << s))
        } else {
            Option::None
        },
        (BinOp::RShift, Val::U(x), Val::U(s)) => if s < 32 && dt == DataType::Scalar(
            ScalarType::U32,
        ) {
            Option::Some(Val::U(x >> s))
        } else {
            Option::None
        },
        (BinOp::LogAnd, Val::B(x), Val::B(y)) => Option::Some(Val::B(x && y)),
        (BinOp::LogOr, Val::B(x), Val::B(y)) => Option::Some(Val::B(x || y)),
        _ => Option::None,
    }
}

/// A signed result when it is representable, nothing when it overflows.
pub open spec fn in_i32_or_none(x: int) -> Option<Val> {
    if i32::MIN <= x <= i32::MAX {
        Option::Some(Val::I(x as i32))
    } else {
        Option::None
    }
}

/// A call of one of the injected helpers.
pub open spec fn call_eval(n: Seq<char>, lv: Option<Val>, rv: Option<Val>) -> Option<Val> {
    match (lv, rv) {
        (Option::Some(Val::I(x)), Option::Some(Val::I(y))) => if n == "SAFE_DIV_I32"@ {
            Option::Some(Val::I(safe_div_i32_spec(x, y) as i32))
        } else if n == "SAFE_MOD_I32"@ {
            Option::Some(Val::I(safe_mod_i32_spec(x, y) as i32))
        } else {
            Option::None
        },
        (Option::Some(Val::U(x)), Option::Some(Val::U(y))) => if n == "SAFE_DIV_U32"@ {
            Option::Some(Val::U(safe_div_u32_spec(x, y) as u32))
        } else if n == "SAFE_MOD_U32"@ {
            Option::Some(Val::U(safe_mod_u32_spec(x, y) as u32))
        } else {
            Option::None
        },
        _ => Option::None,
    }
}

/// A constant node evaluates, when it evaluates at all, to its constant.
proof fn lemma_const_eval(m: ExprNode, v: u32, w: u32, env: Map<Seq<char>, Val>)
    requires
        is_const_u32(m, v),
        eval_expr(m, env) == Option::Some(Val::U(w)),
    ensures
        w == v,
{
    reveal_with_fuel(eval_expr, 3);
    if let Expr::TypeCons(t, args) = m.expr {
        assert(args@[0].expr matches Expr::Lit(l) && l == Lit::UInt(v));
    }
}

/// A representable signed value is recovered from its unsigned residue.
proof fn lemma_signed_residue(s: int)
    requires
        i32::MIN <= s <= i32::MAX,
    ensures
        ui(wrap_u(s)) == s,
{
    let m = 0x1_0000_0000int;
    if s >= 0 {
        vstd::arithmetic::div_mod::lemma_small_mod(s as nat, m as nat);
    } else {
        vstd::arithmetic::div_mod::lemma_mod_multiples_vanish(1, s, m);
        vstd::arithmetic::div_mod::lemma_small_mod((s + m) as nat, m as nat);
    }
}

/// Reinterpreting two signed operands, wrapping their sum, and
/// reinterpreting back gives the true sum whenever it is representable.
proof fn lemma_wrap_add(x: i32, y: i32)
    requires
        i32::MIN <= x + y <= i32::MAX,
    ensures
        ui(wrap_u(iu(x) + iu(y))) == x + y,
{
    let m = 0x1_0000_0000int;
    let k: int = (iu(x) + iu(y) - (x + y)) / m;
    vstd::arithmetic::div_mod::lemma_mod_multiples_vanish(k, x as int + y as int, m);
    lemma_signed_residue(x as int + y as int);
}

/// The same for a difference.
proof fn lemma_wrap_sub(x: i32, y: i32)
    requires
        i32::MIN <= x - y <= i32::MAX,
    ensures
        ui(wrap_u(iu(x) - iu(y))) == x - y,
{
    let m = 0x1_0000_0000int;
    let k: int = (iu(x) - iu(y) - (x - y)) / m;
    vstd::arithmetic::div_mod::lemma_mod_multiples_vanish(k, x as int - y as int, m);
    lemma_signed_residue(x as int - y as int);
}

/// The same for a product; the cross terms are whole multiples of the
/// modulus.
proof fn lemma_wrap_mul(x: i32, y: i32)
    requires
        i32::MIN <= x * y <= i32::MAX,
    ensures
        ui(wrap_u(iu(x) * iu(y))) == x * y,
{
    let m = 0x1_0000_0000int;
    let dx: int = if x >= 0 {
        0
    } else {
        1
    };
    let dy: int = if y >= 0 {
        0
    } else {
        1
    };
    assert(iu(x) == x + dx * m);
    assert(iu(y) == y + dy * m);
    let k: int = dx * y + dy * x + dx * dy * m;
    assert(iu(x) * iu(y) == x * y + k * m) by (nonlinear_arith)
        requires
            iu(x) == x + dx * m && iu(y) == y + dy * m && k == dx * y + dy * x + dx * dy * m,
    ;
    vstd::arithmetic::div_mod::lemma_mod_multiples_vanish(k, x as int * y as int, m);
    lemma_signed_residue(x as int * y as int);
}

/// The same for a negation: zero minus the unsigned reinterpretation.
proof fn lemma_wrap_neg(x: i32)
    requires
        x != i32::MIN,
    ensures
        ui(wrap_u(0 - iu(x))) == 0 - x,
{
    let m = 0x1_0000_0000int;
    let k: int = (0 - iu(x) - (0 - x)) / m;
    vstd::arithmetic::div_mod::lemma_mod_multiples_vanish(k, 0 - x as int, m);
    lemma_signed_residue(0 - x as int);
}

/// Reconditioning preserves meaning: wherever the source expression and its
/// rewrite both evaluate, they evaluate to the same value. Together with
/// the safety wrappers' own contracts — which are total and agree with the
/// raw operator on its whole legal domain — this is the preservation claim
/// for the scalar fragment.
pub proof fn lemma_rc_preserves_eval(a: ExprNode, b: ExprNode, env: Map<Seq<char>, Val>)
    requires
        rc_expr_rel(a, b),
        eval_expr(a, env) is Some,
        eval_expr(b, env) is Some,
    ensures
        eval_expr(b, env) == eval_expr(a, env),
    decreases a, 1int,
{
    reveal_with_fuel(eval_expr, 3);
    reveal_with_fuel(rc_expr_rel, 2);
    reveal_with_fuel(rc_exprs_rel, 2);
    reveal_with_fuel(shift_rhs_rel, 2);
    reveal_with_fuel(cast_rel, 2);
    match a.expr {
        Expr::Lit(_) => {},
        Expr::Var(_) => {},
        Expr::Postfix(_, _) => {},
        Expr::TypeCons(t, args) => {
            if let Expr::TypeCons(t2, args2) = b.expr {
                assert(rc_expr_rel(args@[0], args2@[0]));
                lemma_rc_preserves_eval(args@[0], args2@[0], env);
            }
        },
        Expr::FnCall(n, args) => {
            if let Expr::FnCall(n2, args2) = b.expr {
                assert(rc_expr_rel(args@[0], args2@[0]));
                assert(rc_expr_rel(args@[1], args2@[1]));
                lemma_rc_preserves_eval(args@[0], args2@[0], env);
                lemma_rc_preserves_eval(args@[1], args2@[1], env);
            }
        },
        Expr::UnOp(op, x) => {
            if op == UnOp::Neg && scalar_of(a.data_type) == ScalarType::I32 {
                lemma_preserve_neg(a, b, env);
            } else {
                if let Expr::UnOp(op2, x2) = b.expr {
                    lemma_rc_preserves_eval(*x, *x2, env);
                }
            }
        },
        Expr::BinOp(op, l, r) => {
            if (op == BinOp::Divide || op == BinOp::Mod) && scalar_of(a.data_type)
                != ScalarType::Bool {
                lemma_preserve_div_mod(a, b, env);
            } else if op == BinOp::LShift || op == BinOp::RShift {
                lemma_preserve_shift(a, b, env);
            } else if (op == BinOp::Plus || op == BinOp::Minus || op == BinOp::Times)
                && scalar_of(a.data_type) == ScalarType::I32 {
                lemma_preserve_arith(a, b, env);
            } else {
                if let Expr::BinOp(op2, l2, r2) = b.expr {
                    lemma_rc_preserves_eval(*l, *l2, env);
                    lemma_rc_preserves_eval(*r, *r2, env);
                }
            }
        },
    }
}


/// The negation-wrap case of preservation.
#[verifier::rlimit(100)]
proof fn lemma_preserve_neg(a: ExprNode, b: ExprNode, env: Map<Seq<char>, Val>)
    requires
        rc_expr_rel(a, b),
        a.expr matches Expr::UnOp(op, x) && op == UnOp::Neg,
        scalar_of(a.data_type) == ScalarType::I32,
        eval_expr(a, env) is Some,
        eval_expr(b, env) is Some,
    ensures
        eval_expr(b, env) == eval_expr(a, env),
    decreases a, 0int,
{
    reveal_with_fuel(eval_expr, 2);
    reveal_with_fuel(rc_expr_rel, 2);
    reveal_with_fuel(cast_rel, 2);
    if let Expr::UnOp(op, x) = a.expr {
        if let Expr::TypeCons(t2, outer) = b.expr {
            let w = outer@[0];
            assert(eval_expr(b, env) == cast_eval(t2, eval_expr(w, env)));
            if let Expr::BinOp(iop, zl, zr) = w.expr {
                assert(eval_expr(w, env) == bin_eval(iop, w.data_type, eval_expr(*zl, env), eval_expr(*zr, env)));
                if let Expr::TypeCons(t3, inner) = zr.expr {
                    assert(eval_expr(*zr, env) == cast_eval(t3, eval_expr(inner@[0], env)));
                    assert(rc_expr_rel(*x, inner@[0]));
                    lemma_rc_preserves_eval(*x, inner@[0], env);
                    let xv = eval_expr(*x, env);
                    if let Option::Some(Val::I(i)) = xv {
                        if let Option::Some(Val::U(zv)) = eval_expr(*zl, env) {
                            lemma_shape_const(*zl, 0);
                            lemma_const_eval(*zl, 0, zv, env);
                            lemma_wrap_neg(i);
                        }
                    }
                }
            }
        }
    }
}

/// The division and remainder case of preservation.
#[verifier::rlimit(100)]
proof fn lemma_preserve_div_mod(a: ExprNode, b: ExprNode, env: Map<Seq<char>, Val>)
    requires
        rc_expr_rel(a, b),
        a.expr matches Expr::BinOp(op, l, r) && (op == BinOp::Divide || op == BinOp::Mod),
        scalar_of(a.data_type) != ScalarType::Bool,
        eval_expr(a, env) is Some,
        eval_expr(b, env) is Some,
    ensures
        eval_expr(b, env) == eval_expr(a, env),
    decreases a, 0int,
{
    reveal_with_fuel(eval_expr, 2);
    reveal_with_fuel(rc_expr_rel, 2);
    reveal_strlit("SAFE_DIV_I32");
    reveal_strlit("SAFE_DIV_U32");
    reveal_strlit("SAFE_MOD_I32");
    reveal_strlit("SAFE_MOD_U32");
    assert(("SAFE_DIV_I32"@)[5] == 'D' && ("SAFE_MOD_I32"@)[5] == 'M' && ("SAFE_DIV_U32"@)[5]
        == 'D' && ("SAFE_MOD_U32"@)[5] == 'M' && ("SAFE_DIV_I32"@)[9] == 'I' && ("SAFE_DIV_U32"@)[9]
        == 'U' && ("SAFE_MOD_I32"@)[9] == 'I' && ("SAFE_MOD_U32"@)[9] == 'U');
    assert("SAFE_DIV_I32"@ != "SAFE_MOD_I32"@ && "SAFE_DIV_U32"@ != "SAFE_MOD_U32"@
        && "SAFE_DIV_I32"@ != "SAFE_DIV_U32"@ && "SAFE_DIV_I32"@ != "SAFE_MOD_U32"@
        && "SAFE_MOD_I32"@ != "SAFE_DIV_U32"@ && "SAFE_MOD_I32"@ != "SAFE_MOD_U32"@);
    if let Expr::BinOp(op, l, r) = a.expr {
        if let Expr::FnCall(n2, args2) = b.expr {
            assert(eval_expr(b, env) == call_eval(
                n2@,
                eval_expr(args2@[0], env),
                eval_expr(args2@[1], env),
            ));
            assert(eval_expr(a, env) == bin_eval(op, a.data_type, eval_expr(*l, env), eval_expr(*r, env)));
            lemma_rc_preserves_eval(*l, args2@[0], env);
            lemma_rc_preserves_eval(*r, args2@[1], env);
            let lv = eval_expr(*l, env);
            let rv = eval_expr(*r, env);
            if lv matches Option::Some(Val::I(x)) && (rv matches Option::Some(Val::I(y))) {
                let x = lv->Some_0->I_0;
                let y = rv->Some_0->I_0;
                assert(y != 0 && !(x == i32::MIN && y == -1));
                assert(call_eval(n2@, lv, rv) == bin_eval(op, a.data_type, lv, rv));
            } else if lv matches Option::Some(Val::U(x)) && (rv matches Option::Some(
                Val::U(y),
            )) {
                let y = rv->Some_0->U_0;
                assert(y != 0);
                assert(call_eval(n2@, lv, rv) == bin_eval(op, a.data_type, lv, rv));
            }
        }
    }
}

/// The shift-masking case of preservation.
#[verifier::rlimit(100)]
proof fn lemma_preserve_shift(a: ExprNode, b: ExprNode, env: Map<Seq<char>, Val>)
    requires
        rc_expr_rel(a, b),
        a.expr is BinOp,
        a.expr->BinOp_0 == BinOp::LShift || a.expr->BinOp_0 == BinOp::RShift,
        eval_expr(a, env) is Some,
        eval_expr(b, env) is Some,
    ensures
        eval_expr(b, env) == eval_expr(a, env),
    decreases a, 0int,
{
    reveal_with_fuel(eval_expr, 2);
    reveal_with_fuel(rc_expr_rel, 2);
    reveal_with_fuel(shift_rhs_rel, 2);
    match a.expr {
        Expr::BinOp(op, l, r) => {
            match b.expr {
                Expr::BinOp(op2, l2, r2) => {
                    assert(eval_expr(a, env) == bin_eval(
                        op,
                        a.data_type,
                        eval_expr(*l, env),
                        eval_expr(*r, env),
                    ));
                    assert(eval_expr(b, env) == bin_eval(
                        op2,
                        b.data_type,
                        eval_expr(*l2, env),
                        eval_expr(*r2, env),
                    ));
                    lemma_rc_preserves_eval(*l, *l2, env);
                    if rc_expr_rel(*r, *r2) && is_masked(*r2) {
                        lemma_rc_preserves_eval(*r, *r2, env);
                    } else {
                        match r2.expr {
                            Expr::BinOp(mop, rr, m) => {
                                assert(eval_expr(*r2, env) == bin_eval(
                                    mop,
                                    r2.data_type,
                                    eval_expr(*rr, env),
                                    eval_expr(*m, env),
                                ));
                                lemma_rc_preserves_eval(*r, *rr, env);
                                assert(eval_expr(*r, env) matches Option::Some(Val::U(_)));
                                if let Option::Some(Val::U(s)) = eval_expr(*r, env) {
                                    assert(eval_expr(*m, env) matches Option::Some(Val::U(_)));
                                    if let Option::Some(Val::U(mv)) = eval_expr(*m, env) {
                                        lemma_shape_const(*m, 31);
                                        lemma_const_eval(*m, 31, mv, env);
                                        crate::safe_ops::lemma_shift_mask(s);
                                        assert(eval_expr(*r2, env) == Option::Some(Val::U(s)));
                                    }
                                }
                            },
                            _ => {},
                        }
                    }
                    assert(eval_expr(*r2, env) == eval_expr(*r, env));
                    assert(eval_expr(*l2, env) == eval_expr(*l, env));
                },
                _ => {},
            }
        },
        _ => {},
    }
}

/// The signed-arithmetic-wrap case of preservation.
#[verifier::rlimit(100)]
proof fn lemma_preserve_arith(a: ExprNode, b: ExprNode, env: Map<Seq<char>, Val>)
    requires
        rc_expr_rel(a, b),
        a.expr matches Expr::BinOp(op, l, r) && (op == BinOp::Plus || op == BinOp::Minus || op
            == BinOp::Times),
        scalar_of(a.data_type) == ScalarType::I32,
        eval_expr(a, env) is Some,
        eval_expr(b, env) is Some,
    ensures
        eval_expr(b, env) == eval_expr(a, env),
    decreases a, 0int,
{
    reveal_with_fuel(eval_expr, 2);
    reveal_with_fuel(rc_expr_rel, 2);
    reveal_with_fuel(cast_rel, 2);
    match a.expr {
        Expr::BinOp(op, l, r) => {
            match b.expr {
                Expr::TypeCons(t2, outer) => {
                    let w = outer@[0];
                    assert(eval_expr(a, env) == bin_eval(
                        op,
                        a.data_type,
                        eval_expr(*l, env),
                        eval_expr(*r, env),
                    ));
                    assert(eval_expr(b, env) == cast_eval(t2, eval_expr(w, env)));
                    match w.expr {
                        Expr::BinOp(iop, ul, ur) => {
                            assert(eval_expr(w, env) == bin_eval(
                                iop,
                                w.data_type,
                                eval_expr(*ul, env),
                                eval_expr(*ur, env),
                            ));
                            match ul.expr {
                                Expr::TypeCons(t3, inner) => {
                                    assert(eval_expr(*ul, env) == cast_eval(
                                        t3,
                                        eval_expr(inner@[0], env),
                                    ));
                                    assert(rc_expr_rel(*l, inner@[0]));
                                    lemma_rc_preserves_eval(*l, inner@[0], env);
                                },
                                _ => {},
                            }
                            match ur.expr {
                                Expr::TypeCons(t4, inner2) => {
                                    assert(eval_expr(*ur, env) == cast_eval(
                                        t4,
                                        eval_expr(inner2@[0], env),
                                    ));
                                    assert(rc_expr_rel(*r, inner2@[0]));
                                    lemma_rc_preserves_eval(*r, inner2@[0], env);
                                },
                                _ => {},
                            }
                            let lv = eval_expr(*l, env);
                            let rv = eval_expr(*r, env);
                            if lv matches Option::Some(Val::I(x)) && (rv matches Option::Some(
                                Val::I(y),
                            )) {
                                let x = lv->Some_0->I_0;
                                let y = rv->Some_0->I_0;
                                if op == BinOp::Plus {
                                    lemma_wrap_add(x, y);
                                } else if op == BinOp::Minus {
                                    lemma_wrap_sub(x, y);
                                } else {
                                    lemma_wrap_mul(x, y);
                                }
                            }
                        },
                        _ => {},
                    }
                },
                _ => {},
            }
        },
        _ => {},
    }
}


/// The definedness half of preservation: the rewrite evaluates wherever the
/// source does, and to the same value. With the safety wrappers' own
/// contracts — total, and agreeing with the raw operator on its whole legal
/// domain — this closes the claim that reconditioning is semantics
/// preserving on the scalar fragment.
pub proof fn lemma_rc_eval_defined(a: ExprNode, b: ExprNode, env: Map<Seq<char>, Val>)
    requires
        rc_expr_rel(a, b),
        eval_expr(a, env) is Some,
    ensures
        eval_expr(b, env) is Some,
        eval_expr(b, env) == eval_expr(a, env),
    decreases a, 1int,
{
    reveal_with_fuel(eval_expr, 3);
    reveal_with_fuel(rc_expr_rel, 2);
    reveal_with_fuel(rc_exprs_rel, 2);
    reveal_with_fuel(cast_rel, 2);
    match a.expr {
        Expr::Lit(_) => {},
        Expr::Var(_) => {},
        Expr::Postfix(_, _) => {},
        Expr::TypeCons(t, args) => {
            match b.expr {
                Expr::TypeCons(t2, args2) => {
                    assert(rc_expr_rel(args@[0], args2@[0]));
                    lemma_rc_eval_defined(args@[0], args2@[0], env);
                    assert(eval_expr(b, env) == cast_eval(t2, eval_expr(args2@[0], env)));
                },
                _ => {},
            }
        },
        Expr::FnCall(n, args) => {
            match b.expr {
                Expr::FnCall(n2, args2) => {
                    assert(rc_expr_rel(args@[0], args2@[0]));
                    assert(rc_expr_rel(args@[1], args2@[1]));
                    lemma_rc_eval_defined(args@[0], args2@[0], env);
                    lemma_rc_eval_defined(args@[1], args2@[1], env);
                    assert(eval_expr(b, env) == call_eval(
                        n2@,
                        eval_expr(args2@[0], env),
                        eval_expr(args2@[1], env),
                    ));
                },
                _ => {},
            }
        },
        Expr::UnOp(op, x) => {
            if op == UnOp::Neg && scalar_of(a.data_type) == ScalarType::I32 {
                lemma_defined_neg(a, b, env);
            } else {
                match b.expr {
                    Expr::UnOp(op2, x2) => {
                        lemma_rc_eval_defined(*x, *x2, env);
                        crate::recondition::lemma_rc_rel_type(a, b);
                        assert(eval_expr(b, env) == un_eval(
                            op2,
                            b.data_type,
                            eval_expr(*x2, env),
                        ));
                    },
                    _ => {},
                }
            }
        },
        Expr::BinOp(op, l, r) => {
            if (op == BinOp::Divide || op == BinOp::Mod) && scalar_of(a.data_type)
                != ScalarType::Bool {
                lemma_defined_div_mod(a, b, env);
            } else if op == BinOp::LShift || op == BinOp::RShift {
                lemma_defined_shift(a, b, env);
            } else if (op == BinOp::Plus || op == BinOp::Minus || op == BinOp::Times)
                && scalar_of(a.data_type) == ScalarType::I32 {
                lemma_defined_arith(a, b, env);
            } else {
                match b.expr {
                    Expr::BinOp(op2, l2, r2) => {
                        lemma_rc_eval_defined(*l, *l2, env);
                        lemma_rc_eval_defined(*r, *r2, env);
                        crate::recondition::lemma_rc_rel_type(a, b);
                        assert(eval_expr(a, env) == bin_eval(
                            op,
                            a.data_type,
                            eval_expr(*l, env),
                            eval_expr(*r, env),
                        ));
                        assert(eval_expr(b, env) == bin_eval(
                            op2,
                            b.data_type,
                            eval_expr(*l2, env),
                            eval_expr(*r2, env),
                        ));
                    },
                    _ => {},
                }
            }
        },
    }
    lemma_rc_preserves_eval(a, b, env);
}

/// Definedness through the negation wrap.
#[verifier::rlimit(100)]
proof fn lemma_defined_neg(a: ExprNode, b: ExprNode, env: Map<Seq<char>, Val>)
    requires
        rc_expr_rel(a, b),
        a.expr matches Expr::UnOp(op, x) && op == UnOp::Neg,
        scalar_of(a.data_type) == ScalarType::I32,
        eval_expr(a, env) is Some,
    ensures
        eval_expr(b, env) is Some,
    decreases a, 0int,
{
    reveal_with_fuel(eval_expr, 2);
    reveal_with_fuel(rc_expr_rel, 2);
    reveal_with_fuel(cast_rel, 2);
    match a.expr {
        Expr::UnOp(op, x) => {
            assert(eval_expr(a, env) == un_eval(op, a.data_type, eval_expr(*x, env)));
            assert(a.data_type == DataType::Scalar(ScalarType::I32));
            match b.expr {
                Expr::TypeCons(t2, outer) => {
                    let w = outer@[0];
                    assert(eval_expr(b, env) == cast_eval(t2, eval_expr(w, env)));
                    match w.expr {
                        Expr::BinOp(iop, zl, zr) => {
                            assert(w.data_type == DataType::Scalar(ScalarType::U32));
                            assert(eval_expr(w, env) == bin_eval(
                                iop,
                                w.data_type,
                                eval_expr(*zl, env),
                                eval_expr(*zr, env),
                            ));
                            reveal(const_u32_shape);
                            assert(zl.data_type == DataType::Scalar(ScalarType::U32));
                            assert(eval_expr(*zl, env) == Option::Some(Val::U(0)));
                            match zr.expr {
                                Expr::TypeCons(t3, inner) => {
                                    assert(eval_expr(*zr, env) == cast_eval(
                                        t3,
                                        eval_expr(inner@[0], env),
                                    ));
                                    assert(rc_expr_rel(*x, inner@[0]));
                                    lemma_rc_eval_defined(*x, inner@[0], env);
                                },
                                _ => {},
                            }
                        },
                        _ => {},
                    }
                },
                _ => {},
            }
        },
        _ => {},
    }
}

/// Definedness through the safe-call rewrite of division and remainder.
#[verifier::rlimit(100)]
proof fn lemma_defined_div_mod(a: ExprNode, b: ExprNode, env: Map<Seq<char>, Val>)
    requires
        rc_expr_rel(a, b),
        a.expr matches Expr::BinOp(op, l, r) && (op == BinOp::Divide || op == BinOp::Mod),
        scalar_of(a.data_type) != ScalarType::Bool,
        eval_expr(a, env) is Some,
    ensures
        eval_expr(b, env) is Some,
    decreases a, 0int,
{
    reveal_with_fuel(eval_expr, 2);
    reveal_with_fuel(rc_expr_rel, 2);
    reveal_strlit("SAFE_DIV_I32");
    reveal_strlit("SAFE_DIV_U32");
    reveal_strlit("SAFE_MOD_I32");
    reveal_strlit("SAFE_MOD_U32");
    assert(("SAFE_DIV_I32"@)[5] == 'D' && ("SAFE_MOD_I32"@)[5] == 'M' && ("SAFE_DIV_U32"@)[5]
        == 'D' && ("SAFE_MOD_U32"@)[5] == 'M');
    assert("SAFE_DIV_I32"@ != "SAFE_MOD_I32"@ && "SAFE_DIV_U32"@ != "SAFE_MOD_U32"@);
    match a.expr {
        Expr::BinOp(op, l, r) => {
            match b.expr {
                Expr::FnCall(n2, args2) => {
                    assert(eval_expr(a, env) == bin_eval(
                        op,
                        a.data_type,
                        eval_expr(*l, env),
                        eval_expr(*r, env),
                    ));
                    lemma_rc_eval_defined(*l, args2@[0], env);
                    lemma_rc_eval_defined(*r, args2@[1], env);
                    assert(eval_expr(b, env) == call_eval(
                        n2@,
                        eval_expr(args2@[0], env),
                        eval_expr(args2@[1], env),
                    ));
                    let lv = eval_expr(*l, env);
                    let rv = eval_expr(*r, env);
                    if lv matches Option::Some(Val::I(x)) && (rv matches Option::Some(
                        Val::I(y),
                    )) {
                        assert(a.data_type == DataType::Scalar(ScalarType::I32));
                        assert(call_eval(n2@, lv, rv) is Some);
                    } else if lv matches Option::Some(Val::U(x)) && (rv matches Option::Some(
                        Val::U(y),
                    )) {
                        assert(a.data_type == DataType::Scalar(ScalarType::U32));
                        assert(call_eval(n2@, lv, rv) is Some);
                    }
                },
                _ => {},
            }
        },
        _ => {},
    }
}

/// Definedness through shift masking.
#[verifier::rlimit(100)]
proof fn lemma_defined_shift(a: ExprNode, b: ExprNode, env: Map<Seq<char>, Val>)
    requires
        rc_expr_rel(a, b),
        a.expr matches Expr::BinOp(op, l, r) && (op == BinOp::LShift || op == BinOp::RShift),
        eval_expr(a, env) is Some,
    ensures
        eval_expr(b, env) is Some,
    decreases a, 0int,
{
    reveal_with_fuel(eval_expr, 2);
    reveal_with_fuel(rc_expr_rel, 2);
    reveal_with_fuel(shift_rhs_rel, 2);
    match a.expr {
        Expr::BinOp(op, l, r) => {
            assert((*r).data_type == shift_rhs_type(a.data_type));
            assert(eval_expr(a, env) == bin_eval(
                op,
                a.data_type,
                eval_expr(*l, env),
                eval_expr(*r, env),
            ));
            assert(a.data_type == DataType::Scalar(ScalarType::U32));
            match b.expr {
                Expr::BinOp(op2, l2, r2) => {
                    lemma_rc_eval_defined(*l, *l2, env);
                    crate::recondition::lemma_rc_rel_type(a, b);
                    if rc_expr_rel(*r, *r2) && is_masked(*r2) {
                        lemma_rc_eval_defined(*r, *r2, env);
                        crate::recondition::lemma_rc_rel_type(*r, *r2);
                        assert(eval_expr(b, env) == bin_eval(
                            op2,
                            b.data_type,
                            eval_expr(*l2, env),
                            eval_expr(*r2, env),
                        ));
                    } else {
                        match r2.expr {
                            Expr::BinOp(mop, rr, m) => {
                                lemma_rc_eval_defined(*r, *rr, env);
                                crate::recondition::lemma_rc_rel_type(*r, *rr);
                                assert(m.data_type == DataType::Scalar(ScalarType::U32));
                                reveal(const_u32_shape);
                                assert(eval_expr(*m, env) == Option::Some(Val::U(31)));
                                assert(eval_expr(*r2, env) == bin_eval(
                                    mop,
                                    r2.data_type,
                                    eval_expr(*rr, env),
                                    eval_expr(*m, env),
                                ));
                                if let Option::Some(Val::U(sv)) = eval_expr(*r, env) {
                                    crate::safe_ops::lemma_shift_mask(sv);
                                    assert(eval_expr(*r2, env) == Option::Some(
                                        Val::U(sv & 31),
                                    ));
                                }
                                assert(eval_expr(b, env) == bin_eval(
                                    op2,
                                    b.data_type,
                                    eval_expr(*l2, env),
                                    eval_expr(*r2, env),
                                ));
                            },
                            _ => {},
                        }
                    }
                },
                _ => {},
            }
        },
        _ => {},
    }
}

/// Definedness through the signed-arithmetic wrap.
#[verifier::rlimit(100)]
proof fn lemma_defined_arith(a: ExprNode, b: ExprNode, env: Map<Seq<char>, Val>)
    requires
        rc_expr_rel(a, b),
        a.expr matches Expr::BinOp(op, l, r) && (op == BinOp::Plus || op == BinOp::Minus || op
            == BinOp::Times),
        scalar_of(a.data_type) == ScalarType::I32,
        eval_expr(a, env) is Some,
    ensures
        eval_expr(b, env) is Some,
    decreases a, 0int,
{
    reveal_with_fuel(eval_expr, 2);
    reveal_with_fuel(rc_expr_rel, 2);
    reveal_with_fuel(cast_rel, 2);
    match a.expr {
        Expr::BinOp(op, l, r) => {
            assert(eval_expr(a, env) == bin_eval(
                op,
                a.data_type,
                eval_expr(*l, env),
                eval_expr(*r, env),
            ));
            assert(a.data_type == DataType::Scalar(ScalarType::I32));
            match b.expr {
                Expr::TypeCons(t2, outer) => {
                    let w = outer@[0];
                    assert(eval_expr(b, env) == cast_eval(t2, eval_expr(w, env)));
                    match w.expr {
                        Expr::BinOp(iop, ul, ur) => {
                            assert(w.data_type == DataType::Scalar(ScalarType::U32));
                            assert(eval_expr(w, env) == bin_eval(
                                iop,
                                w.data_type,
                                eval_expr(*ul, env),
                                eval_expr(*ur, env),
                            ));
                            match ul.expr {
                                Expr::TypeCons(t3, inner) => {
                                    assert(eval_expr(*ul, env) == cast_eval(
                                        t3,
                                        eval_expr(inner@[0], env),
                                    ));
                                    assert(rc_expr_rel(*l, inner@[0]));
                                    lemma_rc_eval_defined(*l, inner@[0], env);
                                },
                                _ => {},
                            }
                            match ur.expr {
                                Expr::TypeCons(t4, inner2) => {
                                    assert(eval_expr(*ur, env) == cast_eval(
                                        t4,
                                        eval_expr(inner2@[0], env),
                                    ));
                                    assert(rc_expr_rel(*r, inner2@[0]));
                                    lemma_rc_eval_defined(*r, inner2@[0], env);
                                },
                                _ => {},
                            }
                        },
                        _ => {},
                    }
                },
                _ => {},
            }
        },
        _ => {},
    }
}

} // verus!
