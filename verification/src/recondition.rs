//! The reconditioner: a post-order rewrite of a module that replaces every
//! operator able to reach undefined behaviour with a safe equivalent —
//! division and remainder become calls to injected helper functions, shift
//! amounts are masked to the bit width, and signed addition, subtraction,
//! multiplication and negation are performed in the unsigned domain and
//! reinterpreted back. The rewrite relation `rc_expr_rel` pins the output
//! down; idempotence is proved from it.

use vstd::prelude::*;

use crate::ast::{AssignmentLhs, BinOp, Else, Expr, ExprNode, FnDecl, ForLoopHeader,
    ForLoopInit, ForLoopUpdate, LhsExpr, LhsExprNode, Lit, Module, Postfix, SafeHelper, Statement,
    SwitchCase, UnOp};
use crate::types::{DataType, ScalarType, scalar_of};

verus! {

/// The name of the helper injected for a division or remainder on the given
/// shape. The target language has no function overloading, so each vector
/// arity dispatches elementwise through a helper of its own name.
pub open spec fn helper_name(op: BinOp, t: DataType) -> Seq<char> {
    match t {
        DataType::Scalar(s) => if op == BinOp::Divide {
            if s == ScalarType::I32 {
                "SAFE_DIV_I32"@
            } else {
                "SAFE_DIV_U32"@
            }
        } else {
            if s == ScalarType::I32 {
                "SAFE_MOD_I32"@
            } else {
                "SAFE_MOD_U32"@
            }
        },
        DataType::Vector(n, s) => if op == BinOp::Divide {
            if s == ScalarType::I32 {
                if n == 2 {
                    "SAFE_DIV_I32_V2"@
                } else if n == 3 {
                    "SAFE_DIV_I32_V3"@
                } else {
                    "SAFE_DIV_I32_V4"@
                }
            } else {
                if n == 2 {
                    "SAFE_DIV_U32_V2"@
                } else if n == 3 {
                    "SAFE_DIV_U32_V3"@
                } else {
                    "SAFE_DIV_U32_V4"@
                }
            }
        } else {
            if s == ScalarType::I32 {
                if n == 2 {
                    "SAFE_MOD_I32_V2"@
                } else if n == 3 {
                    "SAFE_MOD_I32_V3"@
                } else {
                    "SAFE_MOD_I32_V4"@
                }
            } else {
                if n == 2 {
                    "SAFE_MOD_U32_V2"@
                } else if n == 3 {
                    "SAFE_MOD_U32_V3"@
                } else {
                    "SAFE_MOD_U32_V4"@
                }
            }
        },
    }
}

/// The helper a division or remainder on the given scalar shape requires.
pub open spec fn helper_of(op: BinOp, s: ScalarType) -> SafeHelper {
    if op == BinOp::Divide {
        if s == ScalarType::I32 {
            SafeHelper::DivI32
        } else {
            SafeHelper::DivU32
        }
    } else {
        if s == ScalarType::I32 {
            SafeHelper::ModI32
        } else {
            SafeHelper::ModU32
        }
    }
}

/// The unsigned counterpart of a data type: the same shape over `u32`.
pub open spec fn u32_of(t: DataType) -> DataType {
    match t {
        DataType::Scalar(_) => DataType::Scalar(ScalarType::U32),
        DataType::Vector(n, _) => DataType::Vector(n, ScalarType::U32),
    }
}

/// The node is the `u32` constant `v`, as a scalar literal or a vector of
/// such literals.
pub open spec fn is_const_u32(e: ExprNode, v: u32) -> bool {
    ||| (e.expr matches Expr::Lit(l) && l == Lit::UInt(v))
    ||| (e.expr matches Expr::TypeCons(_, args) && (args@.len() >= 1 && forall|i: int|
        0 <= i < args@.len() ==> ((#[trigger] args@[i]).expr matches Expr::Lit(l) && l
            == Lit::UInt(v))))
}

/// The exact node the rewrite emits for the `u32` constant `v` at a shape:
/// a literal at scalar shapes, a componentwise constructor of literals at
/// vector shapes.
#[verifier::opaque]
pub open spec fn const_u32_shape(e: ExprNode, v: u32) -> bool {
    match e.data_type {
        DataType::Scalar(_) => e.expr matches Expr::Lit(l) && l == Lit::UInt(v),
        DataType::Vector(n, _) => if n >= 1 {
            e.expr matches Expr::TypeCons(t, args) && (t == e.data_type && args@.len() == n
                && forall|i: int|
                0 <= i < args@.len() ==> ((#[trigger] args@[i]).expr matches Expr::Lit(l) && l
                    == Lit::UInt(v)))
        } else {
            e.expr matches Expr::Lit(l) && l == Lit::UInt(v)
        },
    }
}

/// The emitted constant shape is in particular a constant.
pub proof fn lemma_shape_const(e: ExprNode, v: u32)
    requires
        const_u32_shape(e, v),
    ensures
        is_const_u32(e, v),
{
    reveal(const_u32_shape);
}

/// The shift amount is already masked: a bitwise and whose right operand is
/// the constant 31.
pub open spec fn is_masked(e: ExprNode) -> bool {
    e.expr matches Expr::BinOp(op, _, m) && (op == BinOp::BitAnd && is_const_u32(*m, 31))
}

/// `c` is the conversion of `x2` to the unsigned shape `ut`: a one-argument
/// type constructor.
pub open spec fn cast_rel(c: ExprNode, ut: DataType, x: ExprNode) -> bool
    decreases x, 3int,
{
    c.data_type == ut && (c.expr matches Expr::TypeCons(t, args) && (t == ut && args@.len() == 1
        && rc_expr_rel(x, args@[0])))
}

/// The post-order rewrite relation on expressions: `b` is the reconditioned
/// form of `a`.
pub open spec fn rc_expr_rel(a: ExprNode, b: ExprNode) -> bool
    decreases a, 2int,
{
    match a.expr {
        Expr::Lit(_) => b == a,
        Expr::Var(_) => b == a,
        Expr::TypeCons(t, args) => b.data_type == a.data_type && (b.expr matches Expr::TypeCons(
            t2,
            args2,
        ) && (t2 == t && rc_exprs_rel(args@, args2@))),
        Expr::Postfix(x, p) => b.data_type == a.data_type && (b.expr matches Expr::Postfix(x2, p2)
            && (rc_expr_rel(*x, *x2) && rc_postfix_rel(p, p2))),
        Expr::FnCall(name, args) => b.data_type == a.data_type && (b.expr matches Expr::FnCall(
            n2,
            args2,
        ) && (n2@ == name@ && rc_exprs_rel(args@, args2@))),
        Expr::UnOp(op, x) => {
            if op == UnOp::Neg && scalar_of(a.data_type) == ScalarType::I32 {
                // -x  becomes  i32(0u - u32(x)): negation in the unsigned
                // domain, reinterpreted back.
                let ut = u32_of(a.data_type);
                b.data_type == a.data_type && (b.expr matches Expr::TypeCons(t2, outer) && (t2
                    == a.data_type && outer@.len() == 1 && outer@[0].data_type == ut
                    && (outer@[0].expr matches Expr::BinOp(iop, zl, zr) && (iop == BinOp::Minus
                    && const_u32_shape(*zl, 0) && zl.data_type == ut && cast_rel(*zr, ut, *x)))))
            } else {
                b.data_type == a.data_type && (b.expr matches Expr::UnOp(op2, x2) && (op2 == op
                    && rc_expr_rel(*x, *x2)))
            }
        },
        Expr::BinOp(op, l, r) => {
            if (op == BinOp::Divide || op == BinOp::Mod) && scalar_of(a.data_type)
                != ScalarType::Bool {
                // a / b and a % b become calls to the injected safe helper.
                b.data_type == a.data_type && (b.expr matches Expr::FnCall(n2, args2) && (n2@
                    == helper_name(op, a.data_type) && args2@.len() == 2 && rc_expr_rel(
                    *l,
                    args2@[0],
                ) && rc_expr_rel(*r, args2@[1])))
            } else if op == BinOp::LShift || op == BinOp::RShift {
                b.data_type == a.data_type && (b.expr matches Expr::BinOp(op2, l2, r2) && (op2
                    == op && rc_expr_rel(*l, *l2) && shift_rhs_rel(*r, *r2)))
            } else if (op == BinOp::Plus || op == BinOp::Minus || op == BinOp::Times)
                && scalar_of(a.data_type) == ScalarType::I32 {
                // Signed arithmetic is performed in the unsigned domain and
                // reinterpreted: i32(u32(l) op u32(r)).
                let ut = u32_of(a.data_type);
                b.data_type == a.data_type && (b.expr matches Expr::TypeCons(t2, outer) && (t2
                    == a.data_type && outer@.len() == 1 && outer@[0].data_type == ut
                    && (outer@[0].expr matches Expr::BinOp(iop, ul, ur) && (iop == op && cast_rel(
                    *ul,
                    ut,
                    *l,
                ) && cast_rel(*ur, ut, *r)))))
            } else {
                b.data_type == a.data_type && (b.expr matches Expr::BinOp(op2, l2, r2) && (op2
                    == op && rc_expr_rel(*l, *l2) && rc_expr_rel(*r, *r2)))
            }
        },
    }
}

/// The rewritten right operand of a shift: the rewrite of the original,
/// masked with the constant 31 unless it already is.
pub open spec fn shift_rhs_rel(r: ExprNode, r2: ExprNode) -> bool
    decreases r, 3int,
{
    ||| (rc_expr_rel(r, r2) && is_masked(r2))
    ||| (r2.expr matches Expr::BinOp(op, rr, m) && (op == BinOp::BitAnd && !is_masked(*rr)
        && rc_expr_rel(r, *rr) && const_u32_shape(*m, 31) && m.data_type == u32_of(rr.data_type)
        && r2.data_type == rr.data_type))
}

/// Elementwise rewrite of a sequence of expressions.
pub open spec fn rc_exprs_rel(a: Seq<ExprNode>, b: Seq<ExprNode>) -> bool
    decreases a,
{
    a.len() == b.len() && forall|i: int| 0 <= i < a.len() ==> rc_expr_rel(#[trigger] a[i], b[i])
}

/// Rewrite below a postfix accessor: only an index expression is rewritten.
pub open spec fn rc_postfix_rel(p: Postfix, p2: Postfix) -> bool
    decreases p,
{
    match p {
        Postfix::ArrayIndex(i) => p2 matches Postfix::ArrayIndex(i2) && rc_expr_rel(*i, *i2),
        Postfix::Member(n) => p2 matches Postfix::Member(n2) && n2@ == n@,
    }
}

/// The rewrite never changes a node's resolved type.
pub proof fn lemma_rc_rel_type(a: ExprNode, b: ExprNode)
    requires
        rc_expr_rel(a, b),
    ensures
        b.data_type == a.data_type,
{
    match a.expr {
        Expr::Lit(_) => {},
        Expr::Var(_) => {},
        Expr::TypeCons(_, _) => {},
        Expr::Postfix(_, _) => {},
        Expr::UnOp(_, _) => {},
        Expr::BinOp(_, _, _) => {},
        Expr::FnCall(_, _) => {},
    }
}

/// Typing of an injected helper call: on a well-typed division or
/// remainder, the rewrite emits a call whose name encodes the node's own
/// shape and whose two arguments carry exactly that shape. The general
/// typing predicate is silent on calls, whose signatures it cannot know;
/// this pins the one kind of call the rewrite creates.
pub proof fn lemma_rc_helper_call_types(a: ExprNode, b: ExprNode)
    requires
        rc_expr_rel(a, b),
        crate::ast::expr_wf(a),
        a.expr matches Expr::BinOp(op, l, r) && (op == BinOp::Divide || op == BinOp::Mod),
        scalar_of(a.data_type) != ScalarType::Bool,
    ensures
        b.data_type == a.data_type,
        b.expr matches Expr::FnCall(n2, args2) && (n2@ == helper_name(
            a.expr->BinOp_0,
            a.data_type,
        ) && args2@.len() == 2 && args2@[0].data_type == a.data_type && args2@[1].data_type
            == a.data_type),
{
    match a.expr {
        Expr::BinOp(op, l, r) => {
            match b.expr {
                Expr::FnCall(n2, args2) => {
                    lemma_rc_rel_type(*l, args2@[0]);
                    lemma_rc_rel_type(*r, args2@[1]);
                },
                _ => {},
            }
        },
        _ => {},
    }
}

/// The helpers an expression requires: one for each division or remainder
/// the rewrite replaces.
pub open spec fn expr_needs(e: ExprNode) -> Set<SafeHelper>
    decreases e,
{
    match e.expr {
        Expr::Lit(_) => Set::empty(),
        Expr::Var(_) => Set::empty(),
        Expr::TypeCons(_, args) => exprs_needs(args@),
        Expr::Postfix(x, p) => expr_needs(*x).union(postfix_needs(p)),
        Expr::UnOp(_, x) => expr_needs(*x),
        Expr::FnCall(_, args) => exprs_needs(args@),
        Expr::BinOp(op, l, r) => {
            let sub = expr_needs(*l).union(expr_needs(*r));
            if (op == BinOp::Divide || op == BinOp::Mod) && scalar_of(e.data_type)
                != ScalarType::Bool {
                sub.insert(helper_of(op, scalar_of(e.data_type)))
            } else {
                sub
            }
        },
    }
}

/// The helpers a sequence of expressions requires.
pub open spec fn exprs_needs(s: Seq<ExprNode>) -> Set<SafeHelper>
    decreases s,
{
    if s.len() == 0 {
        Set::empty()
    } else {
        exprs_needs(s.drop_last()).union(expr_needs(s.last()))
    }
}

/// The helpers required below a postfix accessor.
pub open spec fn postfix_needs(p: Postfix) -> Set<SafeHelper>
    decreases p,
{
    match p {
        Postfix::ArrayIndex(i) => expr_needs(*i),
        Postfix::Member(_) => Set::empty(),
    }
}

// ---------------------------------------------------------------------------
// Statement-level rewrite
// ---------------------------------------------------------------------------

/// Rewrite of a left-hand-side expression: the assigned identifier is kept,
/// index expressions inside it are reconditioned.
pub open spec fn rc_lhs_expr_rel(a: LhsExprNode, b: LhsExprNode) -> bool
    decreases a,
{
    b.data_type == a.data_type && match a.expr {
        LhsExpr::Ident(n) => b.expr matches LhsExpr::Ident(n2) && n2@ == n@,
        LhsExpr::Postfix(x, p) => b.expr matches LhsExpr::Postfix(x2, p2) && (rc_lhs_expr_rel(
            *x,
            *x2,
        ) && rc_postfix_rel(p, p2)),
    }
}

/// Rewrite of an assignment target.
pub open spec fn rc_assign_lhs_rel(a: AssignmentLhs, b: AssignmentLhs) -> bool {
    match a {
        AssignmentLhs::Phony => b == AssignmentLhs::Phony,
        AssignmentLhs::Expr(x) => b matches AssignmentLhs::Expr(x2) && rc_lhs_expr_rel(x, x2),
    }
}

/// Rewrite of one statement: every contained expression is reconditioned,
/// every nested block elementwise.
pub open spec fn rc_stmt_rel(a: Statement, b: Statement) -> bool
    decreases a,
{
    match a {
        Statement::LetDecl(n, e) => b matches Statement::LetDecl(n2, e2) && (n2@ == n@
            && rc_expr_rel(e, e2)),
        Statement::VarDecl(n, init) => b matches Statement::VarDecl(n2, init2) && (n2@ == n@
            && match init {
            Option::Some(e) => init2 matches Option::Some(e2) && rc_expr_rel(e, e2),
            Option::None => init2 is None,
        }),
        Statement::Assignment(lhs, rhs) => b matches Statement::Assignment(lhs2, rhs2) && (
        rc_assign_lhs_rel(lhs, lhs2) && rc_expr_rel(rhs, rhs2)),
        Statement::Compound(ss) => b matches Statement::Compound(ss2) && rc_stmts_rel(ss@, ss2@),
        Statement::If(c, body, els) => b matches Statement::If(c2, body2, els2) && (rc_expr_rel(
            c,
            c2,
        ) && rc_stmts_rel(body@, body2@) && match els {
            Option::Some(e) => els2 matches Option::Some(e2) && rc_else_rel(*e, *e2),
            Option::None => els2 is None,
        }),
        Statement::Return(v) => b matches Statement::Return(v2) && match v {
            Option::Some(e) => v2 matches Option::Some(e2) && rc_expr_rel(e, e2),
            Option::None => v2 is None,
        },
        Statement::Loop(body) => b matches Statement::Loop(body2) && rc_stmts_rel(body@, body2@),
        Statement::Break => b == Statement::Break,
        Statement::Switch(sel, cases, default) => b matches Statement::Switch(
            sel2,
            cases2,
            default2,
        ) && (rc_expr_rel(sel, sel2) && rc_cases_rel(cases@, cases2@) && rc_stmts_rel(
            default@,
            default2@,
        )),
        Statement::ForLoop(h, body) => b matches Statement::ForLoop(h2, body2) && (rc_header_rel(
            h,
            h2,
        ) && rc_stmts_rel(body@, body2@)),
    }
}

/// Elementwise rewrite of a sequence of statements.
pub open spec fn rc_stmts_rel(a: Seq<Statement>, b: Seq<Statement>) -> bool
    decreases a,
{
    a.len() == b.len() && forall|i: int| 0 <= i < a.len() ==> rc_stmt_rel(#[trigger] a[i], b[i])
}

/// Rewrite of an `else` chain.
pub open spec fn rc_else_rel(a: Else, b: Else) -> bool
    decreases a,
{
    match a {
        Else::ElseIf(c, body, next) => b matches Else::ElseIf(c2, body2, next2) && (rc_expr_rel(
            c,
            c2,
        ) && rc_stmts_rel(body@, body2@) && match next {
            Option::Some(n) => next2 matches Option::Some(n2) && rc_else_rel(*n, *n2),
            Option::None => next2 is None,
        }),
        Else::Else(body) => b matches Else::Else(body2) && rc_stmts_rel(body@, body2@),
    }
}

/// Elementwise rewrite of switch cases; selectors are literals and are kept.
pub open spec fn rc_cases_rel(a: Seq<SwitchCase>, b: Seq<SwitchCase>) -> bool
    decreases a,
{
    a.len() == b.len() && forall|i: int|
        0 <= i < a.len() ==> ((#[trigger] b[i]).selector == a[i].selector && rc_stmts_rel(
            a[i].body@,
            b[i].body@,
        ))
}

/// Rewrite of a `for` loop header.
pub open spec fn rc_header_rel(a: ForLoopHeader, b: ForLoopHeader) -> bool
    decreases a,
{
    &&& match a.init {
        Option::Some(ForLoopInit::VarDecl(n, init)) => b.init matches Option::Some(
            ForLoopInit::VarDecl(n2, init2),
        ) && (n2@ == n@ && match init {
            Option::Some(e) => init2 matches Option::Some(e2) && rc_expr_rel(e, e2),
            Option::None => init2 is None,
        }),
        Option::None => b.init is None,
    }
    &&& match a.condition {
        Option::Some(c) => b.condition matches Option::Some(c2) && rc_expr_rel(c, c2),
        Option::None => b.condition is None,
    }
    &&& match a.update {
        Option::Some(ForLoopUpdate::Assignment(lhs, rhs)) => b.update matches Option::Some(
            ForLoopUpdate::Assignment(lhs2, rhs2),
        ) && (rc_assign_lhs_rel(lhs, lhs2) && rc_expr_rel(rhs, rhs2)),
        Option::None => b.update is None,
    }
}

/// Rewrite of one function declaration: header kept, body reconditioned.
pub open spec fn rc_fn_rel(a: FnDecl, b: FnDecl) -> bool {
    &&& b.name@ == a.name@
    &&& b.params@.len() == a.params@.len()
    &&& forall|i: int|
        0 <= i < a.params@.len() ==> (#[trigger] b.params@[i]).name@ == a.params@[i].name@
            && b.params@[i].data_type == a.params@[i].data_type
    &&& b.result_type == a.result_type
    &&& rc_stmts_rel(a.body@, b.body@)
}

// ---------------------------------------------------------------------------
// Helper needs of statements and modules
// ---------------------------------------------------------------------------

/// The helpers a statement requires.
pub open spec fn stmt_needs(a: Statement) -> Set<SafeHelper>
    decreases a,
{
    match a {
        Statement::LetDecl(_, e) => expr_needs(e),
        Statement::VarDecl(_, init) => match init {
            Option::Some(e) => expr_needs(e),
            Option::None => Set::empty(),
        },
        Statement::Assignment(lhs, rhs) => lhs_needs(lhs).union(expr_needs(rhs)),
        Statement::Compound(ss) => stmts_needs(ss@),
        Statement::If(c, body, els) => expr_needs(c).union(stmts_needs(body@)).union(
            match els {
                Option::Some(e) => else_needs(*e),
                Option::None => Set::empty(),
            },
        ),
        Statement::Return(v) => match v {
            Option::Some(e) => expr_needs(e),
            Option::None => Set::empty(),
        },
        Statement::Loop(body) => stmts_needs(body@),
        Statement::Break => Set::empty(),
        Statement::Switch(sel, cases, default) => expr_needs(sel).union(cases_needs(cases@)).union(
            stmts_needs(default@),
        ),
        Statement::ForLoop(h, body) => header_needs(h).union(stmts_needs(body@)),
    }
}

/// The helpers a sequence of statements requires.
pub open spec fn stmts_needs(s: Seq<Statement>) -> Set<SafeHelper>
    decreases s,
{
    if s.len() == 0 {
        Set::empty()
    } else {
        stmts_needs(s.drop_last()).union(stmt_needs(s.last()))
    }
}

/// The helpers an assignment target requires.
pub open spec fn lhs_needs(a: AssignmentLhs) -> Set<SafeHelper> {
    match a {
        AssignmentLhs::Phony => Set::empty(),
        AssignmentLhs::Expr(x) => lhs_expr_needs(x),
    }
}

/// The helpers a left-hand-side expression requires.
pub open spec fn lhs_expr_needs(a: LhsExprNode) -> Set<SafeHelper>
    decreases a,
{
    match a.expr {
        LhsExpr::Ident(_) => Set::empty(),
        LhsExpr::Postfix(x, p) => lhs_expr_needs(*x).union(postfix_needs(p)),
    }
}

/// The helpers an `else` chain requires.
pub open spec fn else_needs(a: Else) -> Set<SafeHelper>
    decreases a,
{
    match a {
        Else::ElseIf(c, body, next) => expr_needs(c).union(stmts_needs(body@)).union(
            match next {
                Option::Some(n) => else_needs(*n),
                Option::None => Set::empty(),
            },
        ),
        Else::Else(body) => stmts_needs(body@),
    }
}

/// The helpers the switch cases require.
pub open spec fn cases_needs(s: Seq<SwitchCase>) -> Set<SafeHelper>
    decreases s,
{
    if s.len() == 0 {
        Set::empty()
    } else {
        cases_needs(s.drop_last()).union(stmts_needs(s.last().body@))
    }
}

/// The helpers a `for` loop header requires.
pub open spec fn header_needs(h: ForLoopHeader) -> Set<SafeHelper> {
    (match h.init {
        Option::Some(ForLoopInit::VarDecl(_, Option::Some(e))) => expr_needs(e),
        _ => Set::empty(),
    }).union(
        match h.condition {
            Option::Some(c) => expr_needs(c),
            Option::None => Set::empty(),
        },
    ).union(
        match h.update {
            Option::Some(ForLoopUpdate::Assignment(lhs, rhs)) => lhs_needs(lhs).union(
                expr_needs(rhs),
            ),
            Option::None => Set::empty(),
        },
    )
}

/// The helpers a whole module requires.
pub open spec fn module_needs(m: Module) -> Set<SafeHelper> {
    fns_needs(m.functions@)
}

/// The helpers a sequence of function declarations requires.
pub open spec fn fns_needs(s: Seq<FnDecl>) -> Set<SafeHelper>
    decreases s,
{
    if s.len() == 0 {
        Set::empty()
    } else {
        fns_needs(s.drop_last()).union(stmts_needs(s.last().body@))
    }
}

// ---------------------------------------------------------------------------
// Helper list normalization
// ---------------------------------------------------------------------------

/// The canonical helper list: each of the four helpers, in fixed order,
/// present exactly when it is already present or newly required.
pub open spec fn norm_helpers(hs: Seq<SafeHelper>, need: Set<SafeHelper>) -> Seq<SafeHelper> {
    norm_one(hs, need, SafeHelper::DivI32) + norm_one(hs, need, SafeHelper::DivU32) + norm_one(
        hs,
        need,
        SafeHelper::ModI32,
    ) + norm_one(hs, need, SafeHelper::ModU32)
}

/// One canonical slot: a singleton when the helper is wanted, empty when
/// not.
pub open spec fn norm_one(hs: Seq<SafeHelper>, need: Set<SafeHelper>, h: SafeHelper) -> Seq<
    SafeHelper,
> {
    if hs.contains(h) || need.contains(h) {
        seq![h]
    } else {
        Seq::empty()
    }
}

/// The whole rewrite: functions reconditioned elementwise, helpers
/// normalized to the canonical list extended by everything the rewrites
/// need.
pub open spec fn rc_module_rel(a: Module, b: Module) -> bool {
    &&& b.helpers@ == norm_helpers(a.helpers@, module_needs(a))
    &&& b.functions@.len() == a.functions@.len()
    &&& forall|i: int|
        0 <= i < a.functions@.len() ==> rc_fn_rel(#[trigger] a.functions@[i], b.functions@[i])
}

// ---------------------------------------------------------------------------
// The executable rewrite
// ---------------------------------------------------------------------------

/// Which helpers the rewrites performed so far require.
pub struct Needs {
    pub div_i32: bool,
    pub div_u32: bool,
    pub mod_i32: bool,
    pub mod_u32: bool,
}

/// The set of helpers a `Needs` record stands for.
pub open spec fn needs_set(n: Needs) -> Set<SafeHelper> {
    Set::new(
        |h: SafeHelper|
            match h {
                SafeHelper::DivI32 => n.div_i32,
                SafeHelper::DivU32 => n.div_u32,
                SafeHelper::ModI32 => n.mod_i32,
                SafeHelper::ModU32 => n.mod_u32,
            },
    )
}

/// The scalar element type, executable form.
fn scalar_of_exec(t: DataType) -> (s: ScalarType)
    ensures
        s == scalar_of(t),
{
    match t {
        DataType::Scalar(s) => s,
        DataType::Vector(_, s) => s,
    }
}

/// Whether the node is the `u32` constant `v`, executable form.
#[verifier::loop_isolation(false)]
fn is_const_u32_exec(e: &ExprNode, v: u32) -> (r: bool)
    ensures
        r == is_const_u32(*e, v),
{
    match &e.expr {
        Expr::Lit(Lit::UInt(w)) => *w == v,
        Expr::TypeCons(_, args) => {
            if args.len() == 0 {
                return false;
            }
            let mut k: usize = 0;
            while k < args.len()
                invariant
                    k <= args@.len(),
                    forall|i: int|
                        0 <= i < k ==> ((#[trigger] args@[i]).expr matches Expr::Lit(l) && l
                            == Lit::UInt(v)),
                decreases args@.len() - k,
            {
                let ok = match &args[k].expr {
                    Expr::Lit(Lit::UInt(w)) => *w == v,
                    _ => false,
                };
                if !ok {
                    return false;
                }
                k = k + 1;
            }
            true
        },
        _ => false,
    }
}

/// Whether the shift amount is already masked, executable form.
fn is_masked_exec(e: &ExprNode) -> (r: bool)
    ensures
        r == is_masked(*e),
{
    match &e.expr {
        Expr::BinOp(BinOp::BitAnd, _, m) => is_const_u32_exec(m, 31),
        _ => false,
    }
}

/// The `u32` constant `v` at the unsigned shape of `t`: a literal for a
/// scalar, a componentwise constructor for a vector.
#[verifier::loop_isolation(false)]
fn const_u32_node(t: DataType, v: u32) -> (r: ExprNode)
    ensures
        is_const_u32(r, v),
        const_u32_shape(r, v),
        r.data_type == u32_of(t),
{
    proof {
        reveal(const_u32_shape);
    }
    match t {
        DataType::Scalar(_) => ExprNode {
            data_type: DataType::Scalar(ScalarType::U32),
            expr: Expr::Lit(Lit::UInt(v)),
        },
        DataType::Vector(n, _) => {
            let mut args: Vec<ExprNode> = Vec::new();
            let mut k: u32 = 0;
            while k < n
                invariant
                    k <= n,
                    args@.len() == k,
                    forall|i: int|
                        0 <= i < k ==> ((#[trigger] args@[i]).expr matches Expr::Lit(l) && l
                            == Lit::UInt(v)),
                decreases n - k,
            {
                args.push(
                    ExprNode {
                        data_type: DataType::Scalar(ScalarType::U32),
                        expr: Expr::Lit(Lit::UInt(v)),
                    },
                );
                k = k + 1;
            }
            if args.len() == 0 {
                // A zero-arity vector cannot occur; keep a scalar literal so
                // the constant shape always holds.
                ExprNode {
                    data_type: DataType::Vector(n, ScalarType::U32),
                    expr: Expr::Lit(Lit::UInt(v)),
                }
            } else {
                let r = ExprNode {
                    data_type: DataType::Vector(n, ScalarType::U32),
                    expr: Expr::TypeCons(DataType::Vector(n, ScalarType::U32), args),
                };
                proof {
                    reveal(const_u32_shape);
                    assert(const_u32_shape(r, v));
                }
                r
            }
        },
    }
}

/// The conversion of `x` to the unsigned shape of `t`.
fn cast_u32_node(t: DataType, x: ExprNode) -> (r: ExprNode)
    ensures
        forall|orig: ExprNode| rc_expr_rel(orig, x) ==> cast_rel(r, u32_of(t), orig),
{
    let ut = match t {
        DataType::Scalar(_) => DataType::Scalar(ScalarType::U32),
        DataType::Vector(n, _) => DataType::Vector(n, ScalarType::U32),
    };
    let mut args: Vec<ExprNode> = Vec::new();
    args.push(x);
    ExprNode { data_type: ut, expr: Expr::TypeCons(ut, args) }
}

/// Recondition one expression, recording the helpers the rewrites need.
pub fn rc_expr(e: ExprNode, needs: &mut Needs) -> (r: ExprNode)
    ensures
        rc_expr_rel(e, r),
        needs_set(*final(needs)) == needs_set(*old(needs)).union(expr_needs(e)),
    decreases e, 2int,
{
    let ghost e0 = e;
    let ExprNode { data_type, expr } = e;
    match expr {
        Expr::Lit(l) => {
            proof {
                assert(needs_set(*needs) =~= needs_set(*old(needs)).union(
                    expr_needs(e),
                ));
            }
            ExprNode { data_type, expr: Expr::Lit(l) }
        },
        Expr::Var(n) => {
            proof {
                assert(needs_set(*needs) =~= needs_set(*old(needs)).union(
                    expr_needs(e),
                ));
            }
            ExprNode { data_type, expr: Expr::Var(n) }
        },
        Expr::TypeCons(t, args) => {
            let args2 = rc_exprs(args, needs);
            ExprNode { data_type, expr: Expr::TypeCons(t, args2) }
        },
        Expr::Postfix(x, p) => {
            let x2 = rc_expr(*x, needs);
            let p2 = rc_postfix(p, needs);
            proof {
                assert(needs_set(*needs) =~= needs_set(*old(needs)).union(
                    expr_needs(e),
                ));
            }
            ExprNode { data_type, expr: Expr::Postfix(Box::new(x2), p2) }
        },
        Expr::FnCall(name, args) => {
            let args2 = rc_exprs(args, needs);
            ExprNode { data_type, expr: Expr::FnCall(name, args2) }
        },
        Expr::UnOp(op, x) => {
            let neg_i32 = match op {
                UnOp::Neg => match scalar_of_exec(data_type) {
                    ScalarType::I32 => true,
                    _ => false,
                },
                _ => false,
            };
            let x2 = rc_expr(*x, needs);
            if neg_i32 {
                let zero = const_u32_node(data_type, 0);
                let cast = cast_u32_node(data_type, x2);
                let ut = cast.data_type;
                let mut inner_args: Vec<ExprNode> = Vec::new();
                inner_args.push(
                    ExprNode {
                        data_type: ut,
                        expr: Expr::BinOp(BinOp::Minus, Box::new(zero), Box::new(cast)),
                    },
                );
                ExprNode { data_type, expr: Expr::TypeCons(data_type, inner_args) }
            } else {
                ExprNode { data_type, expr: Expr::UnOp(op, Box::new(x2)) }
            }
        },
        Expr::BinOp(op, l, r) => {
            let s = scalar_of_exec(data_type);
            let div_mod = match op {
                BinOp::Divide | BinOp::Mod => true,
                _ => false,
            };
            let shift = match op {
                BinOp::LShift | BinOp::RShift => true,
                _ => false,
            };
            let arith = match op {
                BinOp::Plus | BinOp::Minus | BinOp::Times => true,
                _ => false,
            };
            let sbool = match s {
                ScalarType::Bool => true,
                _ => false,
            };
            let si32 = match s {
                ScalarType::I32 => true,
                _ => false,
            };
            let l2 = rc_expr(*l, needs);
            let r2 = rc_expr(*r, needs);
            if div_mod && !sbool {
                let is_div = match op {
                    BinOp::Divide => true,
                    _ => false,
                };
                let name: &str = match data_type {
                    DataType::Scalar(_) => if is_div {
                        if si32 {
                            "SAFE_DIV_I32"
                        } else {
                            "SAFE_DIV_U32"
                        }
                    } else {
                        if si32 {
                            "SAFE_MOD_I32"
                        } else {
                            "SAFE_MOD_U32"
                        }
                    },
                    DataType::Vector(n, _) => if is_div {
                        if si32 {
                            if n == 2 {
                                "SAFE_DIV_I32_V2"
                            } else if n == 3 {
                                "SAFE_DIV_I32_V3"
                            } else {
                                "SAFE_DIV_I32_V4"
                            }
                        } else {
                            if n == 2 {
                                "SAFE_DIV_U32_V2"
                            } else if n == 3 {
                                "SAFE_DIV_U32_V3"
                            } else {
                                "SAFE_DIV_U32_V4"
                            }
                        }
                    } else {
                        if si32 {
                            if n == 2 {
                                "SAFE_MOD_I32_V2"
                            } else if n == 3 {
                                "SAFE_MOD_I32_V3"
                            } else {
                                "SAFE_MOD_I32_V4"
                            }
                        } else {
                            if n == 2 {
                                "SAFE_MOD_U32_V2"
                            } else if n == 3 {
                                "SAFE_MOD_U32_V3"
                            } else {
                                "SAFE_MOD_U32_V4"
                            }
                        }
                    },
                };
                let ghost pre = *needs;
                if is_div {
                    if si32 {
                        needs.div_i32 = true;
                    } else {
                        needs.div_u32 = true;
                    }
                } else {
                    if si32 {
                        needs.mod_i32 = true;
                    } else {
                        needs.mod_u32 = true;
                    }
                }
                let mut args: Vec<ExprNode> = Vec::new();
                args.push(l2);
                args.push(r2);
                proof {
                    let h = helper_of(op, scalar_of(e.data_type));
                    assert(expr_needs(e) =~= expr_needs(*l).union(expr_needs(*r)).insert(h));
                    assert forall|x: SafeHelper| needs_set(*needs).contains(x) == (needs_set(
                        *old(needs),
                    ).union(expr_needs(e))).contains(x) by {
                        if x == h {
                            assert(needs_set(*needs).contains(x));
                        } else {
                            assert(needs_set(*needs).contains(x) == needs_set(pre).contains(x));
                        }
                    }
                    assert(needs_set(*needs) =~= needs_set(*old(needs)).union(expr_needs(e)));
                }
                ExprNode {
                    data_type,
                    expr: Expr::FnCall(
                        <String as vstd::string::StringExecFns>::from_str(name),
                        args,
                    ),
                }
            } else if shift {
                proof {
                    assert(needs_set(*needs) =~= needs_set(*old(needs)).union(expr_needs(e)));
                }
                if is_masked_exec(&r2) {
                    proof {
                        assert(rc_expr_rel(*r, r2));
                        assert(is_masked(r2));
                        assert(shift_rhs_rel(*r, r2));
                    }
                    ExprNode { data_type, expr: Expr::BinOp(op, Box::new(l2), Box::new(r2)) }
                } else {
                    let m = const_u32_node(r2.data_type, 31);
                    let rt = r2.data_type;
                    let masked = ExprNode {
                        data_type: rt,
                        expr: Expr::BinOp(BinOp::BitAnd, Box::new(r2), Box::new(m)),
                    };
                    proof {
                        assert(masked.expr->BinOp_0 == BinOp::BitAnd);
                        assert(!is_masked(*masked.expr->BinOp_1));
                        assert(rc_expr_rel(*r, *masked.expr->BinOp_1));
                        assert(is_const_u32(*masked.expr->BinOp_2, 31));
                        assert(masked.data_type == masked.expr->BinOp_1.data_type);
                        assert(shift_rhs_rel(*r, masked));
                    }
                    ExprNode { data_type, expr: Expr::BinOp(op, Box::new(l2), Box::new(masked)) }
                }
            } else if arith && si32 {
                proof {
                    assert(needs_set(*needs) =~= needs_set(*old(needs)).union(expr_needs(e)));
                }
                let ul = cast_u32_node(data_type, l2);
                let ur = cast_u32_node(data_type, r2);
                let ut = ul.data_type;
                let mut inner_args: Vec<ExprNode> = Vec::new();
                inner_args.push(
                    ExprNode { data_type: ut, expr: Expr::BinOp(op, Box::new(ul), Box::new(ur)) },
                );
                ExprNode { data_type, expr: Expr::TypeCons(data_type, inner_args) }
            } else {
                proof {
                    assert(needs_set(*needs) =~= needs_set(*old(needs)).union(expr_needs(e)));
                }
                ExprNode { data_type, expr: Expr::BinOp(op, Box::new(l2), Box::new(r2)) }
            }
        },
    }
}

/// Recondition each expression of a sequence, in order.
#[verifier::loop_isolation(false)]
#[verifier::rlimit(100)]
pub fn rc_exprs(v: Vec<ExprNode>, needs: &mut Needs) -> (r: Vec<ExprNode>)
    ensures
        rc_exprs_rel(v@, r@),
        needs_set(*final(needs)) == needs_set(*old(needs)).union(exprs_needs(v@)),
    decreases v@, 3int,
{
    let ghost orig = v@;
    let mut input = v;
    let mut out: Vec<ExprNode> = Vec::new();
    while input.len() > 0
        invariant
            out@.len() + input@.len() == orig.len(),
            input@ == orig.subrange(out@.len() as int, orig.len() as int),
            forall|i: int| 0 <= i < out@.len() ==> rc_expr_rel(orig[i], #[trigger] out@[i]),
            needs_set(*needs) == needs_set(*old(needs)).union(
                exprs_needs(orig.subrange(0, out@.len() as int)),
            ),
        decreases input@.len(),
    {
        let ghost k = out@.len() as int;
        let x = input.remove(0);
        proof {
            assert(x == orig[k]);
            assert(decreases_to!(orig => orig[k]));
        }
        let y = rc_expr(x, needs);
        out.push(y);
        proof {
            assert(input@ =~= orig.subrange(out@.len() as int, orig.len() as int));
            assert(orig.subrange(0, k + 1).drop_last() =~= orig.subrange(0, k));
            assert(orig.subrange(0, k + 1).last() == orig[k]);
            assert(needs_set(*needs) =~= needs_set(*old(needs)).union(
                exprs_needs(orig.subrange(0, k + 1)),
            ));
        }
    }
    proof {
        assert(orig.subrange(0, orig.len() as int) =~= orig);
    }
    out
}

/// Recondition one statement.
pub fn rc_stmt(st: Statement, needs: &mut Needs) -> (r: Statement)
    ensures
        rc_stmt_rel(st, r),
        needs_set(*final(needs)) == needs_set(*old(needs)).union(stmt_needs(st)),
    decreases st, 2int,
{
    match st {
        Statement::LetDecl(n, e) => {
            let e2 = rc_expr(e, needs);
            Statement::LetDecl(n, e2)
        },
        Statement::VarDecl(n, init) => {
            let init2 = match init {
                Some(e) => Some(rc_expr(e, needs)),
                None => None,
            };
            proof {
                assert(needs_set(*needs) =~= needs_set(*old(needs)).union(stmt_needs(st)));
            }
            Statement::VarDecl(n, init2)
        },
        Statement::Assignment(lhs, rhs) => {
            let lhs2 = rc_assign_lhs(lhs, needs);
            let rhs2 = rc_expr(rhs, needs);
            proof {
                assert(needs_set(*needs) =~= needs_set(*old(needs)).union(stmt_needs(st)));
            }
            Statement::Assignment(lhs2, rhs2)
        },
        Statement::Compound(ss) => {
            let ss2 = rc_stmts(ss, needs);
            Statement::Compound(ss2)
        },
        Statement::If(c, body, els) => {
            let c2 = rc_expr(c, needs);
            let body2 = rc_stmts(body, needs);
            let els2 = match els {
                Some(e) => Some(Box::new(rc_else(*e, needs))),
                None => None,
            };
            proof {
                assert(needs_set(*needs) =~= needs_set(*old(needs)).union(stmt_needs(st)));
            }
            Statement::If(c2, body2, els2)
        },
        Statement::Return(v) => {
            let v2 = match v {
                Some(e) => Some(rc_expr(e, needs)),
                None => None,
            };
            proof {
                assert(needs_set(*needs) =~= needs_set(*old(needs)).union(stmt_needs(st)));
            }
            Statement::Return(v2)
        },
        Statement::Loop(body) => {
            let body2 = rc_stmts(body, needs);
            Statement::Loop(body2)
        },
        Statement::Break => {
            proof {
                assert(needs_set(*needs) =~= needs_set(*old(needs)).union(stmt_needs(st)));
            }
            Statement::Break
        },
        Statement::Switch(sel, cases, default) => {
            let sel2 = rc_expr(sel, needs);
            let cases2 = rc_cases(cases, needs);
            let default2 = rc_stmts(default, needs);
            proof {
                assert(needs_set(*needs) =~= needs_set(*old(needs)).union(stmt_needs(st)));
            }
            Statement::Switch(sel2, cases2, default2)
        },
        Statement::ForLoop(h, body) => {
            let h2 = rc_header(h, needs);
            let body2 = rc_stmts(body, needs);
            proof {
                assert(needs_set(*needs) =~= needs_set(*old(needs)).union(stmt_needs(st)));
            }
            Statement::ForLoop(h2, body2)
        },
    }
}

/// Recondition each statement of a sequence, in order.
#[verifier::loop_isolation(false)]
#[verifier::rlimit(100)]
pub fn rc_stmts(v: Vec<Statement>, needs: &mut Needs) -> (r: Vec<Statement>)
    ensures
        rc_stmts_rel(v@, r@),
        needs_set(*final(needs)) == needs_set(*old(needs)).union(stmts_needs(v@)),
    decreases v@, 3int,
{
    let ghost orig = v@;
    let mut input = v;
    let mut out: Vec<Statement> = Vec::new();
    while input.len() > 0
        invariant
            out@.len() + input@.len() == orig.len(),
            input@ == orig.subrange(out@.len() as int, orig.len() as int),
            forall|i: int| 0 <= i < out@.len() ==> rc_stmt_rel(orig[i], #[trigger] out@[i]),
            needs_set(*needs) == needs_set(*old(needs)).union(
                stmts_needs(orig.subrange(0, out@.len() as int)),
            ),
        decreases input@.len(),
    {
        let ghost k = out@.len() as int;
        let x = input.remove(0);
        proof {
            assert(x == orig[k]);
            assert(decreases_to!(orig => orig[k]));
        }
        let y = rc_stmt(x, needs);
        out.push(y);
        proof {
            assert(input@ =~= orig.subrange(out@.len() as int, orig.len() as int));
            assert(orig.subrange(0, k + 1).drop_last() =~= orig.subrange(0, k));
            assert(orig.subrange(0, k + 1).last() == orig[k]);
            assert(needs_set(*needs) =~= needs_set(*old(needs)).union(
                stmts_needs(orig.subrange(0, k + 1)),
            ));
        }
    }
    proof {
        assert(orig.subrange(0, orig.len() as int) =~= orig);
    }
    out
}

/// Recondition an `else` chain.
fn rc_else(e: Else, needs: &mut Needs) -> (r: Else)
    ensures
        rc_else_rel(e, r),
        needs_set(*final(needs)) == needs_set(*old(needs)).union(else_needs(e)),
    decreases e, 4int,
{
    match e {
        Else::ElseIf(c, body, next) => {
            let c2 = rc_expr(c, needs);
            let body2 = rc_stmts(body, needs);
            let next2 = match next {
                Some(n) => Some(Box::new(rc_else(*n, needs))),
                None => None,
            };
            proof {
                assert(needs_set(*needs) =~= needs_set(*old(needs)).union(else_needs(e)));
            }
            Else::ElseIf(c2, body2, next2)
        },
        Else::Else(body) => {
            let body2 = rc_stmts(body, needs);
            Else::Else(body2)
        },
    }
}

/// Recondition each switch case, in order; selectors are kept.
#[verifier::loop_isolation(false)]
fn rc_cases(v: Vec<SwitchCase>, needs: &mut Needs) -> (r: Vec<SwitchCase>)
    ensures
        rc_cases_rel(v@, r@),
        needs_set(*final(needs)) == needs_set(*old(needs)).union(cases_needs(v@)),
    decreases v@, 3int,
{
    let ghost orig = v@;
    let mut input = v;
    let mut out: Vec<SwitchCase> = Vec::new();
    while input.len() > 0
        invariant
            out@.len() + input@.len() == orig.len(),
            input@ == orig.subrange(out@.len() as int, orig.len() as int),
            forall|i: int|
                0 <= i < out@.len() ==> ((#[trigger] out@[i]).selector == orig[i].selector
                    && rc_stmts_rel(orig[i].body@, out@[i].body@)),
            needs_set(*needs) == needs_set(*old(needs)).union(
                cases_needs(orig.subrange(0, out@.len() as int)),
            ),
        decreases input@.len(),
    {
        let ghost k = out@.len() as int;
        let x = input.remove(0);
        proof {
            assert(x == orig[k]);
            assert(decreases_to!(orig => orig[k]));
            assert(decreases_to!(orig[k] => orig[k].body));
        }
        let SwitchCase { selector, body } = x;
        let body2 = rc_stmts(body, needs);
        out.push(SwitchCase { selector, body: body2 });
        proof {
            assert(input@ =~= orig.subrange(out@.len() as int, orig.len() as int));
            assert(orig.subrange(0, k + 1).drop_last() =~= orig.subrange(0, k));
            assert(orig.subrange(0, k + 1).last() == orig[k]);
            assert(needs_set(*needs) =~= needs_set(*old(needs)).union(
                cases_needs(orig.subrange(0, k + 1)),
            ));
        }
    }
    proof {
        assert(orig.subrange(0, orig.len() as int) =~= orig);
    }
    out
}

/// Recondition a `for` loop header.
fn rc_header(h: ForLoopHeader, needs: &mut Needs) -> (r: ForLoopHeader)
    ensures
        rc_header_rel(h, r),
        needs_set(*final(needs)) == needs_set(*old(needs)).union(header_needs(h)),
    decreases h, 2int,
{
    let ForLoopHeader { init, condition, update } = h;
    let init2 = match init {
        Some(ForLoopInit::VarDecl(n, i)) => {
            let i2 = match i {
                Some(e) => Some(rc_expr(e, needs)),
                None => None,
            };
            Some(ForLoopInit::VarDecl(n, i2))
        },
        None => None,
    };
    let condition2 = match condition {
        Some(c) => Some(rc_expr(c, needs)),
        None => None,
    };
    let update2 = match update {
        Some(ForLoopUpdate::Assignment(lhs, rhs)) => {
            let lhs2 = rc_assign_lhs(lhs, needs);
            let rhs2 = rc_expr(rhs, needs);
            Some(ForLoopUpdate::Assignment(lhs2, rhs2))
        },
        None => None,
    };
    proof {
        assert(needs_set(*needs) =~= needs_set(*old(needs)).union(header_needs(h)));
    }
    ForLoopHeader { init: init2, condition: condition2, update: update2 }
}

/// Recondition an assignment target.
fn rc_assign_lhs(lhs: AssignmentLhs, needs: &mut Needs) -> (r: AssignmentLhs)
    ensures
        rc_assign_lhs_rel(lhs, r),
        needs_set(*final(needs)) == needs_set(*old(needs)).union(lhs_needs(lhs)),
    decreases lhs, 2int,
{
    match lhs {
        AssignmentLhs::Phony => {
            proof {
                assert(needs_set(*needs) =~= needs_set(*old(needs)).union(lhs_needs(lhs)));
            }
            AssignmentLhs::Phony
        },
        AssignmentLhs::Expr(x) => {
            let x2 = rc_lhs_expr(x, needs);
            AssignmentLhs::Expr(x2)
        },
    }
}

/// Recondition a left-hand-side expression: index expressions inside it are
/// rewritten.
fn rc_lhs_expr(x: LhsExprNode, needs: &mut Needs) -> (r: LhsExprNode)
    ensures
        rc_lhs_expr_rel(x, r),
        needs_set(*final(needs)) == needs_set(*old(needs)).union(lhs_expr_needs(x)),
    decreases x, 2int,
{
    let LhsExprNode { data_type, expr } = x;
    match expr {
        LhsExpr::Ident(n) => {
            proof {
                assert(needs_set(*needs) =~= needs_set(*old(needs)).union(lhs_expr_needs(x)));
            }
            LhsExprNode { data_type, expr: LhsExpr::Ident(n) }
        },
        LhsExpr::Postfix(b, p) => {
            let b2 = rc_lhs_expr(*b, needs);
            let p2 = rc_postfix(p, needs);
            proof {
                assert(needs_set(*needs) =~= needs_set(*old(needs)).union(lhs_expr_needs(x)));
            }
            LhsExprNode { data_type, expr: LhsExpr::Postfix(Box::new(b2), p2) }
        },
    }
}

/// Whether a helper list holds a helper, executable form.
#[verifier::loop_isolation(false)]
fn helpers_contain(v: &Vec<SafeHelper>, h: SafeHelper) -> (r: bool)
    ensures
        r == v@.contains(h),
{
    let mut k: usize = 0;
    while k < v.len()
        invariant
            k <= v@.len(),
            forall|i: int| 0 <= i < k ==> v@[i] != h,
        decreases v@.len() - k,
    {
        if v[k] == h {
            return true;
        }
        k = k + 1;
    }
    proof {
        if v@.contains(h) {
            let i = choose|i: int| 0 <= i < v@.len() && v@[i] == h;
            assert(v@[i] == h);
        }
    }
    false
}

/// Recondition a whole module: rewrite every function body in post-order and
/// inject the helpers the rewrites need, ahead of all functions, in the
/// fixed canonical order.
#[verifier::loop_isolation(false)]
pub fn recondition(m: Module) -> (r: Module)
    ensures
        rc_module_rel(m, r),
{
    let Module { helpers, functions } = m;
    let ghost orig_fns = functions@;
    let ghost orig_helpers = helpers@;
    let mut needs = Needs { div_i32: false, div_u32: false, mod_i32: false, mod_u32: false };
    proof {
        assert(needs_set(needs) =~= Set::<SafeHelper>::empty());
    }
    let mut input = functions;
    let mut out_fns: Vec<FnDecl> = Vec::new();
    while input.len() > 0
        invariant
            out_fns@.len() + input@.len() == orig_fns.len(),
            input@ == orig_fns.subrange(out_fns@.len() as int, orig_fns.len() as int),
            forall|i: int| 0 <= i < out_fns@.len() ==> rc_fn_rel(orig_fns[i], #[trigger] out_fns@[i]),
            needs_set(needs) == fns_needs(orig_fns.subrange(0, out_fns@.len() as int)),
        decreases input@.len(),
    {
        let ghost k = out_fns@.len() as int;
        let f = input.remove(0);
        proof {
            assert(f == orig_fns[k]);
        }
        let FnDecl { name, params, result_type, body } = f;
        let body2 = rc_stmts(body, &mut needs);
        out_fns.push(FnDecl { name, params, result_type, body: body2 });
        proof {
            assert(input@ =~= orig_fns.subrange(out_fns@.len() as int, orig_fns.len() as int));
            assert(orig_fns.subrange(0, k + 1).drop_last() =~= orig_fns.subrange(0, k));
            assert(orig_fns.subrange(0, k + 1).last() == orig_fns[k]);
            assert(needs_set(needs) =~= fns_needs(orig_fns.subrange(0, k + 1)));
        }
    }
    proof {
        assert(orig_fns.subrange(0, orig_fns.len() as int) =~= orig_fns);
        assert(needs_set(needs) == module_needs(m));
    }
    let mut out_helpers: Vec<SafeHelper> = Vec::new();
    if helpers_contain(&helpers, SafeHelper::DivI32) || needs.div_i32 {
        out_helpers.push(SafeHelper::DivI32);
    }
    if helpers_contain(&helpers, SafeHelper::DivU32) || needs.div_u32 {
        out_helpers.push(SafeHelper::DivU32);
    }
    if helpers_contain(&helpers, SafeHelper::ModI32) || needs.mod_i32 {
        out_helpers.push(SafeHelper::ModI32);
    }
    if helpers_contain(&helpers, SafeHelper::ModU32) || needs.mod_u32 {
        out_helpers.push(SafeHelper::ModU32);
    }
    proof {
        assert(out_helpers@ =~= norm_helpers(orig_helpers, module_needs(m)));
    }
    Module { helpers: out_helpers, functions: out_fns }
}

// ---------------------------------------------------------------------------
// Idempotence
// ---------------------------------------------------------------------------

/// Structural equality of expressions by content: types, operators and
/// literal values compare directly, names by their characters.
pub open spec fn expr_eq(a: ExprNode, b: ExprNode) -> bool
    decreases a,
{
    &&& a.data_type == b.data_type
    &&& match a.expr {
        Expr::Lit(l) => b.expr matches Expr::Lit(l2) && l2 == l,
        Expr::TypeCons(t, args) => b.expr matches Expr::TypeCons(t2, args2) && (t2 == t
            && exprs_eq(args@, args2@)),
        Expr::Var(n) => b.expr matches Expr::Var(n2) && n2@ == n@,
        Expr::Postfix(x, p) => b.expr matches Expr::Postfix(x2, p2) && (expr_eq(*x, *x2)
            && postfix_eq(p, p2)),
        Expr::UnOp(op, x) => b.expr matches Expr::UnOp(op2, x2) && (op2 == op && expr_eq(*x, *x2)),
        Expr::BinOp(op, l, r) => b.expr matches Expr::BinOp(op2, l2, r2) && (op2 == op && expr_eq(
            *l,
            *l2,
        ) && expr_eq(*r, *r2)),
        Expr::FnCall(n, args) => b.expr matches Expr::FnCall(n2, args2) && (n2@ == n@ && exprs_eq(
            args@,
            args2@,
        )),
    }
}

/// Elementwise structural equality of expression sequences.
pub open spec fn exprs_eq(a: Seq<ExprNode>, b: Seq<ExprNode>) -> bool
    decreases a,
{
    a.len() == b.len() && forall|i: int| 0 <= i < a.len() ==> expr_eq(#[trigger] a[i], b[i])
}

/// Structural equality below a postfix accessor.
pub open spec fn postfix_eq(a: Postfix, b: Postfix) -> bool
    decreases a,
{
    match a {
        Postfix::ArrayIndex(i) => b matches Postfix::ArrayIndex(i2) && expr_eq(*i, *i2),
        Postfix::Member(n) => b matches Postfix::Member(n2) && n2@ == n@,
    }
}

/// An expression is conditioned when no rewrite would fire anywhere in it:
/// no raw division or remainder on an integer shape, every shift amount
/// masked, and no raw signed negation, addition, subtraction or
/// multiplication.
pub open spec fn cnd_expr(e: ExprNode) -> bool
    decreases e,
{
    match e.expr {
        Expr::Lit(_) => true,
        Expr::Var(_) => true,
        Expr::TypeCons(_, args) => cnd_exprs(args@),
        Expr::Postfix(x, p) => cnd_expr(*x) && cnd_postfix(p),
        Expr::FnCall(_, args) => cnd_exprs(args@),
        Expr::UnOp(op, x) => cnd_expr(*x) && !(op == UnOp::Neg && scalar_of(e.data_type)
            == ScalarType::I32),
        Expr::BinOp(op, l, r) => {
            &&& cnd_expr(*l)
            &&& cnd_expr(*r)
            &&& ((op == BinOp::Divide || op == BinOp::Mod) ==> scalar_of(e.data_type)
                == ScalarType::Bool)
            &&& ((op == BinOp::LShift || op == BinOp::RShift) ==> is_masked(*r))
            &&& ((op == BinOp::Plus || op == BinOp::Minus || op == BinOp::Times) ==> scalar_of(
                e.data_type,
            ) != ScalarType::I32)
        },
    }
}

/// Each expression of the sequence is conditioned.
pub open spec fn cnd_exprs(s: Seq<ExprNode>) -> bool
    decreases s,
{
    forall|i: int| 0 <= i < s.len() ==> cnd_expr(#[trigger] s[i])
}

/// Conditioned below a postfix accessor.
pub open spec fn cnd_postfix(p: Postfix) -> bool
    decreases p,
{
    match p {
        Postfix::ArrayIndex(i) => cnd_expr(*i),
        Postfix::Member(_) => true,
    }
}

/// A constant node is conditioned.
proof fn lemma_const_cnd(e: ExprNode, v: u32)
    requires
        is_const_u32(e, v),
    ensures
        cnd_expr(e),
{
        reveal_with_fuel(expr_eq, 2);
        reveal_with_fuel(exprs_eq, 2);
        reveal_with_fuel(postfix_eq, 2);
        reveal_with_fuel(cnd_expr, 2);
        reveal_with_fuel(cnd_exprs, 2);
        reveal_with_fuel(cnd_postfix, 2);
        reveal_with_fuel(rc_expr_rel, 2);
        reveal_with_fuel(rc_exprs_rel, 2);
        reveal_with_fuel(rc_postfix_rel, 2);
        reveal_with_fuel(shift_rhs_rel, 2);
        reveal_with_fuel(cast_rel, 2);
    if let Expr::TypeCons(t, args) = e.expr {
        assert forall|i: int| 0 <= i < args@.len() implies cnd_expr(#[trigger] args@[i]) by {
            assert(args@[i].expr matches Expr::Lit(l) && l == Lit::UInt(v));
        }
    }
}

/// Structural equality is reflexive.
pub proof fn lemma_expr_eq_refl(e: ExprNode)
    ensures
        expr_eq(e, e),
    decreases e, 1int,
{
        reveal_with_fuel(expr_eq, 2);
        reveal_with_fuel(exprs_eq, 2);
        reveal_with_fuel(postfix_eq, 2);
        reveal_with_fuel(cnd_expr, 2);
        reveal_with_fuel(cnd_exprs, 2);
        reveal_with_fuel(cnd_postfix, 2);
        reveal_with_fuel(rc_expr_rel, 2);
        reveal_with_fuel(rc_exprs_rel, 2);
        reveal_with_fuel(rc_postfix_rel, 2);
        reveal_with_fuel(shift_rhs_rel, 2);
        reveal_with_fuel(cast_rel, 2);
    match e.expr {
        Expr::Lit(_) => {},
        Expr::Var(_) => {},
        Expr::TypeCons(_, args) => {
            lemma_exprs_eq_refl(args@);
        },
        Expr::Postfix(x, p) => {
            lemma_expr_eq_refl(*x);
            match p {
                Postfix::ArrayIndex(i) => lemma_expr_eq_refl(*i),
                Postfix::Member(_) => {},
            }
        },
        Expr::UnOp(_, x) => {
            lemma_expr_eq_refl(*x);
        },
        Expr::BinOp(_, l, r) => {
            lemma_expr_eq_refl(*l);
            lemma_expr_eq_refl(*r);
        },
        Expr::FnCall(_, args) => {
            lemma_exprs_eq_refl(args@);
        },
    }
}

/// Reflexivity for sequences.
pub proof fn lemma_exprs_eq_refl(s: Seq<ExprNode>)
    ensures
        exprs_eq(s, s),
    decreases s, 2int,
{
        reveal_with_fuel(expr_eq, 2);
        reveal_with_fuel(exprs_eq, 2);
        reveal_with_fuel(postfix_eq, 2);
        reveal_with_fuel(cnd_expr, 2);
        reveal_with_fuel(cnd_exprs, 2);
        reveal_with_fuel(cnd_postfix, 2);
        reveal_with_fuel(rc_expr_rel, 2);
        reveal_with_fuel(rc_exprs_rel, 2);
        reveal_with_fuel(rc_postfix_rel, 2);
        reveal_with_fuel(shift_rhs_rel, 2);
        reveal_with_fuel(cast_rel, 2);
    assert forall|i: int| 0 <= i < s.len() implies expr_eq(#[trigger] s[i], s[i]) by {
        lemma_expr_eq_refl(s[i]);
    }
}

/// Structurally equal expressions agree on being a masked shift amount and
/// on being a given constant.
proof fn lemma_eq_preserves_shapes(a: ExprNode, b: ExprNode, v: u32)
    requires
        expr_eq(a, b),
    ensures
        is_masked(a) == is_masked(b),
        is_const_u32(a, v) == is_const_u32(b, v),
    decreases a,
{
        reveal_with_fuel(expr_eq, 2);
        reveal_with_fuel(exprs_eq, 2);
        reveal_with_fuel(postfix_eq, 2);
        reveal_with_fuel(cnd_expr, 2);
        reveal_with_fuel(cnd_exprs, 2);
        reveal_with_fuel(cnd_postfix, 2);
        reveal_with_fuel(rc_expr_rel, 2);
        reveal_with_fuel(rc_exprs_rel, 2);
        reveal_with_fuel(rc_postfix_rel, 2);
        reveal_with_fuel(shift_rhs_rel, 2);
        reveal_with_fuel(cast_rel, 2);
    match a.expr {
        Expr::BinOp(op, l, r) => {
            if let Expr::BinOp(op2, l2, r2) = b.expr {
                lemma_eq_preserves_shapes(*r, *r2, 31);
            }
        },
        Expr::TypeCons(t, args) => {
            if let Expr::TypeCons(t2, args2) = b.expr {
                if is_const_u32(a, v) {
                    assert forall|i: int|
                        0 <= i < args2@.len() implies ((#[trigger] args2@[i]).expr matches Expr::Lit(
                        l,
                    ) && l == Lit::UInt(v)) by {
                        assert(expr_eq(args@[i], args2@[i]));
                        assert(args@[i].expr matches Expr::Lit(l) && l == Lit::UInt(v));
                    }
                }
                if is_const_u32(b, v) {
                    assert forall|i: int|
                        0 <= i < args@.len() implies ((#[trigger] args@[i]).expr matches Expr::Lit(
                        l,
                    ) && l == Lit::UInt(v)) by {
                        assert(expr_eq(args@[i], args2@[i]));
                        assert(args2@[i].expr matches Expr::Lit(l) && l == Lit::UInt(v));
                    }
                }
            }
        },
        _ => {},
    }
}

/// The rewrite leaves its output conditioned: running it once removes every
/// rewritable operator.
pub proof fn lemma_rc_conditioned(a: ExprNode, b: ExprNode)
    requires
        rc_expr_rel(a, b),
    ensures
        cnd_expr(b),
    decreases a, 2int,
{
        reveal_with_fuel(expr_eq, 2);
        reveal_with_fuel(exprs_eq, 2);
        reveal_with_fuel(postfix_eq, 2);
        reveal_with_fuel(cnd_expr, 2);
        reveal_with_fuel(cnd_exprs, 2);
        reveal_with_fuel(cnd_postfix, 2);
        reveal_with_fuel(rc_expr_rel, 2);
        reveal_with_fuel(rc_exprs_rel, 2);
        reveal_with_fuel(rc_postfix_rel, 2);
        reveal_with_fuel(shift_rhs_rel, 2);
        reveal_with_fuel(cast_rel, 2);
    match a.expr {
        Expr::Lit(_) => {},
        Expr::Var(_) => {},
        Expr::TypeCons(t, args) => {
            if let Expr::TypeCons(t2, args2) = b.expr {
                lemma_rc_conditioned_seq(args@, args2@);
            }
        },
        Expr::Postfix(x, p) => {
            if let Expr::Postfix(x2, p2) = b.expr {
                lemma_rc_conditioned(*x, *x2);
                match p {
                    Postfix::ArrayIndex(i) => {
                        if let Postfix::ArrayIndex(i2) = p2 {
                            lemma_rc_conditioned(*i, *i2);
                        }
                    },
                    Postfix::Member(_) => {},
                }
            }
        },
        Expr::FnCall(name, args) => {
            if let Expr::FnCall(n2, args2) = b.expr {
                lemma_rc_conditioned_seq(args@, args2@);
            }
        },
        Expr::UnOp(op, x) => {
            if op == UnOp::Neg && scalar_of(a.data_type) == ScalarType::I32 {
                if let Expr::TypeCons(t2, outer) = b.expr {
                    let w = outer@[0];
                    if let Expr::BinOp(iop, zl, zr) = w.expr {
                        lemma_shape_const(*zl, 0);
                        lemma_const_cnd(*zl, 0);
                        if let Expr::TypeCons(t3, inner) = zr.expr {
                            lemma_rc_conditioned(*x, inner@[0]);
                            assert forall|i: int|
                                0 <= i < inner@.len() implies cnd_expr(#[trigger] inner@[i]) by {
                                assert(inner@[i] == inner@[0]);
                            }
                        }
                        assert(cnd_expr(*zr));
                        assert(scalar_of(w.data_type) == ScalarType::U32);
                        assert(cnd_expr(w));
                        assert forall|i: int|
                            0 <= i < outer@.len() implies cnd_expr(#[trigger] outer@[i]) by {
                            assert(outer@[i] == w);
                        }
                    }
                }
            } else {
                if let Expr::UnOp(op2, x2) = b.expr {
                    lemma_rc_conditioned(*x, *x2);
                }
            }
        },
        Expr::BinOp(op, l, r) => {
            if (op == BinOp::Divide || op == BinOp::Mod) && scalar_of(a.data_type)
                != ScalarType::Bool {
                if let Expr::FnCall(n2, args2) = b.expr {
                    lemma_rc_conditioned(*l, args2@[0]);
                    lemma_rc_conditioned(*r, args2@[1]);
                    assert forall|i: int|
                        0 <= i < args2@.len() implies cnd_expr(#[trigger] args2@[i]) by {
                        assert(args2@[i] == args2@[0] || args2@[i] == args2@[1]);
                    }
                }
            } else if op == BinOp::LShift || op == BinOp::RShift {
                if let Expr::BinOp(op2, l2, r2) = b.expr {
                    lemma_rc_conditioned(*l, *l2);
                    if rc_expr_rel(*r, *r2) && is_masked(*r2) {
                        lemma_rc_conditioned(*r, *r2);
                    } else {
                        if let Expr::BinOp(mop, rr, m) = r2.expr {
                            lemma_rc_conditioned(*r, *rr);
                            lemma_shape_const(*m, 31);
                            lemma_const_cnd(*m, 31);
                        }
                    }
                }
            } else if (op == BinOp::Plus || op == BinOp::Minus || op == BinOp::Times)
                && scalar_of(a.data_type) == ScalarType::I32 {
                if let Expr::TypeCons(t2, outer) = b.expr {
                    let w = outer@[0];
                    if let Expr::BinOp(iop, ul, ur) = w.expr {
                        if let Expr::TypeCons(t3, inner) = ul.expr {
                            lemma_rc_conditioned(*l, inner@[0]);
                            assert forall|i: int|
                                0 <= i < inner@.len() implies cnd_expr(#[trigger] inner@[i]) by {
                                assert(inner@[i] == inner@[0]);
                            }
                        }
                        if let Expr::TypeCons(t4, inner2) = ur.expr {
                            lemma_rc_conditioned(*r, inner2@[0]);
                            assert forall|i: int|
                                0 <= i < inner2@.len() implies cnd_expr(#[trigger] inner2@[i]) by {
                                assert(inner2@[i] == inner2@[0]);
                            }
                        }
                        assert(cnd_expr(*ul));
                        assert(cnd_expr(*ur));
                        assert(scalar_of(w.data_type) == ScalarType::U32);
                        assert(cnd_expr(w));
                        assert forall|i: int|
                            0 <= i < outer@.len() implies cnd_expr(#[trigger] outer@[i]) by {
                            assert(outer@[i] == w);
                        }
                    }
                }
            } else {
                if let Expr::BinOp(op2, l2, r2) = b.expr {
                    lemma_rc_conditioned(*l, *l2);
                    lemma_rc_conditioned(*r, *r2);
                }
            }
        },
    }
}

/// Sequence form of `lemma_rc_conditioned`.
pub proof fn lemma_rc_conditioned_seq(a: Seq<ExprNode>, b: Seq<ExprNode>)
    requires
        rc_exprs_rel(a, b),
    ensures
        cnd_exprs(b),
    decreases a, 3int,
{
        reveal_with_fuel(expr_eq, 2);
        reveal_with_fuel(exprs_eq, 2);
        reveal_with_fuel(postfix_eq, 2);
        reveal_with_fuel(cnd_expr, 2);
        reveal_with_fuel(cnd_exprs, 2);
        reveal_with_fuel(cnd_postfix, 2);
        reveal_with_fuel(rc_expr_rel, 2);
        reveal_with_fuel(rc_exprs_rel, 2);
        reveal_with_fuel(rc_postfix_rel, 2);
        reveal_with_fuel(shift_rhs_rel, 2);
        reveal_with_fuel(cast_rel, 2);
    assert forall|i: int| 0 <= i < b.len() implies cnd_expr(#[trigger] b[i]) by {
        assert(rc_expr_rel(a[i], b[i]));
        lemma_rc_conditioned(a[i], b[i]);
    }
}

/// On a conditioned expression the rewrite is the identity, up to
/// structural equality.
pub proof fn lemma_rc_identity(b: ExprNode, c: ExprNode)
    requires
        cnd_expr(b),
        rc_expr_rel(b, c),
    ensures
        expr_eq(c, b),
    decreases b, 2int,
{
        reveal_with_fuel(expr_eq, 2);
        reveal_with_fuel(exprs_eq, 2);
        reveal_with_fuel(postfix_eq, 2);
        reveal_with_fuel(cnd_expr, 2);
        reveal_with_fuel(cnd_exprs, 2);
        reveal_with_fuel(cnd_postfix, 2);
        reveal_with_fuel(rc_expr_rel, 2);
        reveal_with_fuel(rc_exprs_rel, 2);
        reveal_with_fuel(rc_postfix_rel, 2);
        reveal_with_fuel(shift_rhs_rel, 2);
        reveal_with_fuel(cast_rel, 2);
    match b.expr {
        Expr::Lit(_) => {
            lemma_expr_eq_refl(b);
        },
        Expr::Var(_) => {
            lemma_expr_eq_refl(b);
        },
        Expr::TypeCons(t, args) => {
            if let Expr::TypeCons(t2, args2) = c.expr {
                lemma_rc_identity_seq(args@, args2@);
            }
        },
        Expr::Postfix(x, p) => {
            if let Expr::Postfix(x2, p2) = c.expr {
                lemma_rc_identity(*x, *x2);
                match p {
                    Postfix::ArrayIndex(i) => {
                        if let Postfix::ArrayIndex(i2) = p2 {
                            lemma_rc_identity(*i, *i2);
                        }
                    },
                    Postfix::Member(_) => {},
                }
            }
        },
        Expr::FnCall(name, args) => {
            if let Expr::FnCall(n2, args2) = c.expr {
                lemma_rc_identity_seq(args@, args2@);
            }
        },
        Expr::UnOp(op, x) => {
            // Conditioned: the negation-wrap case cannot apply.
            if let Expr::UnOp(op2, x2) = c.expr {
                lemma_rc_identity(*x, *x2);
            }
        },
        Expr::BinOp(op, l, r) => {
            if op == BinOp::LShift || op == BinOp::RShift {
                if let Expr::BinOp(op2, l2, r2) = c.expr {
                    lemma_rc_identity(*l, *l2);
                    if rc_expr_rel(*r, *r2) && is_masked(*r2) {
                        lemma_rc_identity(*r, *r2);
                    } else {
                        // The mask-wrap case contradicts conditioning: the
                        // rewritten amount would be structurally equal to
                        // the already-masked original.
                        if let Expr::BinOp(mop, rr, m) = r2.expr {
                            lemma_rc_identity(*r, *rr);
                            lemma_eq_preserves_shapes(*rr, *r, 31);
                            assert(false);
                        }
                    }
                }
            } else {
                if let Expr::BinOp(op2, l2, r2) = c.expr {
                    lemma_rc_identity(*l, *l2);
                    lemma_rc_identity(*r, *r2);
                }
            }
        },
    }
}

/// Sequence form of `lemma_rc_identity`.
pub proof fn lemma_rc_identity_seq(b: Seq<ExprNode>, c: Seq<ExprNode>)
    requires
        cnd_exprs(b),
        rc_exprs_rel(b, c),
    ensures
        exprs_eq(c, b),
    decreases b, 3int,
{
        reveal_with_fuel(expr_eq, 2);
        reveal_with_fuel(exprs_eq, 2);
        reveal_with_fuel(postfix_eq, 2);
        reveal_with_fuel(cnd_expr, 2);
        reveal_with_fuel(cnd_exprs, 2);
        reveal_with_fuel(cnd_postfix, 2);
        reveal_with_fuel(rc_expr_rel, 2);
        reveal_with_fuel(rc_exprs_rel, 2);
        reveal_with_fuel(rc_postfix_rel, 2);
        reveal_with_fuel(shift_rhs_rel, 2);
        reveal_with_fuel(cast_rel, 2);
    assert forall|i: int| 0 <= i < c.len() implies expr_eq(#[trigger] c[i], b[i]) by {
        assert(rc_expr_rel(b[i], c[i]));
        assert(cnd_expr(b[i]));
        lemma_rc_identity(b[i], c[i]);
    }
}

/// A conditioned expression needs no helper.
proof fn lemma_cnd_needs_empty(e: ExprNode)
    requires
        cnd_expr(e),
    ensures
        expr_needs(e) =~= Set::<SafeHelper>::empty(),
    decreases e, 1int,
{
                reveal_with_fuel(expr_needs, 2);
        reveal_with_fuel(exprs_needs, 2);
        reveal_with_fuel(postfix_needs, 2);
        reveal_with_fuel(expr_eq, 2);
        reveal_with_fuel(exprs_eq, 2);
        reveal_with_fuel(postfix_eq, 2);
        reveal_with_fuel(cnd_expr, 2);
        reveal_with_fuel(cnd_exprs, 2);
        reveal_with_fuel(cnd_postfix, 2);
        reveal_with_fuel(rc_expr_rel, 2);
        reveal_with_fuel(rc_exprs_rel, 2);
        reveal_with_fuel(rc_postfix_rel, 2);
        reveal_with_fuel(shift_rhs_rel, 2);
        reveal_with_fuel(cast_rel, 2);
    match e.expr {
        Expr::Lit(_) => {},
        Expr::Var(_) => {},
        Expr::TypeCons(_, args) => {
            lemma_cnd_needs_empty_seq(args@);
        },
        Expr::Postfix(x, p) => {
            lemma_cnd_needs_empty(*x);
            match p {
                Postfix::ArrayIndex(i) => lemma_cnd_needs_empty(*i),
                Postfix::Member(_) => {},
            }
        },
        Expr::FnCall(_, args) => {
            lemma_cnd_needs_empty_seq(args@);
        },
        Expr::UnOp(_, x) => {
            lemma_cnd_needs_empty(*x);
        },
        Expr::BinOp(op, l, r) => {
            lemma_cnd_needs_empty(*l);
            lemma_cnd_needs_empty(*r);
        },
    }
}

/// Sequence form of `lemma_cnd_needs_empty`.
proof fn lemma_cnd_needs_empty_seq(s: Seq<ExprNode>)
    requires
        cnd_exprs(s),
    ensures
        exprs_needs(s) =~= Set::<SafeHelper>::empty(),
    decreases s, 2int,
{
                reveal_with_fuel(expr_needs, 2);
        reveal_with_fuel(exprs_needs, 2);
        reveal_with_fuel(postfix_needs, 2);
        reveal_with_fuel(expr_eq, 2);
        reveal_with_fuel(exprs_eq, 2);
        reveal_with_fuel(postfix_eq, 2);
        reveal_with_fuel(cnd_expr, 2);
        reveal_with_fuel(cnd_exprs, 2);
        reveal_with_fuel(cnd_postfix, 2);
        reveal_with_fuel(rc_expr_rel, 2);
        reveal_with_fuel(rc_exprs_rel, 2);
        reveal_with_fuel(rc_postfix_rel, 2);
        reveal_with_fuel(shift_rhs_rel, 2);
        reveal_with_fuel(cast_rel, 2);
    if s.len() > 0 {
        assert forall|i: int| 0 <= i < s.drop_last().len() implies cnd_expr(
            #[trigger] s.drop_last()[i],
        ) by {
            assert(s.drop_last()[i] == s[i]);
        }
        lemma_cnd_needs_empty_seq(s.drop_last());
        assert(cnd_expr(s.last()));
        lemma_cnd_needs_empty(s.last());
    }
}

/// Structural equality of left-hand sides by content.
pub open spec fn lhs_expr_eq(a: LhsExprNode, b: LhsExprNode) -> bool
    decreases a,
{
    &&& a.data_type == b.data_type
    &&& match a.expr {
        LhsExpr::Ident(n) => b.expr matches LhsExpr::Ident(n2) && n2@ == n@,
        LhsExpr::Postfix(x, p) => b.expr matches LhsExpr::Postfix(x2, p2) && (lhs_expr_eq(*x, *x2)
            && postfix_eq(p, p2)),
    }
}

/// Structural equality of assignment targets.
pub open spec fn assign_lhs_eq(a: AssignmentLhs, b: AssignmentLhs) -> bool {
    match a {
        AssignmentLhs::Phony => b is Phony,
        AssignmentLhs::Expr(x) => b matches AssignmentLhs::Expr(x2) && lhs_expr_eq(x, x2),
    }
}

/// Structural equality of statements by content.
pub open spec fn stmt_eq(a: Statement, b: Statement) -> bool
    decreases a, 0int,
{
    match a {
        Statement::LetDecl(n, e) => b matches Statement::LetDecl(n2, e2) && (n2@ == n@ && expr_eq(
            e,
            e2,
        )),
        Statement::VarDecl(n, init) => b matches Statement::VarDecl(n2, init2) && (n2@ == n@
            && match init {
            Option::Some(e) => init2 matches Option::Some(e2) && expr_eq(e, e2),
            Option::None => init2 is None,
        }),
        Statement::Assignment(lhs, rhs) => b matches Statement::Assignment(lhs2, rhs2) && (
        assign_lhs_eq(lhs, lhs2) && expr_eq(rhs, rhs2)),
        Statement::Compound(ss) => b matches Statement::Compound(ss2) && stmts_eq(ss@, ss2@),
        Statement::If(c, body, els) => b matches Statement::If(c2, body2, els2) && (expr_eq(c, c2)
            && stmts_eq(body@, body2@) && match els {
            Option::Some(e) => els2 matches Option::Some(e2) && else_eq(*e, *e2),
            Option::None => els2 is None,
        }),
        Statement::Return(v) => b matches Statement::Return(v2) && match v {
            Option::Some(e) => v2 matches Option::Some(e2) && expr_eq(e, e2),
            Option::None => v2 is None,
        },
        Statement::Loop(body) => b matches Statement::Loop(body2) && stmts_eq(body@, body2@),
        Statement::Break => b is Break,
        Statement::Switch(sel, cases, default) => b matches Statement::Switch(
            sel2,
            cases2,
            default2,
        ) && (expr_eq(sel, sel2) && cases_eq(cases@, cases2@) && stmts_eq(default@, default2@)),
        Statement::ForLoop(h, body) => b matches Statement::ForLoop(h2, body2) && (header_eq(h, h2)
            && stmts_eq(body@, body2@)),
    }
}

/// Elementwise structural equality of statement sequences.
pub open spec fn stmts_eq(a: Seq<Statement>, b: Seq<Statement>) -> bool
    decreases a, 1int,
{
    a.len() == b.len() && forall|i: int| 0 <= i < a.len() ==> stmt_eq(#[trigger] a[i], b[i])
}

/// Structural equality of `else` chains.
pub open spec fn else_eq(a: Else, b: Else) -> bool
    decreases a, 2int,
{
    match a {
        Else::ElseIf(c, body, next) => b matches Else::ElseIf(c2, body2, next2) && (expr_eq(c, c2)
            && stmts_eq(body@, body2@) && match next {
            Option::Some(n) => next2 matches Option::Some(n2) && else_eq(*n, *n2),
            Option::None => next2 is None,
        }),
        Else::Else(body) => b matches Else::Else(body2) && stmts_eq(body@, body2@),
    }
}

/// Elementwise structural equality of switch cases.
pub open spec fn cases_eq(a: Seq<SwitchCase>, b: Seq<SwitchCase>) -> bool
    decreases a, 2int,
{
    a.len() == b.len() && forall|i: int|
        0 <= i < a.len() ==> ((#[trigger] b[i]).selector == a[i].selector && stmts_eq(
            a[i].body@,
            b[i].body@,
        ))
}

/// Structural equality of `for` loop headers.
pub open spec fn header_eq(a: ForLoopHeader, b: ForLoopHeader) -> bool {
    &&& match a.init {
        Option::Some(ForLoopInit::VarDecl(n, init)) => b.init matches Option::Some(
            ForLoopInit::VarDecl(n2, init2),
        ) && (n2@ == n@ && match init {
            Option::Some(e) => init2 matches Option::Some(e2) && expr_eq(e, e2),
            Option::None => init2 is None,
        }),
        Option::None => b.init is None,
    }
    &&& match a.condition {
        Option::Some(c) => b.condition matches Option::Some(c2) && expr_eq(c, c2),
        Option::None => b.condition is None,
    }
    &&& match a.update {
        Option::Some(ForLoopUpdate::Assignment(lhs, rhs)) => b.update matches Option::Some(
            ForLoopUpdate::Assignment(lhs2, rhs2),
        ) && (assign_lhs_eq(lhs, lhs2) && expr_eq(rhs, rhs2)),
        Option::None => b.update is None,
    }
}

/// Structural equality of function declarations.
pub open spec fn fn_eq(a: FnDecl, b: FnDecl) -> bool {
    &&& b.name@ == a.name@
    &&& b.params@.len() == a.params@.len()
    &&& forall|i: int|
        0 <= i < a.params@.len() ==> (#[trigger] b.params@[i]).name@ == a.params@[i].name@
            && b.params@[i].data_type == a.params@[i].data_type
    &&& b.result_type == a.result_type
    &&& stmts_eq(a.body@, b.body@)
}

/// Structural equality of modules: same helper list, same functions by
/// content.
pub open spec fn module_eq(a: Module, b: Module) -> bool {
    &&& b.helpers@ == a.helpers@
    &&& b.functions@.len() == a.functions@.len()
    &&& forall|i: int| 0 <= i < a.functions@.len() ==> fn_eq(#[trigger] a.functions@[i], b.functions@[i])
}

/// A conditioned left-hand side: the index expressions inside it are
/// conditioned.
pub open spec fn cnd_lhs_expr(a: LhsExprNode) -> bool
    decreases a,
{
    match a.expr {
        LhsExpr::Ident(_) => true,
        LhsExpr::Postfix(x, p) => cnd_lhs_expr(*x) && cnd_postfix(p),
    }
}

/// A conditioned statement: every expression anywhere in it is conditioned.
pub open spec fn cnd_stmt(a: Statement) -> bool
    decreases a, 0int,
{
    match a {
        Statement::LetDecl(_, e) => cnd_expr(e),
        Statement::VarDecl(_, init) => match init {
            Option::Some(e) => cnd_expr(e),
            Option::None => true,
        },
        Statement::Assignment(lhs, rhs) => cnd_expr(rhs) && match lhs {
            AssignmentLhs::Phony => true,
            AssignmentLhs::Expr(x) => cnd_lhs_expr(x),
        },
        Statement::Compound(ss) => cnd_stmts(ss@),
        Statement::If(c, body, els) => cnd_expr(c) && cnd_stmts(body@) && match els {
            Option::Some(e) => cnd_else(*e),
            Option::None => true,
        },
        Statement::Return(v) => match v {
            Option::Some(e) => cnd_expr(e),
            Option::None => true,
        },
        Statement::Loop(body) => cnd_stmts(body@),
        Statement::Break => true,
        Statement::Switch(sel, cases, default) => cnd_expr(sel) && cnd_cases(cases@) && cnd_stmts(
            default@,
        ),
        Statement::ForLoop(h, body) => cnd_header(h) && cnd_stmts(body@),
    }
}

/// Each statement of the sequence is conditioned.
pub open spec fn cnd_stmts(s: Seq<Statement>) -> bool
    decreases s, 1int,
{
    forall|i: int| 0 <= i < s.len() ==> cnd_stmt(#[trigger] s[i])
}

/// A conditioned `else` chain.
pub open spec fn cnd_else(e: Else) -> bool
    decreases e, 2int,
{
    match e {
        Else::ElseIf(c, body, next) => cnd_expr(c) && cnd_stmts(body@) && match next {
            Option::Some(n) => cnd_else(*n),
            Option::None => true,
        },
        Else::Else(body) => cnd_stmts(body@),
    }
}

/// Conditioned switch cases.
pub open spec fn cnd_cases(s: Seq<SwitchCase>) -> bool
    decreases s, 2int,
{
    forall|i: int| 0 <= i < s.len() ==> cnd_stmts((#[trigger] s[i]).body@)
}

/// A conditioned `for` loop header.
pub open spec fn cnd_header(h: ForLoopHeader) -> bool {
    &&& match h.init {
        Option::Some(ForLoopInit::VarDecl(_, Option::Some(e))) => cnd_expr(e),
        _ => true,
    }
    &&& match h.condition {
        Option::Some(c) => cnd_expr(c),
        Option::None => true,
    }
    &&& match h.update {
        Option::Some(ForLoopUpdate::Assignment(lhs, rhs)) => cnd_expr(rhs) && match lhs {
            AssignmentLhs::Phony => true,
            AssignmentLhs::Expr(x) => cnd_lhs_expr(x),
        },
        Option::None => true,
    }
}

/// A conditioned module: no rewrite fires anywhere in any function.
pub open spec fn cnd_module(m: Module) -> bool {
    forall|i: int| 0 <= i < m.functions@.len() ==> cnd_stmts((#[trigger] m.functions@[i]).body@)
}

/// One rewrite pass leaves every statement conditioned.
pub proof fn lemma_rc_stmt_conditioned(a: Statement, b: Statement)
    requires
        rc_stmt_rel(a, b),
    ensures
        cnd_stmt(b),
    decreases a, 4int,
{
    match a {
        Statement::LetDecl(n, e) => {
            if let Statement::LetDecl(n2, e2) = b {
                lemma_rc_conditioned(e, e2);
            }
        },
        Statement::VarDecl(n, init) => {
            if let Statement::VarDecl(n2, init2) = b {
                if let Option::Some(e) = init {
                    if let Option::Some(e2) = init2 {
                        lemma_rc_conditioned(e, e2);
                    }
                }
            }
        },
        Statement::Assignment(lhs, rhs) => {
            if let Statement::Assignment(lhs2, rhs2) = b {
                lemma_rc_conditioned(rhs, rhs2);
                if let AssignmentLhs::Expr(x) = lhs {
                    if let AssignmentLhs::Expr(x2) = lhs2 {
                        lemma_rc_lhs_conditioned(x, x2);
                    }
                }
            }
        },
        Statement::Compound(ss) => {
            if let Statement::Compound(ss2) = b {
                lemma_rc_stmts_conditioned(ss@, ss2@);
            }
        },
        Statement::If(c, body, els) => {
            if let Statement::If(c2, body2, els2) = b {
                lemma_rc_conditioned(c, c2);
                lemma_rc_stmts_conditioned(body@, body2@);
                if let Option::Some(e) = els {
                    if let Option::Some(e2) = els2 {
                        lemma_rc_else_conditioned(*e, *e2);
                    }
                }
            }
        },
        Statement::Return(v) => {
            if let Statement::Return(v2) = b {
                if let Option::Some(e) = v {
                    if let Option::Some(e2) = v2 {
                        lemma_rc_conditioned(e, e2);
                    }
                }
            }
        },
        Statement::Loop(body) => {
            if let Statement::Loop(body2) = b {
                lemma_rc_stmts_conditioned(body@, body2@);
            }
        },
        Statement::Break => {},
        Statement::Switch(sel, cases, default) => {
            if let Statement::Switch(sel2, cases2, default2) = b {
                lemma_rc_conditioned(sel, sel2);
                lemma_rc_cases_conditioned(cases@, cases2@);
                lemma_rc_stmts_conditioned(default@, default2@);
            }
        },
        Statement::ForLoop(h, body) => {
            if let Statement::ForLoop(h2, body2) = b {
                lemma_rc_header_conditioned(h, h2);
                lemma_rc_stmts_conditioned(body@, body2@);
            }
        },
    }
}

/// Sequence form of `lemma_rc_stmt_conditioned`.
pub proof fn lemma_rc_stmts_conditioned(a: Seq<Statement>, b: Seq<Statement>)
    requires
        rc_stmts_rel(a, b),
    ensures
        cnd_stmts(b),
    decreases a, 5int,
{
    assert forall|i: int| 0 <= i < b.len() implies cnd_stmt(#[trigger] b[i]) by {
        assert(rc_stmt_rel(a[i], b[i]));
        lemma_rc_stmt_conditioned(a[i], b[i]);
    }
}

/// `else` form of `lemma_rc_stmt_conditioned`.
proof fn lemma_rc_else_conditioned(a: Else, b: Else)
    requires
        rc_else_rel(a, b),
    ensures
        cnd_else(b),
    decreases a, 5int,
{
    match a {
        Else::ElseIf(c, body, next) => {
            if let Else::ElseIf(c2, body2, next2) = b {
                lemma_rc_conditioned(c, c2);
                lemma_rc_stmts_conditioned(body@, body2@);
                if let Option::Some(n) = next {
                    if let Option::Some(n2) = next2 {
                        lemma_rc_else_conditioned(*n, *n2);
                    }
                }
            }
        },
        Else::Else(body) => {
            if let Else::Else(body2) = b {
                lemma_rc_stmts_conditioned(body@, body2@);
            }
        },
    }
}

/// Switch-case form of `lemma_rc_stmt_conditioned`.
proof fn lemma_rc_cases_conditioned(a: Seq<SwitchCase>, b: Seq<SwitchCase>)
    requires
        rc_cases_rel(a, b),
    ensures
        cnd_cases(b),
    decreases a, 5int,
{
    assert forall|i: int| 0 <= i < b.len() implies cnd_stmts((#[trigger] b[i]).body@) by {
        lemma_rc_stmts_conditioned(a[i].body@, b[i].body@);
    }
}

/// Header form of `lemma_rc_stmt_conditioned`.
proof fn lemma_rc_header_conditioned(a: ForLoopHeader, b: ForLoopHeader)
    requires
        rc_header_rel(a, b),
    ensures
        cnd_header(b),
    decreases a, 5int,
{
    if let Option::Some(ForLoopInit::VarDecl(n, Option::Some(e))) = a.init {
        if let Option::Some(ForLoopInit::VarDecl(n2, Option::Some(e2))) = b.init {
            lemma_rc_conditioned(e, e2);
        }
    }
    if let Option::Some(c) = a.condition {
        if let Option::Some(c2) = b.condition {
            lemma_rc_conditioned(c, c2);
        }
    }
    if let Option::Some(ForLoopUpdate::Assignment(lhs, rhs)) = a.update {
        if let Option::Some(ForLoopUpdate::Assignment(lhs2, rhs2)) = b.update {
            lemma_rc_conditioned(rhs, rhs2);
            if let AssignmentLhs::Expr(x) = lhs {
                if let AssignmentLhs::Expr(x2) = lhs2 {
                    lemma_rc_lhs_conditioned(x, x2);
                }
            }
        }
    }
}

/// Left-hand-side form of `lemma_rc_stmt_conditioned`.
proof fn lemma_rc_lhs_conditioned(a: LhsExprNode, b: LhsExprNode)
    requires
        rc_lhs_expr_rel(a, b),
    ensures
        cnd_lhs_expr(b),
    decreases a,
{
    match a.expr {
        LhsExpr::Ident(_) => {},
        LhsExpr::Postfix(x, p) => {
            if let LhsExpr::Postfix(x2, p2) = b.expr {
                lemma_rc_lhs_conditioned(*x, *x2);
                match p {
                    Postfix::ArrayIndex(i) => {
                        if let Postfix::ArrayIndex(i2) = p2 {
                            lemma_rc_conditioned(*i, *i2);
                        }
                    },
                    Postfix::Member(_) => {},
                }
            }
        },
    }
}

/// On a conditioned statement the rewrite is the identity, up to structural
/// equality.
pub proof fn lemma_rc_stmt_identity(b: Statement, c: Statement)
    requires
        cnd_stmt(b),
        rc_stmt_rel(b, c),
    ensures
        stmt_eq(c, b),
    decreases b, 4int,
{
    match b {
        Statement::LetDecl(n, e) => {
            if let Statement::LetDecl(n2, e2) = c {
                lemma_rc_identity(e, e2);
            }
        },
        Statement::VarDecl(n, init) => {
            if let Statement::VarDecl(n2, init2) = c {
                if let Option::Some(e) = init {
                    if let Option::Some(e2) = init2 {
                        lemma_rc_identity(e, e2);
                    }
                }
            }
        },
        Statement::Assignment(lhs, rhs) => {
            if let Statement::Assignment(lhs2, rhs2) = c {
                lemma_rc_identity(rhs, rhs2);
                if let AssignmentLhs::Expr(x) = lhs {
                    if let AssignmentLhs::Expr(x2) = lhs2 {
                        lemma_rc_lhs_identity(x, x2);
                    }
                }
            }
        },
        Statement::Compound(ss) => {
            if let Statement::Compound(ss2) = c {
                lemma_rc_stmts_identity(ss@, ss2@);
            }
        },
        Statement::If(cc, body, els) => {
            if let Statement::If(c2, body2, els2) = c {
                lemma_rc_identity(cc, c2);
                lemma_rc_stmts_identity(body@, body2@);
                if let Option::Some(e) = els {
                    if let Option::Some(e2) = els2 {
                        lemma_rc_else_identity(*e, *e2);
                    }
                }
            }
        },
        Statement::Return(v) => {
            if let Statement::Return(v2) = c {
                if let Option::Some(e) = v {
                    if let Option::Some(e2) = v2 {
                        lemma_rc_identity(e, e2);
                    }
                }
            }
        },
        Statement::Loop(body) => {
            if let Statement::Loop(body2) = c {
                lemma_rc_stmts_identity(body@, body2@);
            }
        },
        Statement::Break => {},
        Statement::Switch(sel, cases, default) => {
            if let Statement::Switch(sel2, cases2, default2) = c {
                lemma_rc_identity(sel, sel2);
                lemma_rc_cases_identity(cases@, cases2@);
                lemma_rc_stmts_identity(default@, default2@);
            }
        },
        Statement::ForLoop(h, body) => {
            if let Statement::ForLoop(h2, body2) = c {
                lemma_rc_header_identity(h, h2);
                lemma_rc_stmts_identity(body@, body2@);
            }
        },
    }
}

/// Sequence form of `lemma_rc_stmt_identity`.
pub proof fn lemma_rc_stmts_identity(b: Seq<Statement>, c: Seq<Statement>)
    requires
        cnd_stmts(b),
        rc_stmts_rel(b, c),
    ensures
        stmts_eq(c, b),
    decreases b, 5int,
{
    assert forall|i: int| 0 <= i < c.len() implies stmt_eq(#[trigger] c[i], b[i]) by {
        assert(rc_stmt_rel(b[i], c[i]));
        assert(cnd_stmt(b[i]));
        lemma_rc_stmt_identity(b[i], c[i]);
    }
}

/// `else` form of `lemma_rc_stmt_identity`.
proof fn lemma_rc_else_identity(b: Else, c: Else)
    requires
        cnd_else(b),
        rc_else_rel(b, c),
    ensures
        else_eq(c, b),
    decreases b, 5int,
{
    match b {
        Else::ElseIf(cc, body, next) => {
            if let Else::ElseIf(c2, body2, next2) = c {
                lemma_rc_identity(cc, c2);
                lemma_rc_stmts_identity(body@, body2@);
                if let Option::Some(n) = next {
                    if let Option::Some(n2) = next2 {
                        lemma_rc_else_identity(*n, *n2);
                    }
                }
            }
        },
        Else::Else(body) => {
            if let Else::Else(body2) = c {
                lemma_rc_stmts_identity(body@, body2@);
            }
        },
    }
}

/// Switch-case form of `lemma_rc_stmt_identity`.
proof fn lemma_rc_cases_identity(b: Seq<SwitchCase>, c: Seq<SwitchCase>)
    requires
        cnd_cases(b),
        rc_cases_rel(b, c),
    ensures
        cases_eq(c, b),
    decreases b, 5int,
{
    assert forall|i: int|
        0 <= i < c.len() implies ((#[trigger] b[i]).selector == c[i].selector && stmts_eq(
        c[i].body@,
        b[i].body@,
    )) by {
        lemma_rc_stmts_identity(b[i].body@, c[i].body@);
    }
}

/// Header form of `lemma_rc_stmt_identity`.
proof fn lemma_rc_header_identity(b: ForLoopHeader, c: ForLoopHeader)
    requires
        cnd_header(b),
        rc_header_rel(b, c),
    ensures
        header_eq(c, b),
    decreases b, 5int,
{
    if let Option::Some(ForLoopInit::VarDecl(n, Option::Some(e))) = b.init {
        if let Option::Some(ForLoopInit::VarDecl(n2, Option::Some(e2))) = c.init {
            lemma_rc_identity(e, e2);
        }
    }
    if let Option::Some(cc) = b.condition {
        if let Option::Some(c2) = c.condition {
            lemma_rc_identity(cc, c2);
        }
    }
    if let Option::Some(ForLoopUpdate::Assignment(lhs, rhs)) = b.update {
        if let Option::Some(ForLoopUpdate::Assignment(lhs2, rhs2)) = c.update {
            lemma_rc_identity(rhs, rhs2);
            if let AssignmentLhs::Expr(x) = lhs {
                if let AssignmentLhs::Expr(x2) = lhs2 {
                    lemma_rc_lhs_identity(x, x2);
                }
            }
        }
    }
}

/// Left-hand-side form of `lemma_rc_stmt_identity`.
proof fn lemma_rc_lhs_identity(b: LhsExprNode, c: LhsExprNode)
    requires
        cnd_lhs_expr(b),
        rc_lhs_expr_rel(b, c),
    ensures
        lhs_expr_eq(c, b),
    decreases b,
{
    match b.expr {
        LhsExpr::Ident(_) => {},
        LhsExpr::Postfix(x, p) => {
            if let LhsExpr::Postfix(x2, p2) = c.expr {
                lemma_rc_lhs_identity(*x, *x2);
                match p {
                    Postfix::ArrayIndex(i) => {
                        if let Postfix::ArrayIndex(i2) = p2 {
                            lemma_rc_identity(*i, *i2);
                        }
                    },
                    Postfix::Member(_) => {},
                }
            }
        },
    }
}

/// A conditioned statement needs no helper.
proof fn lemma_cnd_stmt_needs_empty(st: Statement)
    requires
        cnd_stmt(st),
    ensures
        stmt_needs(st) =~= Set::<SafeHelper>::empty(),
    decreases st, 4int,
{
    match st {
        Statement::LetDecl(_, e) => {
            lemma_cnd_needs_empty(e);
        },
        Statement::VarDecl(_, init) => {
            if let Option::Some(e) = init {
                lemma_cnd_needs_empty(e);
            }
        },
        Statement::Assignment(lhs, rhs) => {
            lemma_cnd_needs_empty(rhs);
            if let AssignmentLhs::Expr(x) = lhs {
                lemma_cnd_lhs_needs_empty(x);
            }
        },
        Statement::Compound(ss) => {
            lemma_cnd_stmts_needs_empty(ss@);
        },
        Statement::If(c, body, els) => {
            lemma_cnd_needs_empty(c);
            lemma_cnd_stmts_needs_empty(body@);
            if let Option::Some(e) = els {
                lemma_cnd_else_needs_empty(*e);
            }
        },
        Statement::Return(v) => {
            if let Option::Some(e) = v {
                lemma_cnd_needs_empty(e);
            }
        },
        Statement::Loop(body) => {
            lemma_cnd_stmts_needs_empty(body@);
        },
        Statement::Break => {},
        Statement::Switch(sel, cases, default) => {
            lemma_cnd_needs_empty(sel);
            lemma_cnd_cases_needs_empty(cases@);
            lemma_cnd_stmts_needs_empty(default@);
        },
        Statement::ForLoop(h, body) => {
            if let Option::Some(ForLoopInit::VarDecl(_, Option::Some(e))) = h.init {
                lemma_cnd_needs_empty(e);
            }
            if let Option::Some(c) = h.condition {
                lemma_cnd_needs_empty(c);
            }
            if let Option::Some(ForLoopUpdate::Assignment(lhs, rhs)) = h.update {
                lemma_cnd_needs_empty(rhs);
                if let AssignmentLhs::Expr(x) = lhs {
                    lemma_cnd_lhs_needs_empty(x);
                }
            }
            lemma_cnd_stmts_needs_empty(body@);
        },
    }
}

/// Sequence form of `lemma_cnd_stmt_needs_empty`.
proof fn lemma_cnd_stmts_needs_empty(s: Seq<Statement>)
    requires
        cnd_stmts(s),
    ensures
        stmts_needs(s) =~= Set::<SafeHelper>::empty(),
    decreases s, 5int,
{
    if s.len() > 0 {
        assert forall|i: int| 0 <= i < s.drop_last().len() implies cnd_stmt(
            #[trigger] s.drop_last()[i],
        ) by {
            assert(s.drop_last()[i] == s[i]);
        }
        lemma_cnd_stmts_needs_empty(s.drop_last());
        assert(cnd_stmt(s.last()));
        lemma_cnd_stmt_needs_empty(s.last());
    }
}

/// `else` form of `lemma_cnd_stmt_needs_empty`.
proof fn lemma_cnd_else_needs_empty(e: Else)
    requires
        cnd_else(e),
    ensures
        else_needs(e) =~= Set::<SafeHelper>::empty(),
    decreases e, 5int,
{
    match e {
        Else::ElseIf(c, body, next) => {
            lemma_cnd_needs_empty(c);
            lemma_cnd_stmts_needs_empty(body@);
            if let Option::Some(n) = next {
                lemma_cnd_else_needs_empty(*n);
            }
        },
        Else::Else(body) => {
            lemma_cnd_stmts_needs_empty(body@);
        },
    }
}

/// Switch-case form of `lemma_cnd_stmt_needs_empty`.
proof fn lemma_cnd_cases_needs_empty(s: Seq<SwitchCase>)
    requires
        cnd_cases(s),
    ensures
        cases_needs(s) =~= Set::<SafeHelper>::empty(),
    decreases s, 5int,
{
    if s.len() > 0 {
        assert forall|i: int| 0 <= i < s.drop_last().len() implies cnd_stmts(
            (#[trigger] s.drop_last()[i]).body@,
        ) by {
            assert(s.drop_last()[i] == s[i]);
        }
        lemma_cnd_cases_needs_empty(s.drop_last());
        assert(cnd_stmts(s.last().body@));
        lemma_cnd_stmts_needs_empty(s.last().body@);
    }
}

/// Left-hand-side form of `lemma_cnd_stmt_needs_empty`.
proof fn lemma_cnd_lhs_needs_empty(x: LhsExprNode)
    requires
        cnd_lhs_expr(x),
    ensures
        lhs_expr_needs(x) =~= Set::<SafeHelper>::empty(),
    decreases x,
{
    match x.expr {
        LhsExpr::Ident(_) => {},
        LhsExpr::Postfix(b, p) => {
            lemma_cnd_lhs_needs_empty(*b);
            match p {
                Postfix::ArrayIndex(i) => lemma_cnd_needs_empty(*i),
                Postfix::Member(_) => {},
            }
        },
    }
}

/// A conditioned module needs no helper.
proof fn lemma_cnd_module_needs_empty(m: Module)
    requires
        cnd_module(m),
    ensures
        module_needs(m) =~= Set::<SafeHelper>::empty(),
{
    lemma_cnd_fns_needs_empty(m.functions@);
}

/// Function-list form of `lemma_cnd_module_needs_empty`.
proof fn lemma_cnd_fns_needs_empty(s: Seq<FnDecl>)
    requires
        forall|i: int| 0 <= i < s.len() ==> cnd_stmts((#[trigger] s[i]).body@),
    ensures
        fns_needs(s) =~= Set::<SafeHelper>::empty(),
    decreases s,
{
    if s.len() > 0 {
        assert forall|i: int| 0 <= i < s.drop_last().len() implies cnd_stmts(
            (#[trigger] s.drop_last()[i]).body@,
        ) by {
            assert(s.drop_last()[i] == s[i]);
        }
        lemma_cnd_fns_needs_empty(s.drop_last());
        assert(cnd_stmts(s.last().body@));
        lemma_cnd_stmts_needs_empty(s.last().body@);
    }
}

/// What the canonical helper list holds: a helper is present exactly when
/// it was present before or newly required.
proof fn lemma_norm_contains(hs: Seq<SafeHelper>, nd: Set<SafeHelper>, h: SafeHelper)
    ensures
        norm_helpers(hs, nd).contains(h) == (hs.contains(h) || nd.contains(h)),
{
    let n1 = norm_one(hs, nd, SafeHelper::DivI32);
    let n2 = norm_one(hs, nd, SafeHelper::DivU32);
    let n3 = norm_one(hs, nd, SafeHelper::ModI32);
    let n4 = norm_one(hs, nd, SafeHelper::ModU32);
    let all = norm_helpers(hs, nd);
    assert(all == n1 + n2 + n3 + n4);
    if hs.contains(h) || nd.contains(h) {
        let idx: int = match h {
            SafeHelper::DivI32 => 0,
            SafeHelper::DivU32 => n1.len() as int,
            SafeHelper::ModI32 => n1.len() + n2.len() as int,
            SafeHelper::ModU32 => n1.len() + n2.len() + n3.len() as int,
        };
        assert(all[idx] == h);
        assert(all.contains(h));
    }
    if all.contains(h) {
        let i = choose|i: int| 0 <= i < all.len() && all[i] == h;
        assert(all[i] == h);
        if i < n1.len() {
            assert(h == SafeHelper::DivI32 && n1.len() == 1);
        } else if i < n1.len() + n2.len() {
            assert(h == SafeHelper::DivU32 && n2.len() == 1);
        } else if i < n1.len() + n2.len() + n3.len() {
            assert(h == SafeHelper::ModI32 && n3.len() == 1);
        } else {
            assert(h == SafeHelper::ModU32 && n4.len() == 1);
        }
    }
}

/// Renormalizing a canonical helper list with nothing new required returns
/// it unchanged.
proof fn lemma_norm_idempotent(hs: Seq<SafeHelper>, nd: Set<SafeHelper>)
    ensures
        norm_helpers(norm_helpers(hs, nd), Set::<SafeHelper>::empty()) == norm_helpers(hs, nd),
{
    let n = norm_helpers(hs, nd);
    lemma_norm_contains(hs, nd, SafeHelper::DivI32);
    lemma_norm_contains(hs, nd, SafeHelper::DivU32);
    lemma_norm_contains(hs, nd, SafeHelper::ModI32);
    lemma_norm_contains(hs, nd, SafeHelper::ModU32);
    assert(norm_one(n, Set::empty(), SafeHelper::DivI32) == norm_one(hs, nd, SafeHelper::DivI32));
    assert(norm_one(n, Set::empty(), SafeHelper::DivU32) == norm_one(hs, nd, SafeHelper::DivU32));
    assert(norm_one(n, Set::empty(), SafeHelper::ModI32) == norm_one(hs, nd, SafeHelper::ModI32));
    assert(norm_one(n, Set::empty(), SafeHelper::ModU32) == norm_one(hs, nd, SafeHelper::ModU32));
}

/// Reconditioning is idempotent: running the rewrite on its own output
/// gives that output back, helpers included, up to structural equality of
/// the module's contents.
pub proof fn lemma_recondition_idempotent(m1: Module, m2: Module, m3: Module)
    requires
        rc_module_rel(m1, m2),
        rc_module_rel(m2, m3),
    ensures
        module_eq(m3, m2),
{
    // Every function of the first output is conditioned, so the second pass
    // reproduces it.
    assert forall|i: int| 0 <= i < m3.functions@.len() implies fn_eq(
        #[trigger] m3.functions@[i],
        m2.functions@[i],
    ) by {
        assert(rc_fn_rel(m1.functions@[i], m2.functions@[i]));
        assert(rc_fn_rel(m2.functions@[i], m3.functions@[i]));
        lemma_rc_stmts_conditioned(m1.functions@[i].body@, m2.functions@[i].body@);
        lemma_rc_stmts_identity(m2.functions@[i].body@, m3.functions@[i].body@);
    }
    // The first pass leaves nothing to inject, and its helper list is
    // already canonical, so the second pass keeps it.
    assert(cnd_module(m2)) by {
        assert forall|i: int| 0 <= i < m2.functions@.len() implies cnd_stmts(
            (#[trigger] m2.functions@[i]).body@,
        ) by {
            assert(rc_fn_rel(m1.functions@[i], m2.functions@[i]));
            lemma_rc_stmts_conditioned(m1.functions@[i].body@, m2.functions@[i].body@);
        }
    }
    lemma_cnd_module_needs_empty(m2);
    lemma_norm_idempotent(m1.helpers@, module_needs(m1));
    assert(norm_helpers(m2.helpers@, module_needs(m2)) == norm_helpers(
        m2.helpers@,
        Set::<SafeHelper>::empty(),
    ));
    assert(m3.helpers@ == m2.helpers@);
}

/// Recondition a postfix accessor.
fn rc_postfix(p: Postfix, needs: &mut Needs) -> (r: Postfix)
    ensures
        rc_postfix_rel(p, r),
        needs_set(*final(needs)) == needs_set(*old(needs)).union(postfix_needs(p)),
    decreases p, 3int,
{
    match p {
        Postfix::ArrayIndex(i) => {
            let i2 = rc_expr(*i, needs);
            Postfix::ArrayIndex(Box::new(i2))
        },
        Postfix::Member(n) => {
            proof {
                assert(needs_set(*needs) =~= needs_set(*old(needs)).union(
                    postfix_needs(p),
                ));
            }
            Postfix::Member(n)
        },
    }
}

} // verus!
