//! The typed random expression generator: depth-bounded synthesis of
//! expressions under a type-constraint set and a lexical scope. Everything
//! proved here holds for every random stream: the result is type sound, its
//! type is admitted by the constraints, every variable it reads is visible in
//! the scope with the type the node carries, and its operator nesting depth
//! respects the configured cap.

use vstd::prelude::*;

use crate::ast::{AssignmentLhs, BinOp, Expr, ExprNode, FnDecl, LhsExpr, LhsExprNode, Lit, Module,
    Statement, UnOp, expr_closed, expr_depth, expr_gen_form, expr_wf, exprs_closed, exprs_depth,
    exprs_gen_form, exprs_wf, shift_rhs_type, stmt_closed, stmt_wf, stmts_closed, stmts_wf,
    un_op_ok};
use crate::scope::frame_lookup;
use crate::rng::{rng_below, rng_bool, rng_i32, rng_u32};
use crate::scope::{Scope, visible_matching};
use crate::types::{DataType, ScalarType, TypeConstraints, lemma_family_unions, lemma_inter_contains,
    lemma_mask_families, lemma_nonempty_has_member, scalar_of, vec_part, wf_data_type};

verus! {

/// The cap on the generator's expression recursion depth.
pub const MAX_EXPR_DEPTH: u32 = 5;

/// One production of the expression grammar.
#[derive(Clone, Copy, Debug, PartialEq, Eq, Structural)]
enum ExprType {
    Lit,
    TypeCons,
    Var,
    UnOp,
    BinOp,
}

/// A depth-bounded typed expression synthesizer over a scope.
pub struct ExprGenerator {
    pub rng: rand::rngs::StdRng,
    pub scope: Scope,
    pub depth: u32,
}

impl ExprGenerator {
    /// A generator at depth zero over the given scope, drawing from the given
    /// random stream.
    pub fn new(rng: rand::rngs::StdRng, scope: Scope) -> (g: ExprGenerator)
        ensures
            g.rng == rng,
            g.scope == scope,
            g.depth == 0,
    {
        ExprGenerator { rng, scope, depth: 0 }
    }

    /// Generate one expression admitted by the constraint set. The result is
    /// type sound, its type is in the set, it is closed under the scope, and
    /// its operator nesting depth stays within the cap.
    pub fn gen_expr(&mut self, constraints: TypeConstraints) -> (e: ExprNode)
        requires
            old(self).scope.types_wf(),
            constraints.wf(),
            !constraints.is_empty(),
            old(self).depth <= MAX_EXPR_DEPTH,
        ensures
            final(self).scope == old(self).scope,
            final(self).depth == old(self).depth,
            expr_wf(e),
            expr_gen_form(e),
            constraints.contains(e.data_type),
            expr_closed(e, old(self).scope.as_map()),
            expr_depth(e) + old(self).depth <= MAX_EXPR_DEPTH,
            e.expr is Lit ==> constraints.0 & 0x007u32 != 0,
            e.expr is TypeCons ==> constraints.0 & 0xFF8u32 != 0,
            e.expr is UnOp ==> old(self).depth < MAX_EXPR_DEPTH,
            e.expr is BinOp ==> old(self).depth < MAX_EXPR_DEPTH && constraints.0 & 0xDB7u32 != 0,
            e.expr matches Expr::Var(name) ==> (old(self).depth < MAX_EXPR_DEPTH
                && visible_matching(old(self).scope, constraints, false, name@)),
    {
        gen_expr_at(&mut self.rng, &self.scope, self.depth, constraints)
    }
}

/// The recursive core of expression synthesis. `depth` is the number of
/// operator applications already open above this call.
#[verifier::loop_isolation(false)]
fn gen_expr_at(
    rng: &mut rand::rngs::StdRng,
    scope: &Scope,
    depth: u32,
    constraints: TypeConstraints,
) -> (e: ExprNode)
    requires
        scope.types_wf(),
        constraints.wf(),
        !constraints.is_empty(),
        depth <= MAX_EXPR_DEPTH,
    ensures
        expr_wf(e),
        expr_gen_form(e),
        constraints.contains(e.data_type),
        expr_closed(e, scope.as_map()),
        expr_depth(e) + depth <= MAX_EXPR_DEPTH,
        e.expr is Lit ==> constraints.0 & 0x007u32 != 0,
        e.expr is TypeCons ==> constraints.0 & 0xFF8u32 != 0,
        e.expr is UnOp ==> depth < MAX_EXPR_DEPTH,
        e.expr is BinOp ==> depth < MAX_EXPR_DEPTH && constraints.0 & 0xDB7u32 != 0,
        e.expr matches Expr::Var(name) ==> (depth < MAX_EXPR_DEPTH && visible_matching(
            *scope,
            constraints,
            false,
            name@,
        )),
    decreases MAX_EXPR_DEPTH - depth, 1 + 2 * vec_part(constraints),
{
    let scalars = TypeConstraints::scalars();
    let vectors = TypeConstraints::vectors();
    proof {
        lemma_family_unions();
    }

    let mut allowed: Vec<ExprType> = Vec::new();
    if constraints.intersects(scalars) {
        allowed.push(ExprType::Lit);
    }
    if constraints.intersects(vectors) {
        allowed.push(ExprType::TypeCons);
    }
    if depth < MAX_EXPR_DEPTH {
        allowed.push(ExprType::UnOp);
        let bin_adm = TypeConstraints::scalars().union(TypeConstraints::vec_ints());
        if constraints.intersects(bin_adm) {
            allowed.push(ExprType::BinOp);
        }
        if scope.intersects(constraints) {
            allowed.push(ExprType::Var);
        }
    }
    proof {
        // The allowed set is never empty: any well-formed non-empty
        // constraint admits a literal, a constructor, or (below the cap) a
        // unary operator.
        if allowed@.len() == 0 {
            let t = lemma_nonempty_has_member(constraints);
            lemma_mask_families(t);
            crate::types::lemma_inter_contains(constraints, TypeConstraints(0x007u32), t);
            crate::types::lemma_inter_contains(constraints, TypeConstraints(0xFF8u32), t);
            crate::types::lemma_empty_contains(t);
            assert(false);
        }
    }
    let pick = allowed[rng_below(rng, allowed.len())];

    match pick {
        ExprType::Lit => {
            proof {
                assert(constraints.0 & 0x007u32 != 0);
            }
            let (lit, t) = gen_lit(rng, constraints);
            ExprNode { data_type: t, expr: Expr::Lit(lit) }
        },
        ExprType::TypeCons => {
            proof {
                assert(constraints.0 & 0xFF8u32 != 0);
            }
            gen_type_cons(rng, scope, depth, constraints)
        },
        ExprType::UnOp => {
            let op = gen_un_op(rng, constraints);
            let dom: u32 = match op {
                UnOp::Neg => 0x492,
                UnOp::Not => 0x249,
                UnOp::BitNot => 0xDB6,
            };
            let sub = match constraints.intersection(TypeConstraints(dom)) {
                Some(c) => c,
                None => unreached(),
            };
            let inner = gen_expr_at(rng, scope, depth + 1, sub);
            proof {
                lemma_mask_families(inner.data_type);
            }
            ExprNode { data_type: inner.data_type, expr: Expr::UnOp(op, Box::new(inner)) }
        },
        ExprType::BinOp => {
            proof {
                assert(constraints.0 & 0xDB7u32 != 0);
            }
            gen_bin_expr(rng, scope, depth, constraints)
        },
        ExprType::Var => {
            let (name, t) = scope.choose_matching(rng, constraints);
            proof {
                crate::scope::lemma_lookup_wf(*scope, name@);
            }
            ExprNode { data_type: t, expr: Expr::Var(name) }
        },
    }
}

/// A random literal of a scalar type admitted by the constraints: booleans
/// uniform, integers full-range uniform on the bit pattern.
fn gen_lit(rng: &mut rand::rngs::StdRng, constraints: TypeConstraints) -> (r: (Lit, DataType))
    requires
        constraints.wf(),
        constraints.0 & 0x007u32 != 0,
    ensures
        wf_data_type(r.1),
        r.1 is Scalar,
        constraints.contains(r.1),
        match r.0 {
            Lit::Bool(_) => r.1 == DataType::Scalar(ScalarType::Bool),
            Lit::Int(_) => r.1 == DataType::Scalar(ScalarType::I32),
            Lit::UInt(_) => r.1 == DataType::Scalar(ScalarType::U32),
        },
{
    let c = match constraints.intersection(TypeConstraints::scalars()) {
        Some(c) => c,
        None => unreached(),
    };
    let t = c.select(rng);
    proof {
        lemma_mask_families(t);
    }
    let lit = match t {
        DataType::Scalar(ScalarType::Bool) => Lit::Bool(rng_bool(rng)),
        DataType::Scalar(ScalarType::I32) => Lit::Int(rng_i32(rng)),
        DataType::Scalar(ScalarType::U32) => Lit::UInt(rng_u32(rng)),
        _ => unreached(),
    };
    (lit, t)
}

/// A vector (or conversion) constructor of a type admitted by the
/// constraints, with componentwise scalar arguments generated at the same
/// depth under the single scalar element type.
#[verifier::loop_isolation(false)]
fn gen_type_cons(
    rng: &mut rand::rngs::StdRng,
    scope: &Scope,
    depth: u32,
    constraints: TypeConstraints,
) -> (e: ExprNode)
    requires
        scope.types_wf(),
        constraints.wf(),
        constraints.0 & 0xFF8u32 != 0,
        depth <= MAX_EXPR_DEPTH,
    ensures
        expr_wf(e),
        expr_gen_form(e),
        e.expr is TypeCons,
        constraints.contains(e.data_type),
        expr_closed(e, scope.as_map()),
        expr_depth(e) + depth <= MAX_EXPR_DEPTH,
    decreases MAX_EXPR_DEPTH - depth, 2int,
{
    let c = match constraints.intersection(TypeConstraints::vectors()) {
        Some(c) => c,
        None => unreached(),
    };
    let data_type = c.select(rng);
    proof {
        lemma_mask_families(data_type);
    }
    let (n, s) = match data_type {
        DataType::Vector(n, s) => (n, s),
        DataType::Scalar(_) => unreached(),
    };
    let elem = TypeConstraints::only(DataType::Scalar(s));
    proof {
        // The element constraint admits no vectors, so the recursive calls
        // strictly shrink the secondary measure.
        let i = crate::types::idx_of(DataType::Scalar(s)) as u32;
        assert(elem.0 == crate::types::mask_of(DataType::Scalar(s)));
        assert(i < 3 ==> ((1u32 << i) & 0xFF8u32 == 0) && ((1u32 << i) & 0xFFFu32 == (1u32 << i))
            && (1u32 << i) != 0) by (bit_vector);
    }
    let mut args: Vec<ExprNode> = Vec::new();
    let mut k: u32 = 0;
    while k < n
        invariant
            k <= n,
            args@.len() == k,
            exprs_wf(args@),
            exprs_gen_form(args@),
            exprs_closed(args@, scope.as_map()),
            exprs_depth(args@) + depth <= MAX_EXPR_DEPTH,
            forall|i: int|
                0 <= i < args@.len() ==> (#[trigger] args@[i]).data_type == DataType::Scalar(s),
        decreases n - k,
    {
        let ghost pre = args@;
        let a = gen_expr_at(rng, scope, depth, elem);
        proof {
            assert(elem.contains(a.data_type));
            assert(a.data_type == DataType::Scalar(s));
        }
        args.push(a);
        proof {
            assert(args@.drop_last() =~= pre);
            assert forall|i: int| 0 <= i < args@.len() implies expr_gen_form(
                #[trigger] args@[i],
            ) by {
                if i < pre.len() {
                    assert(args@[i] == pre[i]);
                } else {
                    assert(args@[i] == a);
                }
            }
        }
        k = k + 1;
    }
    ExprNode { data_type, expr: Expr::TypeCons(data_type, args) }
}

/// A binary operator expression: choose an operator admitted by the
/// constraints, generate the left operand under the operator's admission
/// set, then the right operand under the type the operator requires of it.
fn gen_bin_expr(
    rng: &mut rand::rngs::StdRng,
    scope: &Scope,
    depth: u32,
    constraints: TypeConstraints,
) -> (e: ExprNode)
    requires
        scope.types_wf(),
        constraints.wf(),
        constraints.0 & 0xDB7u32 != 0,
        depth < MAX_EXPR_DEPTH,
    ensures
        expr_wf(e),
        expr_gen_form(e),
        e.expr is BinOp,
        constraints.contains(e.data_type),
        expr_closed(e, scope.as_map()),
        expr_depth(e) + depth <= MAX_EXPR_DEPTH,
    decreases MAX_EXPR_DEPTH - depth, 0int,
{
    proof {
        lemma_family_unions();
    }
    let op = gen_bin_op(rng, constraints);
    let logical = match op {
        BinOp::LogAnd | BinOp::LogOr => true,
        _ => false,
    };
    let ldom: u32 = if logical {
        0x001
    } else {
        0xDB6
    };
    let lcon = match constraints.intersection(TypeConstraints(ldom)) {
        Some(c) => c,
        None => unreached(),
    };
    let l = gen_expr_at(rng, scope, depth + 1, lcon);
    proof {
        lemma_mask_families(l.data_type);
    }
    let shift = match op {
        BinOp::LShift | BinOp::RShift => true,
        _ => false,
    };
    let rcon: TypeConstraints = if shift {
        let rt = match l.data_type {
            DataType::Scalar(_) => DataType::Scalar(ScalarType::U32),
            DataType::Vector(n, _) => DataType::Vector(n, ScalarType::U32),
        };
        proof {
            assert(rt == shift_rhs_type(l.data_type));
        }
        TypeConstraints::only(rt)
    } else {
        TypeConstraints::only(l.data_type)
    };
    let r = gen_expr_at(rng, scope, depth + 1, rcon);
    ExprNode {
        data_type: l.data_type,
        expr: Expr::BinOp(op, Box::new(l), Box::new(r)),
    }
}

/// A unary operator whose result type can satisfy the constraints, chosen
/// uniformly among the admitted operators.
fn gen_un_op(rng: &mut rand::rngs::StdRng, constraints: TypeConstraints) -> (op: UnOp)
    requires
        constraints.wf(),
        !constraints.is_empty(),
    ensures
        match op {
            UnOp::Neg => constraints.0 & 0x492u32 != 0,
            UnOp::Not => constraints.0 & 0x249u32 != 0,
            UnOp::BitNot => constraints.0 & 0xDB6u32 != 0,
        },
{
    proof {
        lemma_family_unions();
    }
    let mut allowed: Vec<UnOp> = Vec::new();
    if constraints.intersects(TypeConstraints::i32s().union(TypeConstraints::vec_i32s())) {
        allowed.push(UnOp::Neg);
    }
    if constraints.intersects(TypeConstraints::bools().union(TypeConstraints::vec_bools())) {
        allowed.push(UnOp::Not);
    }
    if constraints.intersects(TypeConstraints::ints().union(TypeConstraints::vec_ints())) {
        allowed.push(UnOp::BitNot);
    }
    proof {
        if allowed@.len() == 0 {
            let t = lemma_nonempty_has_member(constraints);
            lemma_mask_families(t);
            lemma_inter_contains(constraints, TypeConstraints(0x492u32), t);
            lemma_inter_contains(constraints, TypeConstraints(0x249u32), t);
            lemma_inter_contains(constraints, TypeConstraints(0xDB6u32), t);
            crate::types::lemma_empty_contains(t);
            assert(false);
        }
    }
    allowed[rng_below(rng, allowed.len())]
}

// ---------------------------------------------------------------------------
// Statement, function and module synthesis
// ---------------------------------------------------------------------------

/// The options of a generation run. The seed, when absent, is drawn once
/// from entropy by the driver; generation itself consumes only the seeded
/// stream. The listed built-in functions may be called by generated code;
/// none are enabled by default, and this generator draws from none.
#[derive(Debug)]
pub struct Options {
    pub seed: Option<u64>,
    pub debug: bool,
    pub enabled_fns: Vec<String>,
}

/// The cap on statement block nesting.
pub const MAX_BLOCK_DEPTH: u32 = 2;

/// The cap on extra statements drawn per block.
pub const MAX_STMTS_PER_BLOCK: usize = 4;

/// The cap on identifiers per function.
pub const MAX_VARS_PER_FN: u32 = 1000000;

/// The generated identifier of the `k`-th declaration of a function.
pub open spec fn name_of(k: nat) -> Seq<char> {
    "x"@ + crate::writer::dec_digits(k)
}

/// The numeric value of a digit character.
pub open spec fn char_val(c: char) -> nat {
    if c == '0' {
        0
    } else if c == '1' {
        1
    } else if c == '2' {
        2
    } else if c == '3' {
        3
    } else if c == '4' {
        4
    } else if c == '5' {
        5
    } else if c == '6' {
        6
    } else if c == '7' {
        7
    } else if c == '8' {
        8
    } else {
        9
    }
}

/// The numeric value of a digit string, most significant first.
pub open spec fn digits_val(s: Seq<char>) -> nat
    decreases s.len(),
{
    if s.len() == 0 {
        0
    } else {
        digits_val(s.drop_last()) * 10 + char_val(s.last())
    }
}

/// Decimal rendering is left-inverted by digit evaluation, and never empty.
pub proof fn lemma_dec_digits_val(n: nat)
    ensures
        digits_val(crate::writer::dec_digits(n)) == n,
        crate::writer::dec_digits(n).len() >= 1,
    decreases n,
{
    reveal_with_fuel(digits_val, 2);
    if n < 10 {
        let s = crate::writer::dec_digits(n);
        assert(s.drop_last() =~= Seq::<char>::empty());
        assert(digits_val(s) == digits_val(s.drop_last()) * 10 + char_val(s.last()));
    } else {
        lemma_dec_digits_val(n / 10);
        let s = crate::writer::dec_digits(n);
        let pre = crate::writer::dec_digits(n / 10);
        assert(s.drop_last() =~= pre);
        vstd::arithmetic::div_mod::lemma_fundamental_div_mod(n as int, 10);
    }
}

/// Distinct declaration counters give distinct identifiers.
pub proof fn lemma_name_of_injective(a: nat, b: nat)
    requires
        name_of(a) == name_of(b),
    ensures
        a == b,
{
    reveal_strlit("x");
    lemma_dec_digits_val(a);
    lemma_dec_digits_val(b);
    let da = crate::writer::dec_digits(a);
    let db = crate::writer::dec_digits(b);
    assert(name_of(a).subrange(1, name_of(a).len() as int) =~= da);
    assert(name_of(b).subrange(1, name_of(b).len() as int) =~= db);
    assert(da == db);
}

/// The name was issued by a counter below `ctr`.
pub open spec fn name_lt(n: Seq<char>, ctr: nat) -> bool {
    exists|k: nat| k < ctr && n == #[trigger] name_of(k)
}

/// A name issued below one counter was issued below every larger one.
pub proof fn lemma_name_lt_mono(n: Seq<char>, c1: nat, c2: nat)
    requires
        name_lt(n, c1),
        c1 <= c2,
    ensures
        name_lt(n, c2),
{
    let k = choose|k: nat| k < c1 && n == #[trigger] name_of(k);
    assert(k < c2 && n == name_of(k));
}

/// Every binding name in the scope was issued by a counter below `ctr`.
pub open spec fn names_ok(s: Scope, ctr: nat) -> bool {
    forall|i: int, j: int|
        0 <= i < s.frames@.len() && 0 <= j < (#[trigger] s.frames@[i])@.len() ==> name_lt(
            (#[trigger] s.frames@[i]@[j]).name@,
            ctr,
        )
}

/// The identifier of declaration counter `k`, executable form.
fn fresh_name(k: u32) -> (s: String)
    ensures
        s@ == name_of(k as nat),
{
    let mut s = <String as vstd::string::StringExecFns>::from_str("x");
    crate::writer::push_u32(&mut s, k);
    proof {
        reveal_strlit("x");
        assert(s@ =~= name_of(k as nat));
    }
    s
}

/// A fresh identifier is absent from every frame of a scope whose names all
/// come from lower counters.
proof fn lemma_fresh_absent(s: Scope, ctr: nat)
    requires
        names_ok(s, ctr),
        s.inv(),
    ensures
        frame_lookup(s.frames@.last()@, name_of(ctr)) is None,
{
    if frame_lookup(s.frames@.last()@, name_of(ctr)) is Some {
        crate::scope::lemma_frame_lookup_mem(s.frames@.last()@, name_of(ctr));
        let j = choose|j: int|
            0 <= j < s.frames@.last()@.len() && #[trigger] s.frames@.last()@[j] == frame_lookup(
                s.frames@.last()@,
                name_of(ctr),
            )->Some_0 && s.frames@.last()@[j].name@ == name_of(ctr);
        assert(s.frames@[s.frames@.len() - 1]@[j].name@ == name_of(ctr));
        assert(name_lt(s.frames@[s.frames@.len() - 1]@[j].name@, ctr));
        let k = choose|k: nat| k < ctr && name_of(ctr) == #[trigger] name_of(k);
        lemma_name_of_injective(k, ctr);
    }
}

/// Generate one statement: declarations and assignments are favored, `if`
/// and `loop` only below the nesting cap, and every result is type sound,
/// closed under the scope, and advances the environment exactly as its
/// declarations say.
#[verifier::loop_isolation(false)]
pub fn gen_stmt(
    rng: &mut rand::rngs::StdRng,
    scope: &mut Scope,
    ctr: &mut u32,
    block_depth: u32,
) -> (st: Statement)
    requires
        old(scope).inv(),
        old(scope).types_wf(),
        names_ok(*old(scope), *old(ctr) as nat),
    ensures
        final(scope).inv(),
        final(scope).types_wf(),
        names_ok(*final(scope), *final(ctr) as nat),
        *old(ctr) <= *final(ctr),
        final(scope).frames@.len() == old(scope).frames@.len(),
        final(scope).frames@.drop_last() == old(scope).frames@.drop_last(),
        stmt_wf(st, MAX_EXPR_DEPTH as nat),
        stmt_closed(st, old(scope).as_map()),
        final(scope).as_map() == crate::ast::stmt_env(st, old(scope).as_map()),
        st is LetDecl || st is VarDecl || st is Assignment || st is If || st is Loop,
    decreases block_depth, 0int,
{
    let unconstrained = TypeConstraints::unconstrained();
    proof {
        lemma_family_unions();
        assert(unconstrained.wf() && !unconstrained.is_empty()) by {
            assert(0xFFFu32 & 0xFFFu32 == 0xFFFu32) by (bit_vector);
        }
    }
    let assignable = scope.intersects_assignable(unconstrained);
    let can_declare = *ctr < MAX_VARS_PER_FN;
    let w_decl: usize = if can_declare {
        6
    } else {
        0
    };
    let w_assign: usize = if assignable {
        4
    } else {
        0
    };
    let w_nest: usize = if block_depth > 0 {
        2
    } else {
        0
    };
    let total = w_decl + w_assign + w_nest + 1;
    let x = rng_below(rng, total);
    if x < w_decl {
        // A declaration: `let` or `var`, under a fresh identifier.
        let mutable = x >= 3;
        let e = gen_expr_at(rng, scope, 0, unconstrained);
        let name = fresh_name(*ctr);
        let name2 = crate::scope::clone_string(&name);
        proof {
            lemma_fresh_absent(*scope, *ctr as nat);
        }
        let ghost pre = *scope;
        scope.insert(name, e.data_type, mutable);
        *ctr = *ctr + 1;
        proof {
            assert forall|i: int, j: int|
                0 <= i < scope.frames@.len() && 0 <= j < (
                #[trigger] scope.frames@[i])@.len() implies name_lt(
                (#[trigger] scope.frames@[i]@[j]).name@,
                *ctr as nat,
            ) by {
                let last = pre.frames@.len() - 1;
                if i < last {
                    assert(scope.frames@.drop_last()[i] == pre.frames@.drop_last()[i]);
                    assert(scope.frames@[i] == pre.frames@[i]);
                    assert(name_lt(pre.frames@[i]@[j].name@, (*ctr - 1) as nat));
                    lemma_name_lt_mono(pre.frames@[i]@[j].name@, (*ctr - 1) as nat, *ctr as nat);
                } else {
                    if j < pre.frames@[last]@.len() {
                        assert(scope.frames@[i]@[j] == pre.frames@[last]@[j]);
                        assert(name_lt(pre.frames@[last]@[j].name@, (*ctr - 1) as nat));
                        lemma_name_lt_mono(
                            pre.frames@[last]@[j].name@,
                            (*ctr - 1) as nat,
                            *ctr as nat,
                        );
                    } else {
                        assert(scope.frames@[i]@[j].name@ == name_of((*ctr - 1) as nat));
                        assert(((*ctr - 1) as nat) < (*ctr as nat) && scope.frames@[i]@[j].name@
                            == name_of((*ctr - 1) as nat));
                        assert(name_lt(scope.frames@[i]@[j].name@, *ctr as nat));
                    }
                }
            }
        }
        if mutable {
            Statement::VarDecl(name2, Some(e))
        } else {
            Statement::LetDecl(name2, e)
        }
    } else if x < w_decl + w_assign {
        // An assignment to a visible mutable binding.
        let (name, t) = scope.choose_assignable(rng, unconstrained);
        proof {
            crate::scope::lemma_lookup_wf(*scope, name@);
        }
        let rhs = gen_expr_at(rng, scope, 0, TypeConstraints::only(t));
        let lhs = AssignmentLhs::Expr(LhsExprNode { data_type: t, expr: LhsExpr::Ident(name) });
        Statement::Assignment(lhs, rhs)
    } else if x < w_decl + w_assign + w_nest {
        // A nested construct: an `if` under a boolean condition, or a loop
        // whose body ends in a break.
        let cond_first = rng_below(rng, 2) == 0;
        if cond_first {
            proof {
                lemma_mask_families(DataType::Scalar(ScalarType::Bool));
            }
            let c = gen_expr_at(rng, scope, 0, TypeConstraints::bools());
            proof {
                lemma_mask_families(c.data_type);
            }
            let body = gen_block(rng, scope, ctr, block_depth - 1);
            Statement::If(c, body, None)
        } else {
            let mut body = gen_block(rng, scope, ctr, block_depth - 1);
            let ghost pre = body@;
            body.push(Statement::Break);
            proof {
                assert(body@.drop_last() =~= pre);
                crate::ast::lemma_stmts_closed_snoc(pre, Statement::Break, old(scope).as_map());
                reveal_with_fuel(stmts_wf, 2);
                assert(stmt_wf(Statement::Break, MAX_EXPR_DEPTH as nat));
                assert(body@.last() == Statement::Break);
                assert(stmts_wf(body@, MAX_EXPR_DEPTH as nat));
            }
            Statement::Loop(body)
        }
    } else {
        // The fallback: a phony assignment, total under any scope and
        // counter state.
        let e = gen_expr_at(rng, scope, 0, unconstrained);
        Statement::Assignment(AssignmentLhs::Phony, e)
    }
}


/// Generate a nested block: push a frame, draw statements into it, pop the
/// frame. The surrounding scope comes back exactly, and the block is closed
/// under the environment at its entry.
#[verifier::loop_isolation(false)]
pub fn gen_block(
    rng: &mut rand::rngs::StdRng,
    scope: &mut Scope,
    ctr: &mut u32,
    block_depth: u32,
) -> (r: Vec<Statement>)
    requires
        old(scope).inv(),
        old(scope).types_wf(),
        names_ok(*old(scope), *old(ctr) as nat),
    ensures
        final(scope).inv(),
        final(scope).types_wf(),
        names_ok(*final(scope), *final(ctr) as nat),
        *old(ctr) <= *final(ctr),
        final(scope).frames@ == old(scope).frames@,
        final(scope).as_map() == old(scope).as_map(),
        stmts_wf(r@, MAX_EXPR_DEPTH as nat),
        stmts_closed(r@, old(scope).as_map()),
        r@.len() >= 1,
    decreases block_depth, 1int,
{
    let ghost env0 = old(scope).as_map();
    let ghost frames0 = old(scope).frames@;
    scope.push();
    proof {
        assert forall|a: int, b: int|
            0 <= a < scope.frames@.len() && 0 <= b < (
            #[trigger] scope.frames@[a])@.len() implies name_lt(
            (#[trigger] scope.frames@[a]@[b]).name@,
            *ctr as nat,
        ) by {
            if a < frames0.len() {
                assert(scope.frames@.drop_last()[a] == frames0[a]);
                assert(scope.frames@[a] == frames0[a]);
                assert(name_lt(frames0[a]@[b].name@, *old(ctr) as nat));
            } else {
                assert(scope.frames@[a]@.len() == 0);
            }
        }
    }
    let n = 1 + rng_below(rng, MAX_STMTS_PER_BLOCK);
    let mut out: Vec<Statement> = Vec::new();
    proof {
        assert(stmts_closed(out@, env0));
        assert(crate::ast::stmts_env(out@, env0) == env0);
        assert(stmts_wf(out@, MAX_EXPR_DEPTH as nat));
    }
    let mut i: usize = 0;
    while i < n
        invariant
            out@.len() == i,
            scope.inv(),
            scope.types_wf(),
            names_ok(*scope, *ctr as nat),
            *old(ctr) <= *ctr,
            scope.frames@.len() == frames0.len() + 1,
            scope.frames@.drop_last() == frames0,
            stmts_wf(out@, MAX_EXPR_DEPTH as nat),
            stmts_closed(out@, env0),
            scope.as_map() == crate::ast::stmts_env(out@, env0),
        decreases n - i,
    {
        let ghost pre = out@;
        let ghost env_here = scope.as_map();
        let st = gen_stmt(rng, scope, ctr, block_depth);
        out.push(st);
        proof {
            assert(out@.drop_last() =~= pre);
            crate::ast::lemma_stmts_closed_snoc(pre, out@.last(), env0);
            assert(stmts_wf(out@, MAX_EXPR_DEPTH as nat));
        }
        i = i + 1;
    }
    let ghost before_pop = scope.frames@;
    scope.pop();
    proof {
        assert(scope.frames@ == frames0);
        assert(scope.as_map() =~= env0);
        assert forall|a: int, b: int|
            0 <= a < scope.frames@.len() && 0 <= b < (
            #[trigger] scope.frames@[a])@.len() implies name_lt(
            (#[trigger] scope.frames@[a]@[b]).name@,
            *ctr as nat,
        ) by {
            assert(scope.frames@[a] == before_pop[a]);
            assert(name_lt(before_pop[a]@[b].name@, *ctr as nat));
        }
    }
    out
}

/// Generate one function declaration: a `let` declaration first, a drawn
/// number of statements after it, and a `return` of a generated expression
/// at the tail. The body is type sound and closed under the empty
/// environment.
#[verifier::loop_isolation(false)]
pub fn gen_function(rng: &mut rand::rngs::StdRng, name: String) -> (f: FnDecl)
    ensures
        f.name == name,
        f.params@.len() == 0,
        f.result_type is None,
        stmts_wf(f.body@, MAX_EXPR_DEPTH as nat),
        stmts_closed(f.body@, Map::<Seq<char>, DataType>::empty()),
        f.body@.len() >= 2,
        f.body@[0] is LetDecl,
        f.body@.last() is Return,
{
    let mut scope = Scope::new();
    let mut ctr: u32 = 0;
    let ghost env0 = Map::<Seq<char>, DataType>::empty();
    let mut body: Vec<Statement> = Vec::new();
    let unconstrained = TypeConstraints::unconstrained();
    proof {
        lemma_family_unions();
        assert(unconstrained.wf() && !unconstrained.is_empty()) by {
            assert(0xFFFu32 & 0xFFFu32 == 0xFFFu32) by (bit_vector);
        }
        assert(names_ok(scope, 0nat));
    }
    // The leading declaration: every generated function opens with a `let`.
    let e0 = gen_expr_at(rng, &scope, 0, unconstrained);
    let name0 = fresh_name(ctr);
    let name0b = crate::scope::clone_string(&name0);
    proof {
        lemma_fresh_absent(scope, 0nat);
    }
    let ghost pre_scope = scope;
    scope.insert(name0, e0.data_type, false);
    ctr = 1;
    proof {
        assert forall|i: int, j: int|
            0 <= i < scope.frames@.len() && 0 <= j < (
            #[trigger] scope.frames@[i])@.len() implies name_lt(
            (#[trigger] scope.frames@[i]@[j]).name@,
            1nat,
        ) by {
            assert(scope.frames@.len() == 1);
            assert(scope.frames@[0]@.len() == 1);
            assert(scope.frames@[0]@[0].name@ == name_of(0nat));
            assert(0nat < 1nat && scope.frames@[i]@[j].name@ == name_of(0nat));
        }
    }
    body.push(Statement::LetDecl(name0b, e0));
    proof {
        reveal_with_fuel(stmts_wf, 2);
        assert(body@.drop_last() =~= Seq::<Statement>::empty());
        crate::ast::lemma_stmts_closed_snoc(Seq::empty(), body@.last(), env0);
        assert(scope.as_map() =~= crate::ast::stmts_env(body@, env0));
        assert(stmts_wf(body@, MAX_EXPR_DEPTH as nat));
    }
    // The middle of the body: a drawn number of statements.
    let n = rng_below(rng, MAX_STMTS_PER_BLOCK + 1);
    let mut i: usize = 0;
    while i < n
        invariant
            scope.inv(),
            scope.types_wf(),
            names_ok(scope, ctr as nat),
            stmts_wf(body@, MAX_EXPR_DEPTH as nat),
            stmts_closed(body@, env0),
            scope.as_map() == crate::ast::stmts_env(body@, env0),
            body@.len() >= 1,
            body@[0] is LetDecl,
        decreases n - i,
    {
        let ghost pre = body@;
        let st = gen_stmt(rng, &mut scope, &mut ctr, MAX_BLOCK_DEPTH);
        body.push(st);
        proof {
            assert(body@.drop_last() =~= pre);
            crate::ast::lemma_stmts_closed_snoc(pre, body@.last(), env0);
            assert(body@[0] == pre[0]);
            assert(stmts_wf(body@, MAX_EXPR_DEPTH as nat));
        }
        i = i + 1;
    }
    // The tail: a deterministic return. The entry point returns no value,
    // so the declaration reads `fn main() {`.
    let result_type = None;
    let ghost pre = body@;
    body.push(Statement::Return(None));
    proof {
        assert(body@.drop_last() =~= pre);
        crate::ast::lemma_stmts_closed_snoc(pre, body@.last(), env0);
        assert(body@[0] == pre[0]);
        assert(stmts_wf(body@, MAX_EXPR_DEPTH as nat));
    }
    FnDecl { name, params: Vec::new(), result_type, body }
}

/// Generate a whole module from a seed: the pure function of `(seed,
/// options)` the driver relies on. The module holds one entry function
/// named `main`, is type sound with every expression inside the depth cap,
/// and every variable reference in it is bound by an enclosing declaration
/// of the same type.
pub fn gen_module(seed: u64, options: &Options) -> (m: Module)
    ensures
        crate::ast::module_wf(m, MAX_EXPR_DEPTH as nat),
        crate::ast::module_closed(m),
        m.helpers@.len() == 0,
        m.functions@.len() == 1,
        m.functions@[0].name@ == "main"@,
        m.functions@[0].params@.len() == 0,
        m.functions@[0].result_type is None,
        m.functions@[0].body@.len() >= 2,
        m.functions@[0].body@[0] is LetDecl,
        m.functions@[0].body@.last() is Return,
{
    let mut rng = crate::rng::rng_from_seed(seed);
    let name = <String as vstd::string::StringExecFns>::from_str("main");
    let f = gen_function(&mut rng, name);
    let mut functions: Vec<FnDecl> = Vec::new();
    functions.push(f);
    let m = Module { helpers: Vec::new(), functions };
    proof {
        assert(crate::ast::params_env(m.functions@[0].params@) =~= Map::<Seq<char>,
            DataType>::empty());
        assert(crate::ast::module_wf(m, MAX_EXPR_DEPTH as nat)) by {
            assert forall|i: int| 0 <= i < m.functions@.len() implies stmts_wf(
                (#[trigger] m.functions@[i]).body@,
                MAX_EXPR_DEPTH as nat,
            ) by {
                assert(m.functions@[i] == m.functions@[0]);
            }
        }
        assert(crate::ast::module_closed(m)) by {
            assert forall|i: int| 0 <= i < m.functions@.len() implies stmts_closed(
                (#[trigger] m.functions@[i]).body@,
                crate::ast::params_env(m.functions@[i].params@),
            ) by {
                assert(m.functions@[i] == m.functions@[0]);
            }
        }
    }
    m
}

/// A binary operator admitted by the constraints, chosen uniformly: the
/// arithmetic, bitwise and shift operators when an integer shape is
/// admitted, the short-circuiting logical operators when scalar `bool` is.
fn gen_bin_op(rng: &mut rand::rngs::StdRng, constraints: TypeConstraints) -> (op: BinOp)
    requires
        constraints.wf(),
        constraints.0 & 0xDB7u32 != 0,
    ensures
        match op {
            BinOp::LogAnd | BinOp::LogOr => constraints.0 & 0x001u32 != 0,
            _ => constraints.0 & 0xDB6u32 != 0,
        },
{
    proof {
        lemma_family_unions();
    }
    let mut allowed: Vec<BinOp> = Vec::new();
    if constraints.intersects(TypeConstraints::ints().union(TypeConstraints::vec_ints())) {
        allowed.push(BinOp::Plus);
        allowed.push(BinOp::Minus);
        allowed.push(BinOp::Times);
        allowed.push(BinOp::Divide);
        allowed.push(BinOp::Mod);
        allowed.push(BinOp::BitAnd);
        allowed.push(BinOp::BitOr);
        allowed.push(BinOp::BitXOr);
        allowed.push(BinOp::LShift);
        allowed.push(BinOp::RShift);
    }
    if constraints.intersects(TypeConstraints::bools()) {
        // Non-short-circuiting logical `&` and `|` on booleans are excluded
        // from generation: one consumer backend miscompiles them, so only
        // `&&` and `||` are drawn here.
        allowed.push(BinOp::LogAnd);
        allowed.push(BinOp::LogOr);
    }
    proof {
        if allowed@.len() == 0 {
            let c = TypeConstraints(constraints.0 & 0xDB7u32);
            assert(c.wf() && !c.is_empty()) by {
                let x = constraints.0;
                assert((x & 0xDB7u32) & 0xFFFu32 == (x & 0xDB7u32)) by (bit_vector);
            }
            let t = lemma_nonempty_has_member(c);
            lemma_inter_contains(constraints, TypeConstraints(0xDB7u32), t);
            lemma_mask_families(t);
            lemma_inter_contains(constraints, TypeConstraints(0x001u32), t);
            lemma_inter_contains(constraints, TypeConstraints(0xDB6u32), t);
            crate::types::lemma_empty_contains(t);
            assert(false);
        }
    }
    allowed[rng_below(rng, allowed.len())]
}

} // verus!
