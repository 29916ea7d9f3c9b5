//! The abstract syntax tree of the target language: literals, expressions,
//! statements, function declarations and modules, together with the spec-level
//! notions the rest of the crate is proved against: operator typing
//! (`expr_wf`), operator nesting depth (`expr_depth`), lexical closure under
//! an environment (`expr_closed`, `stmts_closed`) and the set of variable
//! names an expression or statement reads (`expr_reads`, `stmt_reads`).

use vstd::prelude::*;

use crate::types::{DataType, ScalarType, scalar_of, wf_data_type};

verus! {

/// A literal value.
#[derive(Debug, PartialEq, Eq)]
pub enum Lit {
    Bool(bool),
    Int(i32),
    UInt(u32),
}

/// A unary operator.
#[derive(Clone, Copy, Debug, PartialEq, Eq, Structural)]
pub enum UnOp {
    Neg,
    Not,
    BitNot,
}

/// A binary operator.
#[derive(Clone, Copy, Debug, PartialEq, Eq, Structural)]
pub enum BinOp {
    Plus,
    Minus,
    Times,
    Divide,
    Mod,
    BitAnd,
    BitOr,
    BitXOr,
    LShift,
    RShift,
    LogAnd,
    LogOr,
}

/// A postfix accessor: indexing or member access.
#[derive(Debug, PartialEq, Eq)]
pub enum Postfix {
    ArrayIndex(Box<ExprNode>),
    Member(String),
}

/// An expression. Every node carries its resolved data type in `ExprNode`.
#[derive(Debug, PartialEq, Eq)]
pub enum Expr {
    Lit(Lit),
    TypeCons(DataType, Vec<ExprNode>),
    Var(String),
    Postfix(Box<ExprNode>, Postfix),
    UnOp(UnOp, Box<ExprNode>),
    BinOp(BinOp, Box<ExprNode>, Box<ExprNode>),
    FnCall(String, Vec<ExprNode>),
}

/// An expression together with its resolved data type.
#[derive(Debug, PartialEq, Eq)]
pub struct ExprNode {
    pub data_type: DataType,
    pub expr: Expr,
}

/// The expression forms allowed on the left of an assignment.
#[derive(Debug, PartialEq, Eq)]
pub enum LhsExpr {
    Ident(String),
    Postfix(Box<LhsExprNode>, Postfix),
}

/// A left-hand-side expression with its resolved data type.
#[derive(Debug, PartialEq, Eq)]
pub struct LhsExprNode {
    pub data_type: DataType,
    pub expr: LhsExpr,
}

/// The target of an assignment: the phony `_` target, or an lvalue.
#[derive(Debug, PartialEq, Eq)]
pub enum AssignmentLhs {
    Phony,
    Expr(LhsExprNode),
}

/// The tail of an `if` statement: an `else if` chain or a final `else`.
#[derive(Debug, PartialEq, Eq)]
pub enum Else {
    ElseIf(ExprNode, Vec<Statement>, Option<Box<Else>>),
    Else(Vec<Statement>),
}

/// One case of a `switch` statement; the selector is a literal.
#[derive(Debug, PartialEq, Eq)]
pub struct SwitchCase {
    pub selector: Lit,
    pub body: Vec<Statement>,
}

/// The initializer of a `for` loop header.
#[derive(Debug, PartialEq, Eq)]
pub enum ForLoopInit {
    VarDecl(String, Option<ExprNode>),
}

/// The update of a `for` loop header.
#[derive(Debug, PartialEq, Eq)]
pub enum ForLoopUpdate {
    Assignment(AssignmentLhs, ExprNode),
}

/// The header of a `for` loop.
#[derive(Debug, PartialEq, Eq)]
pub struct ForLoopHeader {
    pub init: Option<ForLoopInit>,
    pub condition: Option<ExprNode>,
    pub update: Option<ForLoopUpdate>,
}

/// A statement.
#[derive(Debug, PartialEq, Eq)]
pub enum Statement {
    LetDecl(String, ExprNode),
    VarDecl(String, Option<ExprNode>),
    Assignment(AssignmentLhs, ExprNode),
    Compound(Vec<Statement>),
    If(ExprNode, Vec<Statement>, Option<Box<Else>>),
    Return(Option<ExprNode>),
    Loop(Vec<Statement>),
    Break,
    Switch(ExprNode, Vec<SwitchCase>, Vec<Statement>),
    ForLoop(ForLoopHeader, Vec<Statement>),
}

impl Statement {
    /// Extracts the inner statements from a `Statement::Compound`.
    ///
    /// The caller must know the statement is a compound block.
    pub fn into_compount_statement(self) -> (r: Vec<Statement>)
        requires
            self is Compound,
        ensures
            self == Statement::Compound(r),
    {
        match self {
            Statement::Compound(stmts) => stmts,
            _ => unreached(),
        }
    }
}

/// A function parameter.
#[derive(Debug, PartialEq, Eq)]
pub struct FnParam {
    pub name: String,
    pub data_type: DataType,
}

/// A function declaration.
#[derive(Debug, PartialEq, Eq)]
pub struct FnDecl {
    pub name: String,
    pub params: Vec<FnParam>,
    pub result_type: Option<DataType>,
    pub body: Vec<Statement>,
}

/// One of the fixed safety helper functions the reconditioner can inject.
/// Their definitions are a closed set; the writer emits the canonical text of
/// each ahead of every generated function.
#[derive(Clone, Copy, Debug, PartialEq, Eq, Structural)]
pub enum SafeHelper {
    DivI32,
    DivU32,
    ModI32,
    ModU32,
}

/// A shader module: injected safety helpers first, then the ordered sequence
/// of function declarations.
#[derive(Debug, PartialEq, Eq)]
pub struct Module {
    pub helpers: Vec<SafeHelper>,
    pub functions: Vec<FnDecl>,
}

// ---------------------------------------------------------------------------
// Operator nesting depth
// ---------------------------------------------------------------------------

/// The operator nesting depth of an expression: the number of nested unary
/// and binary operator applications. Constructor arguments, postfix operands
/// and call arguments do not add a level, mirroring the generator's recursion
/// accounting.
pub open spec fn expr_depth(e: ExprNode) -> nat
    decreases e,
{
    match e.expr {
        Expr::Lit(_) => 0,
        Expr::TypeCons(_, args) => exprs_depth(args@),
        Expr::Var(_) => 0,
        Expr::Postfix(b, p) => vstd::math::max(expr_depth(*b) as int, postfix_depth(p) as int)
            as nat,
        Expr::UnOp(_, a) => expr_depth(*a) + 1,
        Expr::BinOp(_, l, r) => vstd::math::max(expr_depth(*l) as int, expr_depth(*r) as int) as nat
            + 1,
        Expr::FnCall(_, args) => exprs_depth(args@),
    }
}

/// The largest operator nesting depth among a sequence of expressions.
pub open spec fn exprs_depth(s: Seq<ExprNode>) -> nat
    decreases s,
{
    if s.len() == 0 {
        0
    } else {
        vstd::math::max(exprs_depth(s.drop_last()) as int, expr_depth(s.last()) as int) as nat
    }
}

/// The operator nesting depth below a postfix accessor.
pub open spec fn postfix_depth(p: Postfix) -> nat
    decreases p,
{
    match p {
        Postfix::ArrayIndex(i) => expr_depth(*i),
        Postfix::Member(_) => 0,
    }
}

// ---------------------------------------------------------------------------
// Operator typing
// ---------------------------------------------------------------------------

/// The type the right operand of a shift must have: scalar `u32` when the
/// left operand is scalar, a `u32` vector of the same arity when it is a
/// vector.
pub open spec fn shift_rhs_type(l: DataType) -> DataType {
    match l {
        DataType::Scalar(_) => DataType::Scalar(ScalarType::U32),
        DataType::Vector(n, _) => DataType::Vector(n, ScalarType::U32),
    }
}

/// The operand typing rule of a unary operator.
pub open spec fn un_op_ok(op: UnOp, operand: DataType) -> bool {
    match op {
        UnOp::Neg => scalar_of(operand) == ScalarType::I32,
        UnOp::Not => scalar_of(operand) == ScalarType::Bool,
        UnOp::BitNot => scalar_of(operand) != ScalarType::Bool,
    }
}

/// The operand typing rule of a binary operator, and the type of its result.
pub open spec fn bin_op_ok(op: BinOp, l: DataType, r: DataType, result: DataType) -> bool {
    match op {
        BinOp::LogAnd | BinOp::LogOr => l == DataType::Scalar(ScalarType::Bool) && r == l && result
            == l,
        BinOp::LShift | BinOp::RShift => scalar_of(l) != ScalarType::Bool && r == shift_rhs_type(l)
            && result == l,
        _ => scalar_of(l) != ScalarType::Bool && r == l && result == l,
    }
}

/// Type soundness of an expression tree: every node's `data_type` matches the
/// operator-specific rule given its operands' types. A type constructor is
/// either a componentwise construction from scalars or a conversion from one
/// value of the same shape.
pub open spec fn expr_wf(e: ExprNode) -> bool
    decreases e,
{
    &&& wf_data_type(e.data_type)
    &&& match e.expr {
        Expr::Lit(l) => match l {
            Lit::Bool(_) => e.data_type == DataType::Scalar(ScalarType::Bool),
            Lit::Int(_) => e.data_type == DataType::Scalar(ScalarType::I32),
            Lit::UInt(_) => e.data_type == DataType::Scalar(ScalarType::U32),
        },
        Expr::TypeCons(t, args) => {
            &&& e.data_type == t
            &&& exprs_wf(args@)
            &&& match t {
                DataType::Scalar(_) => args@.len() == 1 && args@[0].data_type is Scalar,
                DataType::Vector(n, s) => (args@.len() == n && forall|i: int|
                    0 <= i < args@.len() ==> (#[trigger] args@[i]).data_type == DataType::Scalar(
                        s,
                    )) || (args@.len() == 1 && (args@[0].data_type matches DataType::Vector(m, _)
                    && m == n)),
            }
        },
        Expr::Var(_) => true,
        Expr::Postfix(b, p) => {
            &&& expr_wf(*b)
            &&& postfix_wf(p)
            &&& match p {
                Postfix::ArrayIndex(_) => b.data_type is Vector && e.data_type
                    == DataType::Scalar(scalar_of(b.data_type)),
                Postfix::Member(_) => b.data_type is Vector,
            }
        },
        Expr::UnOp(op, a) => {
            &&& expr_wf(*a)
            &&& un_op_ok(op, a.data_type)
            &&& e.data_type == a.data_type
        },
        Expr::BinOp(op, l, r) => {
            &&& expr_wf(*l)
            &&& expr_wf(*r)
            &&& bin_op_ok(op, l.data_type, r.data_type, e.data_type)
        },
        Expr::FnCall(_, args) => exprs_wf(args@),
    }
}

/// Type soundness of each expression in a sequence.
pub open spec fn exprs_wf(s: Seq<ExprNode>) -> bool
    decreases s,
{
    if s.len() == 0 {
        true
    } else {
        exprs_wf(s.drop_last()) && expr_wf(s.last())
    }
}

/// Type soundness below a postfix accessor.
pub open spec fn postfix_wf(p: Postfix) -> bool
    decreases p,
{
    match p {
        Postfix::ArrayIndex(i) => expr_wf(*i) && (*i).data_type is Scalar && scalar_of(
            (*i).data_type,
        ) != ScalarType::Bool,
        Postfix::Member(_) => true,
    }
}



// ---------------------------------------------------------------------------
// Lexical closure
// ---------------------------------------------------------------------------

/// Every variable reference in the expression is bound in the environment,
/// with the type the reference carries.
pub open spec fn expr_closed(e: ExprNode, env: Map<Seq<char>, DataType>) -> bool
    decreases e,
{
    match e.expr {
        Expr::Lit(_) => true,
        Expr::TypeCons(_, args) => exprs_closed(args@, env),
        Expr::Var(name) => env.contains_key(name@) && env[name@] == e.data_type,
        Expr::Postfix(b, p) => expr_closed(*b, env) && postfix_closed(p, env),
        Expr::UnOp(_, a) => expr_closed(*a, env),
        Expr::BinOp(_, l, r) => expr_closed(*l, env) && expr_closed(*r, env),
        Expr::FnCall(_, args) => exprs_closed(args@, env),
    }
}

/// Closure of each expression in a sequence.
pub open spec fn exprs_closed(s: Seq<ExprNode>, env: Map<Seq<char>, DataType>) -> bool
    decreases s,
{
    if s.len() == 0 {
        true
    } else {
        exprs_closed(s.drop_last(), env) && expr_closed(s.last(), env)
    }
}

/// Closure below a postfix accessor.
pub open spec fn postfix_closed(p: Postfix, env: Map<Seq<char>, DataType>) -> bool
    decreases p,
{
    match p {
        Postfix::ArrayIndex(i) => expr_closed(*i, env),
        Postfix::Member(_) => true,
    }
}





// ---------------------------------------------------------------------------
// Variable reads
// ---------------------------------------------------------------------------

/// The set of variable names the expression reads.
pub open spec fn expr_reads(e: ExprNode) -> Set<Seq<char>>
    decreases e,
{
    match e.expr {
        Expr::Lit(_) => Set::empty(),
        Expr::TypeCons(_, args) => exprs_reads(args@),
        Expr::Var(name) => Set::empty().insert(name@),
        Expr::Postfix(b, p) => expr_reads(*b).union(postfix_reads(p)),
        Expr::UnOp(_, a) => expr_reads(*a),
        Expr::BinOp(_, l, r) => expr_reads(*l).union(expr_reads(*r)),
        Expr::FnCall(_, args) => exprs_reads(args@),
    }
}

/// The set of variable names a sequence of expressions reads.
pub open spec fn exprs_reads(s: Seq<ExprNode>) -> Set<Seq<char>>
    decreases s,
{
    if s.len() == 0 {
        Set::empty()
    } else {
        exprs_reads(s.drop_last()).union(expr_reads(s.last()))
    }
}

/// The set of variable names read below a postfix accessor: only an array
/// index expression reads.
pub open spec fn postfix_reads(p: Postfix) -> Set<Seq<char>>
    decreases p,
{
    match p {
        Postfix::ArrayIndex(i) => expr_reads(*i),
        Postfix::Member(_) => Set::empty(),
    }
}

/// The set of variable names read on the left of an assignment: the assigned
/// identifier itself does not count as a read, but index expressions inside
/// it do.
pub open spec fn lhs_expr_reads(l: LhsExprNode) -> Set<Seq<char>>
    decreases l,
{
    match l.expr {
        LhsExpr::Ident(_) => Set::empty(),
        LhsExpr::Postfix(b, p) => lhs_expr_reads(*b).union(postfix_reads(p)),
    }
}

/// The set of variable names an assignment target reads.
pub open spec fn assignment_lhs_reads(l: AssignmentLhs) -> Set<Seq<char>> {
    match l {
        AssignmentLhs::Phony => Set::empty(),
        AssignmentLhs::Expr(node) => lhs_expr_reads(node),
    }
}

/// The set of variable names a statement reads, visiting every expression in
/// every statement form: both branches of `if`/`else` chains, loop bodies,
/// `for` headers, and all switch cases and defaults.
pub open spec fn stmt_reads(st: Statement) -> Set<Seq<char>>
    decreases st,
{
    match st {
        Statement::LetDecl(_, init) => expr_reads(init),
        Statement::VarDecl(_, init) => match init {
            Some(e) => expr_reads(e),
            None => Set::empty(),
        },
        Statement::Assignment(lhs, rhs) => assignment_lhs_reads(lhs).union(expr_reads(rhs)),
        Statement::Compound(stmts) => stmts_reads(stmts@),
        Statement::If(cond, body, els) => expr_reads(cond).union(stmts_reads(body@)).union(
            match els {
                Some(e) => else_reads(*e),
                None => Set::empty(),
            },
        ),
        Statement::Return(value) => match value {
            Some(e) => expr_reads(e),
            None => Set::empty(),
        },
        Statement::Loop(body) => stmts_reads(body@),
        Statement::Break => Set::empty(),
        Statement::Switch(sel, cases, default) => expr_reads(sel).union(cases_reads(cases@)).union(
            stmts_reads(default@),
        ),
        Statement::ForLoop(header, body) => for_header_reads(header).union(stmts_reads(body@)),
    }
}

/// The set of variable names a sequence of statements reads.
pub open spec fn stmts_reads(s: Seq<Statement>) -> Set<Seq<char>>
    decreases s,
{
    if s.len() == 0 {
        Set::empty()
    } else {
        stmts_reads(s.drop_last()).union(stmt_reads(s.last()))
    }
}

/// The set of variable names an `else` chain reads.
pub open spec fn else_reads(e: Else) -> Set<Seq<char>>
    decreases e,
{
    match e {
        Else::ElseIf(cond, body, next) => expr_reads(cond).union(stmts_reads(body@)).union(
            match next {
                Some(n) => else_reads(*n),
                None => Set::empty(),
            },
        ),
        Else::Else(body) => stmts_reads(body@),
    }
}

/// The set of variable names the switch cases read; case selectors are
/// literals and read nothing.
pub open spec fn cases_reads(s: Seq<SwitchCase>) -> Set<Seq<char>>
    decreases s,
{
    if s.len() == 0 {
        Set::empty()
    } else {
        cases_reads(s.drop_last()).union(stmts_reads(s.last().body@))
    }
}

/// The set of variable names a `for` loop header reads.
pub open spec fn for_header_reads(h: ForLoopHeader) -> Set<Seq<char>> {
    (match h.init {
        Some(ForLoopInit::VarDecl(_, Some(e))) => expr_reads(e),
        _ => Set::empty(),
    }).union(
        match h.condition {
            Some(c) => expr_reads(c),
            None => Set::empty(),
        },
    ).union(
        match h.update {
            Some(ForLoopUpdate::Assignment(lhs, rhs)) => assignment_lhs_reads(lhs).union(
                expr_reads(rhs),
            ),
            None => Set::empty(),
        },
    )
}

/// The shape of expressions the generator emits: literals, variables,
/// componentwise vector constructors, unary and binary operators. Never a
/// call, a postfix accessor, or a one-argument conversion form: a
/// constructor here is a vector built from exactly its arity of scalar
/// elements.
pub open spec fn expr_gen_form(e: ExprNode) -> bool
    decreases e,
{
    match e.expr {
        Expr::Lit(_) => true,
        Expr::Var(_) => true,
        Expr::TypeCons(t, args) => {
            &&& t == e.data_type
            &&& (t matches DataType::Vector(n, s) && (args@.len() == n && forall|i: int|
                0 <= i < args@.len() ==> (#[trigger] args@[i]).data_type == DataType::Scalar(s)))
            &&& exprs_gen_form(args@)
        },
        Expr::UnOp(_, x) => expr_gen_form(*x),
        Expr::BinOp(_, l, r) => expr_gen_form(*l) && expr_gen_form(*r),
        Expr::Postfix(_, _) => false,
        Expr::FnCall(_, _) => false,
    }
}

/// Each expression of the sequence has the generator's shape.
pub open spec fn exprs_gen_form(s: Seq<ExprNode>) -> bool
    decreases s,
{
    forall|i: int| 0 <= i < s.len() ==> expr_gen_form(#[trigger] s[i])
}

// ---------------------------------------------------------------------------
// Statement well-formedness and lexical closure
// ---------------------------------------------------------------------------

/// Type soundness of one statement, with every contained expression's
/// operator nesting depth bounded by `d`: initializers and conditions are
/// well typed, an `if` condition is scalar `bool`, and an assignment's
/// target carries the type of its right-hand side.
pub open spec fn stmt_wf(st: Statement, d: nat) -> bool
    decreases st,
{
    match st {
        Statement::LetDecl(_, e) => expr_wf(e) && expr_depth(e) <= d,
        Statement::VarDecl(_, init) => match init {
            Option::Some(e) => expr_wf(e) && expr_depth(e) <= d,
            Option::None => true,
        },
        Statement::Assignment(lhs, rhs) => expr_wf(rhs) && expr_depth(rhs) <= d && match lhs {
            AssignmentLhs::Phony => true,
            AssignmentLhs::Expr(x) => x.data_type == rhs.data_type,
        },
        Statement::Compound(ss) => stmts_wf(ss@, d),
        Statement::If(c, body, els) => expr_wf(c) && expr_depth(c) <= d && c.data_type
            == DataType::Scalar(ScalarType::Bool) && stmts_wf(body@, d) && match els {
            Option::Some(e) => else_wf(*e, d),
            Option::None => true,
        },
        Statement::Return(v) => match v {
            Option::Some(e) => expr_wf(e) && expr_depth(e) <= d,
            Option::None => true,
        },
        Statement::Loop(body) => stmts_wf(body@, d),
        Statement::Break => true,
        Statement::Switch(sel, cases, default) => expr_wf(sel) && expr_depth(sel) <= d
            && cases_wf(cases@, d) && stmts_wf(default@, d),
        Statement::ForLoop(h, body) => header_wf(h, d) && stmts_wf(body@, d),
    }
}

/// Well-formedness of each statement in a sequence.
pub open spec fn stmts_wf(ss: Seq<Statement>, d: nat) -> bool
    decreases ss,
{
    if ss.len() == 0 {
        true
    } else {
        stmts_wf(ss.drop_last(), d) && stmt_wf(ss.last(), d)
    }
}

/// Well-formedness of an `else` chain.
pub open spec fn else_wf(e: Else, d: nat) -> bool
    decreases e,
{
    match e {
        Else::ElseIf(c, body, next) => expr_wf(c) && expr_depth(c) <= d && c.data_type
            == DataType::Scalar(ScalarType::Bool) && stmts_wf(body@, d) && match next {
            Option::Some(n) => else_wf(*n, d),
            Option::None => true,
        },
        Else::Else(body) => stmts_wf(body@, d),
    }
}

/// Well-formedness of the switch cases.
pub open spec fn cases_wf(cs: Seq<SwitchCase>, d: nat) -> bool
    decreases cs,
{
    if cs.len() == 0 {
        true
    } else {
        cases_wf(cs.drop_last(), d) && stmts_wf(cs.last().body@, d)
    }
}

/// Well-formedness of a `for` loop header.
pub open spec fn header_wf(h: ForLoopHeader, d: nat) -> bool {
    &&& match h.init {
        Option::Some(ForLoopInit::VarDecl(_, Option::Some(e))) => expr_wf(e) && expr_depth(e) <= d,
        _ => true,
    }
    &&& match h.condition {
        Option::Some(c) => expr_wf(c) && expr_depth(c) <= d,
        Option::None => true,
    }
    &&& match h.update {
        Option::Some(ForLoopUpdate::Assignment(_, rhs)) => expr_wf(rhs) && expr_depth(rhs) <= d,
        Option::None => true,
    }
}

/// Well-formedness of every function body of a module, with every
/// expression's operator nesting depth bounded by `d`.
pub open spec fn module_wf(m: Module, d: nat) -> bool {
    forall|i: int| 0 <= i < m.functions@.len() ==> stmts_wf((#[trigger] m.functions@[i]).body@, d)
}

/// The environment after a statement: declarations bind their name to the
/// initializer's type, everything else leaves the environment unchanged.
pub open spec fn stmt_env(st: Statement, env: Map<Seq<char>, DataType>) -> Map<Seq<char>, DataType> {
    match st {
        Statement::LetDecl(n, e) => env.insert(n@, e.data_type),
        Statement::VarDecl(n, init) => match init {
            Option::Some(e) => env.insert(n@, e.data_type),
            Option::None => env,
        },
        _ => env,
    }
}

/// Lexical closure of one statement under an environment: every variable it
/// reads or assigns is bound with the type the reference carries; nested
/// blocks are closed under the environment at their entry, extended by their
/// own declarations as they go.
pub open spec fn stmt_closed(st: Statement, env: Map<Seq<char>, DataType>) -> bool
    decreases st, 0int,
{
    match st {
        Statement::LetDecl(_, e) => expr_closed(e, env),
        Statement::VarDecl(_, init) => match init {
            Option::Some(e) => expr_closed(e, env),
            Option::None => true,
        },
        Statement::Assignment(lhs, rhs) => expr_closed(rhs, env) && match lhs {
            AssignmentLhs::Phony => true,
            AssignmentLhs::Expr(x) => lhs_expr_closed(x, env),
        },
        Statement::Compound(ss) => stmts_closed(ss@, env),
        Statement::If(c, body, els) => expr_closed(c, env) && stmts_closed(body@, env) && match els {
            Option::Some(e) => else_closed(*e, env),
            Option::None => true,
        },
        Statement::Return(v) => match v {
            Option::Some(e) => expr_closed(e, env),
            Option::None => true,
        },
        Statement::Loop(body) => stmts_closed(body@, env),
        Statement::Break => true,
        Statement::Switch(sel, cases, default) => expr_closed(sel, env) && cases_closed(cases@, env)
            && stmts_closed(default@, env),
        Statement::ForLoop(h, body) => header_closed(h, env) && stmts_closed(body@, env),
    }
}

/// Lexical closure of a statement sequence: each statement is closed under
/// the environment extended by the declarations before it.
pub open spec fn stmts_closed(ss: Seq<Statement>, env: Map<Seq<char>, DataType>) -> bool
    decreases ss, 1int,
{
    if ss.len() == 0 {
        true
    } else {
        stmt_closed(ss[0], env) && stmts_closed(ss.subrange(1, ss.len() as int), stmt_env(ss[0], env))
    }
}

/// The environment after a statement sequence.
pub open spec fn stmts_env(ss: Seq<Statement>, env: Map<Seq<char>, DataType>) -> Map<
    Seq<char>,
    DataType,
>
    decreases ss,
{
    if ss.len() == 0 {
        env
    } else {
        stmts_env(ss.subrange(1, ss.len() as int), stmt_env(ss[0], env))
    }
}

/// Lexical closure of an `else` chain.
pub open spec fn else_closed(e: Else, env: Map<Seq<char>, DataType>) -> bool
    decreases e, 2int,
{
    match e {
        Else::ElseIf(c, body, next) => expr_closed(c, env) && stmts_closed(body@, env) && match next {
            Option::Some(n) => else_closed(*n, env),
            Option::None => true,
        },
        Else::Else(body) => stmts_closed(body@, env),
    }
}

/// Lexical closure of the switch cases.
pub open spec fn cases_closed(cs: Seq<SwitchCase>, env: Map<Seq<char>, DataType>) -> bool
    decreases cs, 2int,
{
    if cs.len() == 0 {
        true
    } else {
        cases_closed(cs.drop_last(), env) && stmts_closed(cs.last().body@, env)
    }
}

/// Lexical closure of a `for` loop header.
pub open spec fn header_closed(h: ForLoopHeader, env: Map<Seq<char>, DataType>) -> bool {
    &&& match h.init {
        Option::Some(ForLoopInit::VarDecl(_, Option::Some(e))) => expr_closed(e, env),
        _ => true,
    }
    &&& match h.condition {
        Option::Some(c) => expr_closed(c, env),
        Option::None => true,
    }
    &&& match h.update {
        Option::Some(ForLoopUpdate::Assignment(lhs, rhs)) => expr_closed(rhs, env) && match lhs {
            AssignmentLhs::Phony => true,
            AssignmentLhs::Expr(x) => lhs_expr_closed(x, env),
        },
        Option::None => true,
    }
}

/// Lexical closure of an assignment target: the assigned name is bound with
/// the type the node carries.
pub open spec fn lhs_expr_closed(l: LhsExprNode, env: Map<Seq<char>, DataType>) -> bool
    decreases l,
{
    match l.expr {
        LhsExpr::Ident(n) => env.contains_key(n@) && env[n@] == l.data_type,
        LhsExpr::Postfix(b, p) => lhs_expr_closed(*b, env) && postfix_closed(p, env),
    }
}

/// Lexical closure of a whole module: every function body is closed under
/// the environment of its own parameters.
pub open spec fn module_closed(m: Module) -> bool {
    forall|i: int|
        0 <= i < m.functions@.len() ==> stmts_closed(
            (#[trigger] m.functions@[i]).body@,
            params_env(m.functions@[i].params@),
        )
}

/// The environment a parameter list gives a function body.
pub open spec fn params_env(ps: Seq<FnParam>) -> Map<Seq<char>, DataType>
    decreases ps,
{
    if ps.len() == 0 {
        Map::empty()
    } else {
        params_env(ps.drop_last()).insert(ps.last().name@, ps.last().data_type)
    }
}

/// Appending one statement to a closed sequence keeps it closed exactly when
/// the new statement is closed under the sequence's final environment, and
/// the final environment advances by the new statement.
pub proof fn lemma_stmts_closed_snoc(
    ss: Seq<Statement>,
    st: Statement,
    env: Map<Seq<char>, DataType>,
)
    ensures
        stmts_closed(ss.push(st), env) <==> (stmts_closed(ss, env) && stmt_closed(
            st,
            stmts_env(ss, env),
        )),
        stmts_env(ss.push(st), env) == stmt_env(st, stmts_env(ss, env)),
    decreases ss.len(),
{
    reveal_with_fuel(stmts_closed, 2);
    reveal_with_fuel(stmts_env, 2);
    if ss.len() == 0 {
        assert(ss.push(st)[0] == st);
        assert(ss.push(st).subrange(1, 1) =~= Seq::<Statement>::empty());
    } else {
        lemma_stmts_closed_snoc(ss.subrange(1, ss.len() as int), st, stmt_env(ss[0], env));
        assert(ss.push(st)[0] == ss[0]);
        assert(ss.push(st).subrange(1, ss.push(st).len() as int) =~= ss.subrange(
            1,
            ss.len() as int,
        ).push(st));
    }
}

/// The set of variable names read anywhere in a module.
pub open spec fn module_reads(m: Module) -> Set<Seq<char>> {
    fns_reads(m.functions@)
}

/// The set of variable names read by a sequence of function declarations.
pub open spec fn fns_reads(s: Seq<FnDecl>) -> Set<Seq<char>>
    decreases s,
{
    if s.len() == 0 {
        Set::empty()
    } else {
        fns_reads(s.drop_last()).union(stmts_reads(s.last().body@))
    }
}

} // verus!
