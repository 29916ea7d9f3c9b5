//! The writer: deterministic serialization of a module to source text. The
//! spec functions here give the exact character sequence of every construct,
//! so the emitted text is a pure function of the module: whitespace is fixed,
//! nesting indents by one step, and the output ends with a newline.

use vstd::prelude::*;
use vstd::string::StringExecFns;

use crate::ast::{AssignmentLhs, BinOp, Else, Expr, ExprNode, FnDecl, ForLoopHeader, ForLoopInit,
    ForLoopUpdate, LhsExpr, LhsExprNode, Lit, Module, Postfix, SafeHelper, Statement, SwitchCase,
    UnOp};
use crate::types::{DataType, ScalarType};

verus! {

/// The decimal digits of a number, most significant first.
pub open spec fn dec_digits(n: nat) -> Seq<char>
    decreases n,
{
    if n < 10 {
        seq![digit_char(n)]
    } else {
        dec_digits(n / 10) + seq![digit_char(n % 10)]
    }
}

/// The character of one decimal digit.
pub open spec fn digit_char(d: nat) -> char {
    if d == 0 {
        '0'
    } else if d == 1 {
        '1'
    } else if d == 2 {
        '2'
    } else if d == 3 {
        '3'
    } else if d == 4 {
        '4'
    } else if d == 5 {
        '5'
    } else if d == 6 {
        '6'
    } else if d == 7 {
        '7'
    } else if d == 8 {
        '8'
    } else {
        '9'
    }
}

/// The text of a literal: booleans spelled out, signed integers in decimal
/// with a leading minus when negative, unsigned integers with a `u` suffix.
pub open spec fn lit_text(l: Lit) -> Seq<char> {
    match l {
        Lit::Bool(b) => if b {
            "true"@
        } else {
            "false"@
        },
        Lit::Int(i) => if i < 0 {
            "-"@ + dec_digits((-(i as int)) as nat)
        } else {
            dec_digits(i as nat)
        },
        Lit::UInt(u) => dec_digits(u as nat) + "u"@,
    }
}

/// The text of a scalar type.
pub open spec fn scalar_text(s: ScalarType) -> Seq<char> {
    match s {
        ScalarType::Bool => "bool"@,
        ScalarType::I32 => "i32"@,
        ScalarType::U32 => "u32"@,
    }
}

/// The text of a data type.
pub open spec fn type_text(t: DataType) -> Seq<char> {
    match t {
        DataType::Scalar(s) => scalar_text(s),
        DataType::Vector(n, s) => "vec"@ + dec_digits(n as nat) + "<"@ + scalar_text(s) + ">"@,
    }
}

/// The text of a unary operator.
pub open spec fn un_op_text(op: UnOp) -> Seq<char> {
    match op {
        UnOp::Neg => "-"@,
        UnOp::Not => "!"@,
        UnOp::BitNot => "~"@,
    }
}

/// The text of a binary operator.
pub open spec fn bin_op_text(op: BinOp) -> Seq<char> {
    match op {
        BinOp::Plus => "+"@,
        BinOp::Minus => "-"@,
        BinOp::Times => "*"@,
        BinOp::Divide => "/"@,
        BinOp::Mod => "%"@,
        BinOp::BitAnd => "&"@,
        BinOp::BitOr => "|"@,
        BinOp::BitXOr => "^"@,
        BinOp::LShift => "<<"@,
        BinOp::RShift => ">>"@,
        BinOp::LogAnd => "&&"@,
        BinOp::LogOr => "||"@,
    }
}

/// The text of an expression. Binary operations are parenthesized, so the
/// reading of the text never depends on precedence.
pub open spec fn expr_text(e: ExprNode) -> Seq<char>
    decreases e, 1int,
{
    match e.expr {
        Expr::Lit(l) => lit_text(l),
        Expr::TypeCons(t, args) => type_text(t) + "("@ + exprs_text(args@) + ")"@,
        Expr::Var(name) => name@,
        Expr::Postfix(b, p) => expr_text(*b) + postfix_text(p),
        Expr::UnOp(op, a) => un_op_text(op) + "("@ + expr_text(*a) + ")"@,
        Expr::BinOp(op, l, r) => "("@ + expr_text(*l) + " "@ + bin_op_text(op) + " "@ + expr_text(
            *r,
        ) + ")"@,
        Expr::FnCall(name, args) => name@ + "("@ + exprs_text(args@) + ")"@,
    }
}

/// The comma-separated text of a sequence of expressions.
pub open spec fn exprs_text(s: Seq<ExprNode>) -> Seq<char>
    decreases s, 2int,
{
    if s.len() == 0 {
        Seq::empty()
    } else if s.len() == 1 {
        expr_text(s[0])
    } else {
        exprs_text(s.drop_last()) + ", "@ + expr_text(s.last())
    }
}

/// The text of a postfix accessor.
pub open spec fn postfix_text(p: Postfix) -> Seq<char>
    decreases p, 2int,
{
    match p {
        Postfix::ArrayIndex(i) => "["@ + expr_text(*i) + "]"@,
        Postfix::Member(m) => "."@ + m@,
    }
}

/// The text of a left-hand side.
pub open spec fn lhs_expr_text(l: LhsExprNode) -> Seq<char>
    decreases l,
{
    match l.expr {
        LhsExpr::Ident(n) => n@,
        LhsExpr::Postfix(b, p) => lhs_expr_text(*b) + postfix_text(p),
    }
}

/// The text of an assignment target.
pub open spec fn assign_lhs_text(l: AssignmentLhs) -> Seq<char> {
    match l {
        AssignmentLhs::Phony => "_"@,
        AssignmentLhs::Expr(x) => lhs_expr_text(x),
    }
}

/// One indentation step per nesting level: four spaces each.
pub open spec fn indent_text(k: nat) -> Seq<char>
    decreases k,
{
    if k == 0 {
        Seq::empty()
    } else {
        indent_text((k - 1) as nat) + "    "@
    }
}

/// The text of one statement at a nesting level, ending in a newline.
pub open spec fn stmt_text(st: Statement, k: nat) -> Seq<char>
    decreases st, 3int,
{
    match st {
        Statement::LetDecl(n, e) => indent_text(k) + "let "@ + n@ + " = "@ + expr_text(e) + ";\n"@,
        Statement::VarDecl(n, init) => match init {
            Option::Some(e) => indent_text(k) + "var "@ + n@ + " = "@ + expr_text(e) + ";\n"@,
            Option::None => indent_text(k) + "var "@ + n@ + ";\n"@,
        },
        Statement::Assignment(lhs, rhs) => indent_text(k) + assign_lhs_text(lhs) + " = "@
            + expr_text(rhs) + ";\n"@,
        Statement::Compound(ss) => indent_text(k) + "{\n"@ + stmts_text(ss@, k + 1) + indent_text(
            k,
        ) + "}\n"@,
        Statement::If(c, body, els) => indent_text(k) + "if ("@ + expr_text(c) + ") {\n"@
            + stmts_text(body@, k + 1) + indent_text(k) + "}"@ + (match els {
            Option::Some(e) => else_text(*e, k),
            Option::None => Seq::empty(),
        }) + "\n"@,
        Statement::Return(v) => match v {
            Option::Some(e) => indent_text(k) + "return "@ + expr_text(e) + ";\n"@,
            Option::None => indent_text(k) + "return;\n"@,
        },
        Statement::Loop(body) => indent_text(k) + "loop {\n"@ + stmts_text(body@, k + 1)
            + indent_text(k) + "}\n"@,
        Statement::Break => indent_text(k) + "break;\n"@,
        Statement::Switch(sel, cases, default) => indent_text(k) + "switch ("@ + expr_text(sel)
            + ") {\n"@ + cases_text(cases@, k + 1) + indent_text(k + 1) + "default: {\n"@
            + stmts_text(default@, k + 2) + indent_text(k + 1) + "}\n"@ + indent_text(k) + "}\n"@,
        Statement::ForLoop(h, body) => indent_text(k) + "for ("@ + header_text(h) + ") {\n"@
            + stmts_text(body@, k + 1) + indent_text(k) + "}\n"@,
    }
}

/// The text of a statement sequence.
pub open spec fn stmts_text(ss: Seq<Statement>, k: nat) -> Seq<char>
    decreases ss, 4int,
{
    if ss.len() == 0 {
        Seq::empty()
    } else {
        stmts_text(ss.drop_last(), k) + stmt_text(ss.last(), k)
    }
}

/// The text of an `else` chain, continuing on the closing brace line.
pub open spec fn else_text(e: Else, k: nat) -> Seq<char>
    decreases e, 4int,
{
    match e {
        Else::ElseIf(c, body, next) => " else if ("@ + expr_text(c) + ") {\n"@ + stmts_text(
            body@,
            k + 1,
        ) + indent_text(k) + "}"@ + (match next {
            Option::Some(n) => else_text(*n, k),
            Option::None => Seq::empty(),
        }),
        Else::Else(body) => " else {\n"@ + stmts_text(body@, k + 1) + indent_text(k) + "}"@,
    }
}

/// The text of the switch cases.
pub open spec fn cases_text(cs: Seq<SwitchCase>, k: nat) -> Seq<char>
    decreases cs, 4int,
{
    if cs.len() == 0 {
        Seq::empty()
    } else {
        cases_text(cs.drop_last(), k) + indent_text(k) + "case "@ + lit_text(cs.last().selector)
            + ": {\n"@ + stmts_text(cs.last().body@, k + 1) + indent_text(k) + "}\n"@
    }
}

/// The text of a `for` loop header.
pub open spec fn header_text(h: ForLoopHeader) -> Seq<char> {
    (match h.init {
        Option::Some(ForLoopInit::VarDecl(n, Option::Some(e))) => "var "@ + n@ + " = "@
            + expr_text(e),
        Option::Some(ForLoopInit::VarDecl(n, Option::None)) => "var "@ + n@,
        Option::None => Seq::empty(),
    }) + "; "@ + (match h.condition {
        Option::Some(c) => expr_text(c),
        Option::None => Seq::empty(),
    }) + "; "@ + (match h.update {
        Option::Some(ForLoopUpdate::Assignment(lhs, rhs)) => assign_lhs_text(lhs) + " = "@
            + expr_text(rhs),
        Option::None => Seq::empty(),
    })
}

/// The text of a function declaration.
pub open spec fn fn_text(f: FnDecl) -> Seq<char> {
    "fn "@ + f.name@ + "("@ + params_text(f.params@) + ")"@ + (match f.result_type {
        Option::Some(t) => " -> "@ + type_text(t),
        Option::None => Seq::empty(),
    }) + " {\n"@ + stmts_text(f.body@, 1) + "}\n"@
}

/// The comma-separated text of the parameters.
pub open spec fn params_text(ps: Seq<crate::ast::FnParam>) -> Seq<char>
    decreases ps,
{
    if ps.len() == 0 {
        Seq::empty()
    } else if ps.len() == 1 {
        ps[0].name@ + ": "@ + type_text(ps[0].data_type)
    } else {
        params_text(ps.drop_last()) + ", "@ + ps.last().name@ + ": "@ + type_text(
            ps.last().data_type,
        )
    }
}

/// The canonical text of one injected safety helper: the scalar function
/// and, since the target language has no overloading, one elementwise
/// vector form per arity under its own name.
pub open spec fn helper_text(h: SafeHelper) -> Seq<char> {
    match h {
        SafeHelper::DivI32 => "fn SAFE_DIV_I32(a: i32, b: i32) -> i32 {\n    if (b == 0) { return a; }\n    if ((a == (-2147483647 - 1)) && (b == -1)) { return a; }\n    return (a / b);\n}\n"@ + "fn SAFE_DIV_I32_V2(a: vec2<i32>, b: vec2<i32>) -> vec2<i32> {\n    return vec2<i32>(SAFE_DIV_I32(a.x, b.x), SAFE_DIV_I32(a.y, b.y));\n}\n"@ + "fn SAFE_DIV_I32_V3(a: vec3<i32>, b: vec3<i32>) -> vec3<i32> {\n    return vec3<i32>(SAFE_DIV_I32(a.x, b.x), SAFE_DIV_I32(a.y, b.y), SAFE_DIV_I32(a.z, b.z));\n}\n"@
            + "fn SAFE_DIV_I32_V4(a: vec4<i32>, b: vec4<i32>) -> vec4<i32> {\n    return vec4<i32>(SAFE_DIV_I32(a.x, b.x), SAFE_DIV_I32(a.y, b.y), SAFE_DIV_I32(a.z, b.z), SAFE_DIV_I32(a.w, b.w));\n}\n"@,
        SafeHelper::DivU32 => "fn SAFE_DIV_U32(a: u32, b: u32) -> u32 {\n    if (b == 0u) { return a; }\n    return (a / b);\n}\n"@ + "fn SAFE_DIV_U32_V2(a: vec2<u32>, b: vec2<u32>) -> vec2<u32> {\n    return vec2<u32>(SAFE_DIV_U32(a.x, b.x), SAFE_DIV_U32(a.y, b.y));\n}\n"@ + "fn SAFE_DIV_U32_V3(a: vec3<u32>, b: vec3<u32>) -> vec3<u32> {\n    return vec3<u32>(SAFE_DIV_U32(a.x, b.x), SAFE_DIV_U32(a.y, b.y), SAFE_DIV_U32(a.z, b.z));\n}\n"@
            + "fn SAFE_DIV_U32_V4(a: vec4<u32>, b: vec4<u32>) -> vec4<u32> {\n    return vec4<u32>(SAFE_DIV_U32(a.x, b.x), SAFE_DIV_U32(a.y, b.y), SAFE_DIV_U32(a.z, b.z), SAFE_DIV_U32(a.w, b.w));\n}\n"@,
        SafeHelper::ModI32 => "fn SAFE_MOD_I32(a: i32, b: i32) -> i32 {\n    if (b == 0) { return 0; }\n    if ((a == (-2147483647 - 1)) && (b == -1)) { return 0; }\n    return (a % b);\n}\n"@ + "fn SAFE_MOD_I32_V2(a: vec2<i32>, b: vec2<i32>) -> vec2<i32> {\n    return vec2<i32>(SAFE_MOD_I32(a.x, b.x), SAFE_MOD_I32(a.y, b.y));\n}\n"@ + "fn SAFE_MOD_I32_V3(a: vec3<i32>, b: vec3<i32>) -> vec3<i32> {\n    return vec3<i32>(SAFE_MOD_I32(a.x, b.x), SAFE_MOD_I32(a.y, b.y), SAFE_MOD_I32(a.z, b.z));\n}\n"@
            + "fn SAFE_MOD_I32_V4(a: vec4<i32>, b: vec4<i32>) -> vec4<i32> {\n    return vec4<i32>(SAFE_MOD_I32(a.x, b.x), SAFE_MOD_I32(a.y, b.y), SAFE_MOD_I32(a.z, b.z), SAFE_MOD_I32(a.w, b.w));\n}\n"@,
        SafeHelper::ModU32 => "fn SAFE_MOD_U32(a: u32, b: u32) -> u32 {\n    if (b == 0u) { return 0u; }\n    return (a % b);\n}\n"@ + "fn SAFE_MOD_U32_V2(a: vec2<u32>, b: vec2<u32>) -> vec2<u32> {\n    return vec2<u32>(SAFE_MOD_U32(a.x, b.x), SAFE_MOD_U32(a.y, b.y));\n}\n"@ + "fn SAFE_MOD_U32_V3(a: vec3<u32>, b: vec3<u32>) -> vec3<u32> {\n    return vec3<u32>(SAFE_MOD_U32(a.x, b.x), SAFE_MOD_U32(a.y, b.y), SAFE_MOD_U32(a.z, b.z));\n}\n"@
            + "fn SAFE_MOD_U32_V4(a: vec4<u32>, b: vec4<u32>) -> vec4<u32> {\n    return vec4<u32>(SAFE_MOD_U32(a.x, b.x), SAFE_MOD_U32(a.y, b.y), SAFE_MOD_U32(a.z, b.z), SAFE_MOD_U32(a.w, b.w));\n}\n"@,
    }
}

/// The text of the helper block: each injected helper in order.
pub open spec fn helpers_text(hs: Seq<SafeHelper>) -> Seq<char>
    decreases hs,
{
    if hs.len() == 0 {
        Seq::empty()
    } else {
        helpers_text(hs.drop_last()) + helper_text(hs.last())
    }
}

/// The text of a whole module: the injected helpers ahead of every function
/// declaration, in order.
pub open spec fn module_text(m: Module) -> Seq<char> {
    helpers_text(m.helpers@) + fns_text(m.functions@)
}

/// The text of the function declarations, in order.
pub open spec fn fns_text(fs: Seq<FnDecl>) -> Seq<char>
    decreases fs,
{
    if fs.len() == 0 {
        Seq::empty()
    } else {
        fns_text(fs.drop_last()) + fn_text(fs.last())
    }
}

// ---------------------------------------------------------------------------
// Executable writer
// ---------------------------------------------------------------------------

/// Serialize a module to its canonical source text.
pub fn write_module(m: &Module) -> (out: String)
    ensures
        out@ == module_text(*m),
{
    let mut out = String::new();
    push_helpers(&mut out, &m.helpers);
    push_fns(&mut out, &m.functions);
    out
}

/// Append one decimal digit.
fn push_digit(out: &mut String, d: u32)
    requires
        d < 10,
    ensures
        final(out)@ == old(out)@ + seq![digit_char(d as nat)],
{
    let s: &str = if d == 0 {
        "0"
    } else if d == 1 {
        "1"
    } else if d == 2 {
        "2"
    } else if d == 3 {
        "3"
    } else if d == 4 {
        "4"
    } else if d == 5 {
        "5"
    } else if d == 6 {
        "6"
    } else if d == 7 {
        "7"
    } else if d == 8 {
        "8"
    } else {
        "9"
    };
    proof {
        reveal_strlit("0");
        reveal_strlit("1");
        reveal_strlit("2");
        reveal_strlit("3");
        reveal_strlit("4");
        reveal_strlit("5");
        reveal_strlit("6");
        reveal_strlit("7");
        reveal_strlit("8");
        reveal_strlit("9");
        assert(s@ =~= seq![digit_char(d as nat)]);
    }
    out.append(s);
}

/// Append a number in decimal.
pub(crate) fn push_u32(out: &mut String, n: u32)
    ensures
        final(out)@ == old(out)@ + dec_digits(n as nat),
    decreases n,
{
    if n < 10 {
        push_digit(out, n);
    } else {
        push_u32(out, n / 10);
        push_digit(out, n % 10);
        proof {
            assert(out@ =~= old(out)@ + dec_digits(n as nat));
        }
    }
}

/// Append a literal.
fn push_lit(out: &mut String, l: &Lit)
    ensures
        final(out)@ == old(out)@ + lit_text(*l),
{
    match l {
        Lit::Bool(b) => {
            if *b {
                out.append("true");
            } else {
                out.append("false");
            }
        },
        Lit::Int(i) => {
            if *i < 0 {
                out.append("-");
                let mag = (-(*i as i64)) as u32;
                push_u32(out, mag);
                proof {
                    assert(out@ =~= old(out)@ + lit_text(*l));
                }
            } else {
                push_u32(out, *i as u32);
            }
        },
        Lit::UInt(u) => {
            push_u32(out, *u);
            out.append("u");
            proof {
                assert(out@ =~= old(out)@ + lit_text(*l));
            }
        },
    }
}

/// Append a data type.
fn push_type(out: &mut String, t: &DataType)
    ensures
        final(out)@ == old(out)@ + type_text(*t),
{
    match t {
        DataType::Scalar(s) => push_scalar(out, s),
        DataType::Vector(n, s) => {
            out.append("vec");
            push_u32(out, *n);
            out.append("<");
            push_scalar(out, s);
            out.append(">");
            proof {
                assert(out@ =~= old(out)@ + type_text(*t));
            }
        },
    }
}

/// Append a scalar type name.
fn push_scalar(out: &mut String, s: &ScalarType)
    ensures
        final(out)@ == old(out)@ + scalar_text(*s),
{
    match s {
        ScalarType::Bool => out.append("bool"),
        ScalarType::I32 => out.append("i32"),
        ScalarType::U32 => out.append("u32"),
    }
}

/// Append an expression.
fn push_expr(out: &mut String, e: &ExprNode)
    ensures
        final(out)@ == old(out)@ + expr_text(*e),
    decreases *e, 1int,
{
    match &e.expr {
        Expr::Lit(l) => push_lit(out, l),
        Expr::TypeCons(t, args) => {
            push_type(out, t);
            out.append("(");
            push_exprs(out, args);
            out.append(")");
            proof {
                assert(out@ =~= old(out)@ + expr_text(*e));
            }
        },
        Expr::Var(name) => {
            out.append(name.as_str());
        },
        Expr::Postfix(b, p) => {
            push_expr(out, b);
            push_postfix(out, p);
            proof {
                assert(out@ =~= old(out)@ + expr_text(*e));
            }
        },
        Expr::UnOp(op, a) => {
            match op {
                UnOp::Neg => out.append("-"),
                UnOp::Not => out.append("!"),
                UnOp::BitNot => out.append("~"),
            }
            out.append("(");
            push_expr(out, a);
            out.append(")");
            proof {
                assert(out@ =~= old(out)@ + expr_text(*e));
            }
        },
        Expr::BinOp(op, l, r) => {
            out.append("(");
            push_expr(out, l);
            out.append(" ");
            push_bin_op(out, op);
            out.append(" ");
            push_expr(out, r);
            out.append(")");
            proof {
                assert(out@ =~= old(out)@ + expr_text(*e));
            }
        },
        Expr::FnCall(name, args) => {
            out.append(name.as_str());
            out.append("(");
            push_exprs(out, args);
            out.append(")");
            proof {
                assert(out@ =~= old(out)@ + expr_text(*e));
            }
        },
    }
}

/// Append a binary operator.
fn push_bin_op(out: &mut String, op: &BinOp)
    ensures
        final(out)@ == old(out)@ + bin_op_text(*op),
{
    match op {
        BinOp::Plus => out.append("+"),
        BinOp::Minus => out.append("-"),
        BinOp::Times => out.append("*"),
        BinOp::Divide => out.append("/"),
        BinOp::Mod => out.append("%"),
        BinOp::BitAnd => out.append("&"),
        BinOp::BitOr => out.append("|"),
        BinOp::BitXOr => out.append("^"),
        BinOp::LShift => out.append("<<"),
        BinOp::RShift => out.append(">>"),
        BinOp::LogAnd => out.append("&&"),
        BinOp::LogOr => out.append("||"),
    }
}

/// Append a comma-separated expression list.
#[verifier::loop_isolation(false)]
fn push_exprs(out: &mut String, args: &Vec<ExprNode>)
    ensures
        final(out)@ == old(out)@ + exprs_text(args@),
    decreases args@, 2int,
{
    let mut i: usize = 0;
    while i < args.len()
        invariant
            i <= args@.len(),
            out@ == old(out)@ + exprs_text(args@.subrange(0, i as int)),
        decreases args@.len() - i,
    {
        if i > 0 {
            out.append(", ");
        }
        proof {
            assert(decreases_to!(args@ => args@[i as int]));
        }
        push_expr(out, &args[i]);
        proof {
            assert(args@.subrange(0, i + 1).drop_last() =~= args@.subrange(0, i as int));
            assert(args@.subrange(0, i + 1).last() == args@[i as int]);
            assert(out@ =~= old(out)@ + exprs_text(args@.subrange(0, i + 1)));
        }
        i = i + 1;
    }
    proof {
        assert(args@.subrange(0, args@.len() as int) =~= args@);
        assert(out@ =~= old(out)@ + exprs_text(args@));
    }
}

/// Append a postfix accessor.
fn push_postfix(out: &mut String, p: &Postfix)
    ensures
        final(out)@ == old(out)@ + postfix_text(*p),
    decreases *p, 2int,
{
    match p {
        Postfix::ArrayIndex(i) => {
            out.append("[");
            push_expr(out, i);
            out.append("]");
            proof {
                assert(out@ =~= old(out)@ + postfix_text(*p));
            }
        },
        Postfix::Member(m) => {
            out.append(".");
            out.append(m.as_str());
            proof {
                assert(out@ =~= old(out)@ + postfix_text(*p));
            }
        },
    }
}

/// Append an assignment target.
fn push_assign_lhs(out: &mut String, l: &AssignmentLhs)
    ensures
        final(out)@ == old(out)@ + assign_lhs_text(*l),
{
    match l {
        AssignmentLhs::Phony => out.append("_"),
        AssignmentLhs::Expr(x) => push_lhs_expr(out, x),
    }
}

/// Append a left-hand side.
fn push_lhs_expr(out: &mut String, l: &LhsExprNode)
    ensures
        final(out)@ == old(out)@ + lhs_expr_text(*l),
    decreases *l,
{
    match &l.expr {
        LhsExpr::Ident(n) => out.append(n.as_str()),
        LhsExpr::Postfix(b, p) => {
            push_lhs_expr(out, b);
            push_postfix(out, p);
            proof {
                assert(out@ =~= old(out)@ + lhs_expr_text(*l));
            }
        },
    }
}

/// Append one statement at a nesting level; `ind` is the indentation text
/// of level `k`.
#[verifier::rlimit(100)]
fn push_stmt(out: &mut String, st: &Statement, ind: &String, Ghost(k): Ghost<nat>)
    requires
        ind@ == indent_text(k),
    ensures
        final(out)@ == old(out)@ + stmt_text(*st, k),
    decreases *st, 3int,
{
    let mut ind2 = crate::scope::clone_string(ind);
    ind2.append("    ");
    proof {
        assert(ind2@ == indent_text(k + 1));
    }
    match st {
        Statement::LetDecl(n, e) => {
            out.append(ind.as_str());
            out.append("let ");
            out.append(n.as_str());
            out.append(" = ");
            push_expr(out, e);
            out.append(";\n");
            proof {
                assert(out@ =~= old(out)@ + stmt_text(*st, k));
            }
        },
        Statement::VarDecl(n, init) => {
            out.append(ind.as_str());
            out.append("var ");
            out.append(n.as_str());
            match init {
                Some(e) => {
                    out.append(" = ");
                    push_expr(out, e);
                },
                None => (),
            }
            out.append(";\n");
            proof {
                assert(out@ =~= old(out)@ + stmt_text(*st, k));
            }
        },
        Statement::Assignment(lhs, rhs) => {
            out.append(ind.as_str());
            push_assign_lhs(out, lhs);
            out.append(" = ");
            push_expr(out, rhs);
            out.append(";\n");
            proof {
                assert(out@ =~= old(out)@ + stmt_text(*st, k));
            }
        },
        Statement::Compound(ss) => {
            out.append(ind.as_str());
            out.append("{\n");
            push_stmts(out, ss, &ind2, Ghost(k + 1));
            out.append(ind.as_str());
            out.append("}\n");
            proof {
                assert(out@ =~= old(out)@ + stmt_text(*st, k));
            }
        },
        Statement::If(c, body, els) => {
            out.append(ind.as_str());
            out.append("if (");
            push_expr(out, c);
            out.append(") {\n");
            push_stmts(out, body, &ind2, Ghost(k + 1));
            out.append(ind.as_str());
            out.append("}");
            match els {
                Some(e) => push_else(out, e, ind, Ghost(k)),
                None => (),
            }
            out.append("\n");
            proof {
                assert(out@ =~= old(out)@ + stmt_text(*st, k));
            }
        },
        Statement::Return(v) => {
            out.append(ind.as_str());
            match v {
                Some(e) => {
                    out.append("return ");
                    push_expr(out, e);
                    out.append(";\n");
                },
                None => {
                    out.append("return;\n");
                },
            }
            proof {
                assert(out@ =~= old(out)@ + stmt_text(*st, k));
            }
        },
        Statement::Loop(body) => {
            out.append(ind.as_str());
            out.append("loop {\n");
            push_stmts(out, body, &ind2, Ghost(k + 1));
            out.append(ind.as_str());
            out.append("}\n");
            proof {
                assert(out@ =~= old(out)@ + stmt_text(*st, k));
            }
        },
        Statement::Break => {
            out.append(ind.as_str());
            out.append("break;\n");
            proof {
                assert(out@ =~= old(out)@ + stmt_text(*st, k));
            }
        },
        Statement::Switch(sel, cases, default) => {
            let mut ind3 = crate::scope::clone_string(&ind2);
            ind3.append("    ");
            proof {
                assert(ind3@ == indent_text(k + 2));
            }
            out.append(ind.as_str());
            out.append("switch (");
            push_expr(out, sel);
            out.append(") {\n");
            push_cases(out, cases, &ind2, Ghost(k + 1));
            out.append(ind2.as_str());
            out.append("default: {\n");
            push_stmts(out, default, &ind3, Ghost(k + 2));
            out.append(ind2.as_str());
            out.append("}\n");
            out.append(ind.as_str());
            out.append("}\n");
            proof {
                assert(out@ =~= old(out)@ + stmt_text(*st, k));
            }
        },
        Statement::ForLoop(h, body) => {
            out.append(ind.as_str());
            out.append("for (");
            push_header(out, h);
            out.append(") {\n");
            push_stmts(out, body, &ind2, Ghost(k + 1));
            out.append(ind.as_str());
            out.append("}\n");
            proof {
                assert(out@ =~= old(out)@ + stmt_text(*st, k));
            }
        },
    }
}

/// Append each statement of a block.
#[verifier::loop_isolation(false)]
fn push_stmts(out: &mut String, ss: &Vec<Statement>, ind: &String, Ghost(k): Ghost<nat>)
    requires
        ind@ == indent_text(k),
    ensures
        final(out)@ == old(out)@ + stmts_text(ss@, k),
    decreases ss@, 4int,
{
    let mut i: usize = 0;
    while i < ss.len()
        invariant
            i <= ss@.len(),
            out@ == old(out)@ + stmts_text(ss@.subrange(0, i as int), k),
        decreases ss@.len() - i,
    {
        proof {
            assert(decreases_to!(ss@ => ss@[i as int]));
        }
        push_stmt(out, &ss[i], ind, Ghost(k));
        proof {
            assert(ss@.subrange(0, i + 1).drop_last() =~= ss@.subrange(0, i as int));
            assert(ss@.subrange(0, i + 1).last() == ss@[i as int]);
            assert(out@ =~= old(out)@ + stmts_text(ss@.subrange(0, i + 1), k));
        }
        i = i + 1;
    }
    proof {
        assert(ss@.subrange(0, ss@.len() as int) =~= ss@);
    }
}

/// Append an `else` chain.
fn push_else(out: &mut String, e: &Else, ind: &String, Ghost(k): Ghost<nat>)
    requires
        ind@ == indent_text(k),
    ensures
        final(out)@ == old(out)@ + else_text(*e, k),
    decreases *e, 4int,
{
    let mut ind2 = crate::scope::clone_string(ind);
    ind2.append("    ");
    proof {
        assert(ind2@ == indent_text(k + 1));
    }
    match e {
        Else::ElseIf(c, body, next) => {
            out.append(" else if (");
            push_expr(out, c);
            out.append(") {\n");
            push_stmts(out, body, &ind2, Ghost(k + 1));
            out.append(ind.as_str());
            out.append("}");
            match next {
                Some(n) => push_else(out, n, ind, Ghost(k)),
                None => (),
            }
            proof {
                assert(out@ =~= old(out)@ + else_text(*e, k));
            }
        },
        Else::Else(body) => {
            out.append(" else {\n");
            push_stmts(out, body, &ind2, Ghost(k + 1));
            out.append(ind.as_str());
            out.append("}");
            proof {
                assert(out@ =~= old(out)@ + else_text(*e, k));
            }
        },
    }
}

/// Append the switch cases.
#[verifier::loop_isolation(false)]
fn push_cases(out: &mut String, cs: &Vec<SwitchCase>, ind: &String, Ghost(k): Ghost<nat>)
    requires
        ind@ == indent_text(k),
    ensures
        final(out)@ == old(out)@ + cases_text(cs@, k),
    decreases cs@, 4int,
{
    let mut ind2 = crate::scope::clone_string(ind);
    ind2.append("    ");
    proof {
        assert(ind2@ == indent_text(k + 1));
    }
    let mut i: usize = 0;
    while i < cs.len()
        invariant
            i <= cs@.len(),
            out@ == old(out)@ + cases_text(cs@.subrange(0, i as int), k),
        decreases cs@.len() - i,
    {
        proof {
            assert(decreases_to!(cs@ => cs@[i as int]));
            assert(decreases_to!(cs@[i as int] => cs@[i as int].body));
        }
        out.append(ind.as_str());
        out.append("case ");
        push_lit(out, &cs[i].selector);
        out.append(": {\n");
        push_stmts(out, &cs[i].body, &ind2, Ghost(k + 1));
        out.append(ind.as_str());
        out.append("}\n");
        proof {
            assert(cs@.subrange(0, i + 1).drop_last() =~= cs@.subrange(0, i as int));
            assert(cs@.subrange(0, i + 1).last() == cs@[i as int]);
            assert(out@ =~= old(out)@ + cases_text(cs@.subrange(0, i + 1), k));
        }
        i = i + 1;
    }
    proof {
        assert(cs@.subrange(0, cs@.len() as int) =~= cs@);
    }
}

/// Append a `for` loop header.
#[verifier::rlimit(60)]
fn push_header(out: &mut String, h: &ForLoopHeader)
    ensures
        final(out)@ == old(out)@ + header_text(*h),
{
    match &h.init {
        Some(ForLoopInit::VarDecl(n, Some(e))) => {
            out.append("var ");
            out.append(n.as_str());
            out.append(" = ");
            push_expr(out, e);
        },
        Some(ForLoopInit::VarDecl(n, None)) => {
            out.append("var ");
            out.append(n.as_str());
        },
        None => (),
    }
    out.append("; ");
    match &h.condition {
        Some(c) => push_expr(out, c),
        None => (),
    }
    out.append("; ");
    match &h.update {
        Some(ForLoopUpdate::Assignment(lhs, rhs)) => {
            push_assign_lhs(out, lhs);
            out.append(" = ");
            push_expr(out, rhs);
        },
        None => (),
    }
    proof {
        assert(out@ =~= old(out)@ + header_text(*h));
    }
}

/// Append the helper block.
#[verifier::loop_isolation(false)]
fn push_helpers(out: &mut String, hs: &Vec<SafeHelper>)
    ensures
        final(out)@ == old(out)@ + helpers_text(hs@),
{
    let mut i: usize = 0;
    while i < hs.len()
        invariant
            i <= hs@.len(),
            out@ == old(out)@ + helpers_text(hs@.subrange(0, i as int)),
        decreases hs@.len() - i,
    {
        match hs[i] {
            SafeHelper::DivI32 => {
                out.append(
                    "fn SAFE_DIV_I32(a: i32, b: i32) -> i32 {\n    if (b == 0) { return a; }\n    if ((a == (-2147483647 - 1)) && (b == -1)) { return a; }\n    return (a / b);\n}\n",
                );
                out.append(
                    "fn SAFE_DIV_I32_V2(a: vec2<i32>, b: vec2<i32>) -> vec2<i32> {\n    return vec2<i32>(SAFE_DIV_I32(a.x, b.x), SAFE_DIV_I32(a.y, b.y));\n}\n",
                );
                out.append(
                    "fn SAFE_DIV_I32_V3(a: vec3<i32>, b: vec3<i32>) -> vec3<i32> {\n    return vec3<i32>(SAFE_DIV_I32(a.x, b.x), SAFE_DIV_I32(a.y, b.y), SAFE_DIV_I32(a.z, b.z));\n}\n",
                );
                out.append(
                    "fn SAFE_DIV_I32_V4(a: vec4<i32>, b: vec4<i32>) -> vec4<i32> {\n    return vec4<i32>(SAFE_DIV_I32(a.x, b.x), SAFE_DIV_I32(a.y, b.y), SAFE_DIV_I32(a.z, b.z), SAFE_DIV_I32(a.w, b.w));\n}\n",
                );
            },
            SafeHelper::DivU32 => {
                out.append(
                    "fn SAFE_DIV_U32(a: u32, b: u32) -> u32 {\n    if (b == 0u) { return a; }\n    return (a / b);\n}\n",
                );
                out.append(
                    "fn SAFE_DIV_U32_V2(a: vec2<u32>, b: vec2<u32>) -> vec2<u32> {\n    return vec2<u32>(SAFE_DIV_U32(a.x, b.x), SAFE_DIV_U32(a.y, b.y));\n}\n",
                );
                out.append(
                    "fn SAFE_DIV_U32_V3(a: vec3<u32>, b: vec3<u32>) -> vec3<u32> {\n    return vec3<u32>(SAFE_DIV_U32(a.x, b.x), SAFE_DIV_U32(a.y, b.y), SAFE_DIV_U32(a.z, b.z));\n}\n",
                );
                out.append(
                    "fn SAFE_DIV_U32_V4(a: vec4<u32>, b: vec4<u32>) -> vec4<u32> {\n    return vec4<u32>(SAFE_DIV_U32(a.x, b.x), SAFE_DIV_U32(a.y, b.y), SAFE_DIV_U32(a.z, b.z), SAFE_DIV_U32(a.w, b.w));\n}\n",
                );
            },
            SafeHelper::ModI32 => {
                out.append(
                    "fn SAFE_MOD_I32(a: i32, b: i32) -> i32 {\n    if (b == 0) { return 0; }\n    if ((a == (-2147483647 - 1)) && (b == -1)) { return 0; }\n    return (a % b);\n}\n",
                );
                out.append(
                    "fn SAFE_MOD_I32_V2(a: vec2<i32>, b: vec2<i32>) -> vec2<i32> {\n    return vec2<i32>(SAFE_MOD_I32(a.x, b.x), SAFE_MOD_I32(a.y, b.y));\n}\n",
                );
                out.append(
                    "fn SAFE_MOD_I32_V3(a: vec3<i32>, b: vec3<i32>) -> vec3<i32> {\n    return vec3<i32>(SAFE_MOD_I32(a.x, b.x), SAFE_MOD_I32(a.y, b.y), SAFE_MOD_I32(a.z, b.z));\n}\n",
                );
                out.append(
                    "fn SAFE_MOD_I32_V4(a: vec4<i32>, b: vec4<i32>) -> vec4<i32> {\n    return vec4<i32>(SAFE_MOD_I32(a.x, b.x), SAFE_MOD_I32(a.y, b.y), SAFE_MOD_I32(a.z, b.z), SAFE_MOD_I32(a.w, b.w));\n}\n",
                );
            },
            SafeHelper::ModU32 => {
                out.append(
                    "fn SAFE_MOD_U32(a: u32, b: u32) -> u32 {\n    if (b == 0u) { return 0u; }\n    return (a % b);\n}\n",
                );
                out.append(
                    "fn SAFE_MOD_U32_V2(a: vec2<u32>, b: vec2<u32>) -> vec2<u32> {\n    return vec2<u32>(SAFE_MOD_U32(a.x, b.x), SAFE_MOD_U32(a.y, b.y));\n}\n",
                );
                out.append(
                    "fn SAFE_MOD_U32_V3(a: vec3<u32>, b: vec3<u32>) -> vec3<u32> {\n    return vec3<u32>(SAFE_MOD_U32(a.x, b.x), SAFE_MOD_U32(a.y, b.y), SAFE_MOD_U32(a.z, b.z));\n}\n",
                );
                out.append(
                    "fn SAFE_MOD_U32_V4(a: vec4<u32>, b: vec4<u32>) -> vec4<u32> {\n    return vec4<u32>(SAFE_MOD_U32(a.x, b.x), SAFE_MOD_U32(a.y, b.y), SAFE_MOD_U32(a.z, b.z), SAFE_MOD_U32(a.w, b.w));\n}\n",
                );
            },
        }
        proof {
            assert(hs@.subrange(0, i + 1).drop_last() =~= hs@.subrange(0, i as int));
            assert(hs@.subrange(0, i + 1).last() == hs@[i as int]);
            assert(out@ =~= old(out)@ + helpers_text(hs@.subrange(0, i + 1)));
        }
        i = i + 1;
    }
    proof {
        assert(hs@.subrange(0, hs@.len() as int) =~= hs@);
    }
}

/// Append each function declaration.
#[verifier::loop_isolation(false)]
fn push_fns(out: &mut String, fs: &Vec<FnDecl>)
    ensures
        final(out)@ == old(out)@ + fns_text(fs@),
{
    let mut i: usize = 0;
    while i < fs.len()
        invariant
            i <= fs@.len(),
            out@ == old(out)@ + fns_text(fs@.subrange(0, i as int)),
        decreases fs@.len() - i,
    {
        push_fn(out, &fs[i]);
        proof {
            assert(fs@.subrange(0, i + 1).drop_last() =~= fs@.subrange(0, i as int));
            assert(fs@.subrange(0, i + 1).last() == fs@[i as int]);
            assert(out@ =~= old(out)@ + fns_text(fs@.subrange(0, i + 1)));
        }
        i = i + 1;
    }
    proof {
        assert(fs@.subrange(0, fs@.len() as int) =~= fs@);
    }
}

/// Append one function declaration.
#[verifier::loop_isolation(false)]
fn push_fn(out: &mut String, f: &FnDecl)
    ensures
        final(out)@ == old(out)@ + fn_text(*f),
{
    out.append("fn ");
    out.append(f.name.as_str());
    out.append("(");
    let ghost ps = f.params@;
    let mut i: usize = 0;
    while i < f.params.len()
        invariant
            i <= ps.len(),
            f.params@ == ps,
            out@ == old(out)@ + "fn "@ + f.name@ + "("@ + params_text(ps.subrange(0, i as int)),
        decreases ps.len() - i,
    {
        if i > 0 {
            out.append(", ");
        }
        out.append(f.params[i].name.as_str());
        out.append(": ");
        push_type(out, &f.params[i].data_type);
        proof {
            assert(ps.subrange(0, i + 1).drop_last() =~= ps.subrange(0, i as int));
            assert(ps.subrange(0, i + 1).last() == ps[i as int]);
            assert(out@ =~= old(out)@ + "fn "@ + f.name@ + "("@ + params_text(
                ps.subrange(0, i + 1),
            ));
        }
        i = i + 1;
    }
    proof {
        assert(ps.subrange(0, ps.len() as int) =~= ps);
    }
    out.append(")");
    match &f.result_type {
        Some(t) => {
            out.append(" -> ");
            push_type(out, t);
        },
        None => (),
    }
    out.append(" {\n");
    let ind1 = <String as StringExecFns>::from_str("    ");
    proof {
        assert(indent_text(0nat) == Seq::<char>::empty());
        assert(ind1@ =~= indent_text(1nat));
    }
    push_stmts(out, &f.body, &ind1, Ghost(1nat));
    out.append("}\n");
    proof {
        assert(out@ =~= old(out)@ + fn_text(*f));
    }
}

} // verus!
