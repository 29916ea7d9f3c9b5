//! The scanning pass that runs ahead of reconditioning: collect every
//! variable name read anywhere in a module — in every statement form, every
//! branch of `if`/`else` chains, loop bodies, `for` headers, switch cases
//! and defaults — and strike those names from a candidate set. Assigned
//! identifiers do not count as reads, but index expressions inside an
//! assignment target do.

use vstd::prelude::*;

use crate::ast::{AssignmentLhs, Else, Expr, ExprNode, ForLoopInit, ForLoopUpdate, LhsExpr,
    LhsExprNode, Module, Postfix, Statement, SwitchCase, assignment_lhs_reads, else_reads,
    expr_reads, exprs_reads, cases_reads, for_header_reads, fns_reads, lhs_expr_reads,
    module_reads, postfix_reads, stmt_reads, stmts_reads};
use crate::scope::{clone_string, string_eq};

verus! {

/// The predicate that keeps a name: the module never reads it.
pub open spec fn keep_pred(m: Module) -> spec_fn(String) -> bool {
    |s: String| !module_reads(m).contains(s@)
}

/// The set of character sequences a list of names stands for.
pub open spec fn views_of(v: Seq<String>) -> Set<Seq<char>> {
    Set::new(|n: Seq<char>| exists|i: int| 0 <= i < v.len() && (#[trigger] v[i])@ == n)
}

/// Remove from `vars` every name the module reads anywhere. What remains is
/// exactly the original list, in order, restricted to the names the module
/// never reads.
pub fn remove_accessed_vars(vars: &mut Vec<String>, module: &Module)
    ensures
        final(vars)@ == old(vars)@.filter(keep_pred(*module)),
{
    let mut reads: Vec<String> = Vec::new();
    proof {
        assert(views_of(reads@) =~= Set::<Seq<char>>::empty());
    }
    let mut i: usize = 0;
    let ghost fns = module.functions@;
    while i < module.functions.len()
        invariant
            i <= fns.len(),
            module.functions@ == fns,
            views_of(reads@) == fns_reads(fns.subrange(0, i as int)),
        decreases fns.len() - i,
    {
        let f = &module.functions[i];
        visit_stmts(&mut reads, &f.body);
        proof {
            assert(fns.subrange(0, i + 1).drop_last() =~= fns.subrange(0, i as int));
            assert(fns.subrange(0, i + 1).last() == fns[i as int]);
            assert(views_of(reads@) =~= fns_reads(fns.subrange(0, i + 1)));
        }
        i = i + 1;
    }
    proof {
        assert(fns.subrange(0, fns.len() as int) =~= fns);
    }
    let mut work: Vec<String> = Vec::new();
    core::mem::swap(vars, &mut work);
    let ghost orig = work@;
    let mut kept: Vec<String> = Vec::new();
    while work.len() > 0
        invariant
            work@.len() <= orig.len(),
            work@ == orig.subrange(orig.len() - work@.len(), orig.len() as int),
            views_of(reads@) == module_reads(*module),
            kept@ == orig.subrange(0, orig.len() - work@.len()).filter(keep_pred(*module)),
        decreases work@.len(),
    {
        let ghost k = orig.len() - work@.len();
        let s = work.remove(0);
        proof {
            assert(s == orig[k]);
        }
        let keep = !contains_name(&reads, &s);
        let ghost pre = kept@;
        if keep {
            kept.push(s);
        }
        proof {
            let pred = keep_pred(*module);
            assert(work@ =~= orig.subrange(k + 1, orig.len() as int));
            assert(orig.subrange(0, k + 1).drop_last() =~= orig.subrange(0, k));
            assert(orig.subrange(0, k + 1).last() == orig[k]);
            reveal_with_fuel(Seq::<String>::filter, 2);
            assert(pred(orig[k]) == keep);
            if keep {
                assert(kept@ == pre.push(orig[k]));
                assert(kept@ =~= orig.subrange(0, k + 1).filter(pred));
            } else {
                assert(kept@ =~= orig.subrange(0, k + 1).filter(pred));
            }
        }
    }
    proof {
        assert(orig.subrange(0, orig.len() as int) =~= orig);
    }
    *vars = kept;
}

/// Whether the list holds a name with the given characters.
#[verifier::loop_isolation(false)]
fn contains_name(v: &Vec<String>, name: &String) -> (r: bool)
    ensures
        r == views_of(v@).contains(name@),
{
    let mut k: usize = 0;
    while k < v.len()
        invariant
            k <= v@.len(),
            forall|i: int| 0 <= i < k ==> (#[trigger] v@[i])@ != name@,
        decreases v@.len() - k,
    {
        if string_eq(&v[k], name) {
            proof {
                assert(v@[k as int]@ == name@);
            }
            return true;
        }
        k = k + 1;
    }
    proof {
        if views_of(v@).contains(name@) {
            let i = choose|i: int| 0 <= i < v@.len() && (#[trigger] v@[i])@ == name@;
            assert(v@[i]@ == name@);
        }
    }
    false
}

/// Record that a name was read.
fn push_read(acc: &mut Vec<String>, name: &String)
    ensures
        views_of(final(acc)@) == views_of(old(acc)@).insert(name@),
{
    acc.push(clone_string(name));
    proof {
        assert forall|n: Seq<char>|
            views_of(acc@).contains(n) == views_of(old(acc)@).insert(name@).contains(n) by {
            if views_of(acc@).contains(n) {
                let i = choose|i: int| 0 <= i < acc@.len() && (#[trigger] acc@[i])@ == n;
                if i < acc@.len() - 1 {
                    assert(old(acc)@[i]@ == n);
                }
            }
            if views_of(old(acc)@).contains(n) {
                let i = choose|i: int| 0 <= i < old(acc)@.len() && (#[trigger] old(acc)@[i])@ == n;
                assert(acc@[i]@ == n);
            }
            if n == name@ {
                assert(acc@[acc@.len() - 1]@ == n);
            }
        }
        assert(views_of(acc@) =~= views_of(old(acc)@).insert(name@));
    }
}

/// Visit every statement of a block.
#[verifier::loop_isolation(false)]
fn visit_stmts(acc: &mut Vec<String>, stmts: &Vec<Statement>)
    ensures
        views_of(final(acc)@) == views_of(old(acc)@).union(stmts_reads(stmts@)),
    decreases stmts@, 1int,
{
    let mut i: usize = 0;
    while i < stmts.len()
        invariant
            i <= stmts@.len(),
            views_of(acc@) == views_of(old(acc)@).union(stmts_reads(stmts@.subrange(0, i as int))),
        decreases stmts@.len() - i,
    {
        proof {
            assert(decreases_to!(stmts@ => stmts@[i as int]));
        }
        visit_stmt(acc, &stmts[i]);
        proof {
            assert(stmts@.subrange(0, i + 1).drop_last() =~= stmts@.subrange(0, i as int));
            assert(stmts@.subrange(0, i + 1).last() == stmts@[i as int]);
            assert(views_of(acc@) =~= views_of(old(acc)@).union(
                stmts_reads(stmts@.subrange(0, i + 1)),
            ));
        }
        i = i + 1;
    }
    proof {
        assert(stmts@.subrange(0, stmts@.len() as int) =~= stmts@);
    }
}

/// Visit one statement, covering every expression position it has.
fn visit_stmt(acc: &mut Vec<String>, st: &Statement)
    ensures
        views_of(final(acc)@) == views_of(old(acc)@).union(stmt_reads(*st)),
    decreases *st, 0int,
{
    match st {
        Statement::LetDecl(_, e) => {
            visit_expr(acc, e);
        },
        Statement::VarDecl(_, init) => {
            match init {
                Some(e) => visit_expr(acc, e),
                None => (),
            }
            proof {
                assert(views_of(acc@) =~= views_of(old(acc)@).union(stmt_reads(*st)));
            }
        },
        Statement::Assignment(lhs, rhs) => {
            visit_assignment_lhs(acc, lhs);
            visit_expr(acc, rhs);
            proof {
                assert(views_of(acc@) =~= views_of(old(acc)@).union(stmt_reads(*st)));
            }
        },
        Statement::Compound(ss) => {
            visit_stmts(acc, ss);
        },
        Statement::If(c, body, els) => {
            visit_expr(acc, c);
            visit_stmts(acc, body);
            match els {
                Some(e) => visit_else(acc, e),
                None => (),
            }
            proof {
                assert(views_of(acc@) =~= views_of(old(acc)@).union(stmt_reads(*st)));
            }
        },
        Statement::Return(v) => {
            match v {
                Some(e) => visit_expr(acc, e),
                None => (),
            }
            proof {
                assert(views_of(acc@) =~= views_of(old(acc)@).union(stmt_reads(*st)));
            }
        },
        Statement::Loop(body) => {
            visit_stmts(acc, body);
        },
        Statement::Break => {
            proof {
                assert(views_of(acc@) =~= views_of(old(acc)@).union(stmt_reads(*st)));
            }
        },
        Statement::Switch(sel, cases, default) => {
            visit_expr(acc, sel);
            visit_cases(acc, cases);
            visit_stmts(acc, default);
            proof {
                assert(views_of(acc@) =~= views_of(old(acc)@).union(stmt_reads(*st)));
            }
        },
        Statement::ForLoop(h, body) => {
            match &h.init {
                Some(ForLoopInit::VarDecl(_, Some(e))) => visit_expr(acc, e),
                _ => (),
            }
            match &h.condition {
                Some(c) => visit_expr(acc, c),
                None => (),
            }
            match &h.update {
                Some(ForLoopUpdate::Assignment(lhs, rhs)) => {
                    visit_assignment_lhs(acc, lhs);
                    visit_expr(acc, rhs);
                },
                None => (),
            }
            visit_stmts(acc, body);
            proof {
                assert(views_of(acc@) =~= views_of(old(acc)@).union(stmt_reads(*st)));
            }
        },
    }
}

/// Visit an `else` chain.
fn visit_else(acc: &mut Vec<String>, e: &Else)
    ensures
        views_of(final(acc)@) == views_of(old(acc)@).union(else_reads(*e)),
    decreases *e, 2int,
{
    match e {
        Else::ElseIf(c, body, next) => {
            visit_expr(acc, c);
            visit_stmts(acc, body);
            match next {
                Some(n) => visit_else(acc, n),
                None => (),
            }
            proof {
                assert(views_of(acc@) =~= views_of(old(acc)@).union(else_reads(*e)));
            }
        },
        Else::Else(body) => {
            visit_stmts(acc, body);
        },
    }
}

/// Visit the bodies of all switch cases; the literal selectors read nothing.
#[verifier::loop_isolation(false)]
fn visit_cases(acc: &mut Vec<String>, cases: &Vec<SwitchCase>)
    ensures
        views_of(final(acc)@) == views_of(old(acc)@).union(cases_reads(cases@)),
    decreases cases@, 1int,
{
    let mut i: usize = 0;
    while i < cases.len()
        invariant
            i <= cases@.len(),
            views_of(acc@) == views_of(old(acc)@).union(cases_reads(cases@.subrange(0, i as int))),
        decreases cases@.len() - i,
    {
        proof {
            assert(decreases_to!(cases@ => cases@[i as int]));
            assert(decreases_to!(cases@[i as int] => cases@[i as int].body));
        }
        visit_stmts(acc, &cases[i].body);
        proof {
            assert(cases@.subrange(0, i + 1).drop_last() =~= cases@.subrange(0, i as int));
            assert(cases@.subrange(0, i + 1).last() == cases@[i as int]);
            assert(views_of(acc@) =~= views_of(old(acc)@).union(
                cases_reads(cases@.subrange(0, i + 1)),
            ));
        }
        i = i + 1;
    }
    proof {
        assert(cases@.subrange(0, cases@.len() as int) =~= cases@);
    }
}

/// Visit an assignment target: the assigned identifier is not a read, index
/// expressions inside it are.
fn visit_assignment_lhs(acc: &mut Vec<String>, lhs: &AssignmentLhs)
    ensures
        views_of(final(acc)@) == views_of(old(acc)@).union(assignment_lhs_reads(*lhs)),
{
    match lhs {
        AssignmentLhs::Phony => {
            proof {
                assert(views_of(acc@) =~= views_of(old(acc)@).union(assignment_lhs_reads(*lhs)));
            }
        },
        AssignmentLhs::Expr(x) => {
            visit_lhs_expr(acc, x);
        },
    }
}

/// Visit a left-hand-side expression.
fn visit_lhs_expr(acc: &mut Vec<String>, x: &LhsExprNode)
    ensures
        views_of(final(acc)@) == views_of(old(acc)@).union(lhs_expr_reads(*x)),
    decreases *x,
{
    match &x.expr {
        LhsExpr::Ident(_) => {
            proof {
                assert(views_of(acc@) =~= views_of(old(acc)@).union(lhs_expr_reads(*x)));
            }
        },
        LhsExpr::Postfix(b, p) => {
            visit_lhs_expr(acc, b);
            visit_postfix(acc, p);
            proof {
                assert(views_of(acc@) =~= views_of(old(acc)@).union(lhs_expr_reads(*x)));
            }
        },
    }
}

/// Visit one expression, removing nothing and recording every `Var` read.
fn visit_expr(acc: &mut Vec<String>, e: &ExprNode)
    ensures
        views_of(final(acc)@) == views_of(old(acc)@).union(expr_reads(*e)),
    decreases *e, 1int,
{
    match &e.expr {
        Expr::Lit(_) => {
            proof {
                assert(views_of(acc@) =~= views_of(old(acc)@).union(expr_reads(*e)));
            }
        },
        Expr::TypeCons(_, args) => {
            visit_exprs(acc, args);
        },
        Expr::Var(name) => {
            push_read(acc, name);
            proof {
                assert(views_of(acc@) =~= views_of(old(acc)@).union(expr_reads(*e)));
            }
        },
        Expr::Postfix(b, p) => {
            visit_expr(acc, b);
            visit_postfix(acc, p);
            proof {
                assert(views_of(acc@) =~= views_of(old(acc)@).union(expr_reads(*e)));
            }
        },
        Expr::UnOp(_, a) => {
            visit_expr(acc, a);
        },
        Expr::BinOp(_, l, r) => {
            visit_expr(acc, l);
            visit_expr(acc, r);
            proof {
                assert(views_of(acc@) =~= views_of(old(acc)@).union(expr_reads(*e)));
            }
        },
        Expr::FnCall(_, args) => {
            visit_exprs(acc, args);
        },
    }
}

/// Visit every expression of a sequence.
#[verifier::loop_isolation(false)]
fn visit_exprs(acc: &mut Vec<String>, args: &Vec<ExprNode>)
    ensures
        views_of(final(acc)@) == views_of(old(acc)@).union(exprs_reads(args@)),
    decreases args@, 2int,
{
    let mut i: usize = 0;
    while i < args.len()
        invariant
            i <= args@.len(),
            views_of(acc@) == views_of(old(acc)@).union(exprs_reads(args@.subrange(0, i as int))),
        decreases args@.len() - i,
    {
        proof {
            assert(decreases_to!(args@ => args@[i as int]));
        }
        visit_expr(acc, &args[i]);
        proof {
            assert(args@.subrange(0, i + 1).drop_last() =~= args@.subrange(0, i as int));
            assert(args@.subrange(0, i + 1).last() == args@[i as int]);
            assert(views_of(acc@) =~= views_of(old(acc)@).union(
                exprs_reads(args@.subrange(0, i + 1)),
            ));
        }
        i = i + 1;
    }
    proof {
        assert(args@.subrange(0, args@.len() as int) =~= args@);
    }
}

/// Visit below a postfix accessor: only an index expression reads.
fn visit_postfix(acc: &mut Vec<String>, p: &Postfix)
    ensures
        views_of(final(acc)@) == views_of(old(acc)@).union(postfix_reads(*p)),
    decreases *p, 2int,
{
    match p {
        Postfix::ArrayIndex(i) => {
            visit_expr(acc, i);
        },
        Postfix::Member(_) => {
            proof {
                assert(views_of(acc@) =~= views_of(old(acc)@).union(postfix_reads(*p)));
            }
        },
    }
}

} // verus!
