//! Completeness of call-target extraction: a scan returns one target for
//! each call whose callee is a plain name or an attribute chain rooted at
//! one, and nothing else.
use vstd::prelude::*;
use crate::calls::{calls_comps, calls_cases, calls_dict_items, calls_expr, calls_exprs, calls_handlers, calls_opt, calls_stmt, calls_stmts, collapse};
use crate::syntax::{Comprehension, DictItem, ExceptHandler, Expr, MatchCase, Stmt};

verus! {

/// 1 for a call whose callee collapses to a dotted name, else 0.
pub open spec fn named_call(e: Expr) -> nat {
    match e {
        Expr::Call { func, .. } => if collapse(*func) is Some {
            1
        } else {
            0
        },
        _ => 0,
    }
}

pub open spec fn count_opt(o: Option<Box<Expr>>) -> nat
    decreases o,
{
    match o {
        Some(e) => count_expr(*e),
        None => 0,
    }
}

/// The number of named calls in an expression: the node itself, plus those
/// in each part that the scan visits.
pub open spec fn count_expr(e: Expr) -> nat
    decreases e,
{
    named_call(e) + match e {
        Expr::BoolOp { values } => count_exprs(values@),
        Expr::NamedExpr { target, value } => count_expr(*target) + count_expr(*value),
        Expr::BinOp { left, right } => count_expr(*left) + count_expr(*right),
        Expr::UnaryOp { operand } => count_expr(*operand),
        Expr::Lambda { body } => count_expr(*body),
        Expr::IfExp { test, body, orelse } =>
            count_expr(*body) + count_expr(*test) + count_expr(*orelse),
        Expr::Dict { items } => count_dict_items(items@),
        Expr::SetLiteral { elts } => count_exprs(elts@),
        Expr::ListComp { elt, generators } => count_expr(*elt) + count_comps(generators@),
        Expr::SetComp { elt, generators } => count_expr(*elt) + count_comps(generators@),
        Expr::DictComp { key, value, generators } =>
            count_expr(*key) + count_expr(*value) + count_comps(generators@),
        Expr::GeneratorExp { elt, generators } => count_expr(*elt) + count_comps(generators@),
        Expr::Await { value } => count_expr(*value),
        Expr::Yield { value } => count_opt(value),
        Expr::YieldFrom { value } => count_expr(*value),
        Expr::Compare { left, comparators } => count_expr(*left) + count_exprs(comparators@),
        Expr::Call { func, args, keywords } =>
            count_expr(*func) + count_exprs(args@) + count_exprs(keywords@),
        Expr::FormattedValue { value, format_spec } => count_expr(*value) + count_opt(format_spec),
        Expr::JoinedStr { values } => count_exprs(values@),
        Expr::Constant => 0,
        Expr::Attribute { value, .. } => count_expr(*value),
        Expr::Subscript { value, slice } => count_expr(*value) + count_expr(*slice),
        Expr::Starred { value } => count_expr(*value),
        Expr::Name { .. } => 0,
        Expr::List { elts } => count_exprs(elts@),
        Expr::Tuple { elts } => count_exprs(elts@),
        Expr::Slice { lower, upper, step } => count_opt(lower) + count_opt(upper) + count_opt(step),
    }
}

pub open spec fn count_exprs(s: Seq<Expr>) -> nat
    decreases s,
{
    if s.len() == 0 {
        0
    } else {
        count_exprs(s.subrange(0, s.len() - 1)) + count_expr(s[s.len() - 1])
    }
}

pub open spec fn count_dict_items(s: Seq<DictItem>) -> nat
    decreases s,
{
    if s.len() == 0 {
        0
    } else {
        let item = s[s.len() - 1];
        let key = match item.key {
            Some(k) => count_expr(k),
            None => 0,
        };
        count_dict_items(s.subrange(0, s.len() - 1)) + key + count_expr(item.value)
    }
}

pub open spec fn count_comps(s: Seq<Comprehension>) -> nat
    decreases s,
{
    if s.len() == 0 {
        0
    } else {
        let c = s[s.len() - 1];
        count_comps(s.subrange(0, s.len() - 1)) + count_expr(c.iter) + count_exprs(c.ifs@)
    }
}

/// The number of named calls in a statement and in the statements nested
/// in it, over the parts that the scan visits.
pub open spec fn count_stmt(st: Stmt) -> nat
    decreases st,
{
    match st {
        Stmt::FunctionDef { body, decorator_list, .. } =>
            count_exprs(decorator_list@) + count_stmts(body@),
        Stmt::AsyncFunctionDef { body, decorator_list, .. } =>
            count_exprs(decorator_list@) + count_stmts(body@),
        Stmt::ClassDef { body, decorator_list, .. } =>
            count_exprs(decorator_list@) + count_stmts(body@),
        Stmt::Return { value } => count_opt(value),
        Stmt::Delete { targets } => count_exprs(targets@),
        Stmt::Assign { targets, value } => count_exprs(targets@) + count_expr(*value),
        Stmt::TypeAlias { value } => count_expr(*value),
        Stmt::AugAssign { target, value } => count_expr(*target) + count_expr(*value),
        Stmt::AnnAssign { target, annotation, value } =>
            count_expr(*target) + count_expr(*annotation) + count_opt(value),
        Stmt::For { target, iter, body, orelse } =>
            count_expr(*target) + count_expr(*iter) + count_stmts(body@) + count_stmts(orelse@),
        Stmt::AsyncFor { target, iter, body, orelse } =>
            count_expr(*target) + count_expr(*iter) + count_stmts(body@) + count_stmts(orelse@),
        Stmt::While { test, body, orelse } =>
            count_expr(*test) + count_stmts(body@) + count_stmts(orelse@),
        Stmt::If { test, body, orelse } =>
            count_expr(*test) + count_stmts(body@) + count_stmts(orelse@),
        Stmt::With { items, body } => count_exprs(items@) + count_stmts(body@),
        Stmt::AsyncWith { items, body } => count_exprs(items@) + count_stmts(body@),
        Stmt::Match { subject, cases } => count_expr(*subject) + count_cases(cases@),
        Stmt::Raise { exc, cause } => count_opt(exc) + count_opt(cause),
        Stmt::Try { body, handlers, orelse, finalbody } =>
            count_stmts(body@) + count_handlers(handlers@) + count_stmts(orelse@)
                + count_stmts(finalbody@),
        Stmt::TryStar { body, handlers, orelse, finalbody } =>
            count_stmts(body@) + count_handlers(handlers@) + count_stmts(orelse@)
                + count_stmts(finalbody@),
        Stmt::Assert { test, msg } => count_expr(*test) + count_opt(msg),
        Stmt::Expr { value } => count_expr(*value),
        _ => 0,
    }
}

pub open spec fn count_stmts(s: Seq<Stmt>) -> nat
    decreases s,
{
    if s.len() == 0 {
        0
    } else {
        count_stmts(s.subrange(0, s.len() - 1)) + count_stmt(s[s.len() - 1])
    }
}

pub open spec fn count_cases(s: Seq<MatchCase>) -> nat
    decreases s,
{
    if s.len() == 0 {
        0
    } else {
        let c = s[s.len() - 1];
        let guard = match c.guard {
            Some(g) => count_expr(g),
            None => 0,
        };
        count_cases(s.subrange(0, s.len() - 1)) + guard + count_stmts(c.body@)
    }
}

pub open spec fn count_handlers(s: Seq<ExceptHandler>) -> nat
    decreases s,
{
    if s.len() == 0 {
        0
    } else {
        count_handlers(s.subrange(0, s.len() - 1)) + count_stmts(s[s.len() - 1].body@)
    }
}

/// A name or an attribute chain rooted at one holds no call.
proof fn lemma_chain_has_no_calls(e: Expr)
    requires
        collapse(e) is Some,
    ensures
        count_expr(e) == 0,
    decreases e,
{
    if let Expr::Attribute { value, .. } = e {
        lemma_chain_has_no_calls(*value);
    }
}

proof fn lemma_opt(o: Option<Box<Expr>>)
    ensures
        calls_opt(o).len() == count_opt(o),
    decreases o,
{
    if let Some(e) = o {
        lemma_expr(*e);
    }
}

proof fn lemma_expr(e: Expr)
    ensures
        calls_expr(e).len() == count_expr(e),
    decreases e,
{
    match e {
        Expr::BoolOp { values } => lemma_exprs(values@),
        Expr::NamedExpr { target, value } => {
            lemma_expr(*target);
            lemma_expr(*value);
        },
        Expr::BinOp { left, right } => {
            lemma_expr(*left);
            lemma_expr(*right);
        },
        Expr::UnaryOp { operand } => lemma_expr(*operand),
        Expr::Lambda { body } => lemma_expr(*body),
        Expr::IfExp { test, body, orelse } => {
            lemma_expr(*test);
            lemma_expr(*body);
            lemma_expr(*orelse);
        },
        Expr::Dict { items } => lemma_dict_items(items@),
        Expr::SetLiteral { elts } => lemma_exprs(elts@),
        Expr::ListComp { elt, generators } => {
            lemma_expr(*elt);
            lemma_comps(generators@);
        },
        Expr::SetComp { elt, generators } => {
            lemma_expr(*elt);
            lemma_comps(generators@);
        },
        Expr::DictComp { key, value, generators } => {
            lemma_expr(*key);
            lemma_expr(*value);
            lemma_comps(generators@);
        },
        Expr::GeneratorExp { elt, generators } => {
            lemma_expr(*elt);
            lemma_comps(generators@);
        },
        Expr::Await { value } => lemma_expr(*value),
        Expr::Yield { value } => lemma_opt(value),
        Expr::YieldFrom { value } => lemma_expr(*value),
        Expr::Compare { left, comparators } => {
            lemma_expr(*left);
            lemma_exprs(comparators@);
        },
        Expr::Call { func, args, keywords } => {
            lemma_expr(*func);
            if collapse(*func) is Some {
                lemma_chain_has_no_calls(*func);
            }
            lemma_exprs(args@);
            lemma_exprs(keywords@);
        },
        Expr::FormattedValue { value, format_spec } => {
            lemma_expr(*value);
            lemma_opt(format_spec);
        },
        Expr::JoinedStr { values } => lemma_exprs(values@),
        Expr::Attribute { value, .. } => lemma_expr(*value),
        Expr::Subscript { value, slice } => {
            lemma_expr(*value);
            lemma_expr(*slice);
        },
        Expr::Starred { value } => lemma_expr(*value),
        Expr::List { elts } => lemma_exprs(elts@),
        Expr::Tuple { elts } => lemma_exprs(elts@),
        Expr::Slice { lower, upper, step } => {
            lemma_opt(lower);
            lemma_opt(upper);
            lemma_opt(step);
        },
        _ => {},
    }
}

proof fn lemma_exprs(s: Seq<Expr>)
    ensures
        calls_exprs(s).len() == count_exprs(s),
    decreases s,
{
    if s.len() > 0 {
        lemma_exprs(s.subrange(0, s.len() - 1));
        lemma_expr(s[s.len() - 1]);
    }
}

proof fn lemma_dict_items(s: Seq<DictItem>)
    ensures
        calls_dict_items(s).len() == count_dict_items(s),
    decreases s,
{
    if s.len() > 0 {
        let item = s[s.len() - 1];
        lemma_dict_items(s.subrange(0, s.len() - 1));
        if let Some(k) = item.key {
            lemma_expr(k);
        }
        lemma_expr(item.value);
    }
}

proof fn lemma_comps(s: Seq<Comprehension>)
    ensures
        calls_comps(s).len() == count_comps(s),
    decreases s,
{
    if s.len() > 0 {
        let c = s[s.len() - 1];
        lemma_comps(s.subrange(0, s.len() - 1));
        lemma_expr(c.iter);
        lemma_exprs(c.ifs@);
    }
}

proof fn lemma_stmt(st: Stmt)
    ensures
        calls_stmt(st).len() == count_stmt(st),
    decreases st,
{
    match st {
        Stmt::FunctionDef { body, decorator_list, .. } => {
            lemma_exprs(decorator_list@);
            lemma_stmts(body@);
        },
        Stmt::AsyncFunctionDef { body, decorator_list, .. } => {
            lemma_exprs(decorator_list@);
            lemma_stmts(body@);
        },
        Stmt::ClassDef { body, decorator_list, .. } => {
            lemma_exprs(decorator_list@);
            lemma_stmts(body@);
        },
        Stmt::Return { value } => lemma_opt(value),
        Stmt::Delete { targets } => lemma_exprs(targets@),
        Stmt::Assign { targets, value } => {
            lemma_exprs(targets@);
            lemma_expr(*value);
        },
        Stmt::TypeAlias { value } => lemma_expr(*value),
        Stmt::AugAssign { target, value } => {
            lemma_expr(*target);
            lemma_expr(*value);
        },
        Stmt::AnnAssign { target, annotation, value } => {
            lemma_expr(*target);
            lemma_expr(*annotation);
            lemma_opt(value);
        },
        Stmt::For { target, iter, body, orelse } => {
            lemma_expr(*target);
            lemma_expr(*iter);
            lemma_stmts(body@);
            lemma_stmts(orelse@);
        },
        Stmt::AsyncFor { target, iter, body, orelse } => {
            lemma_expr(*target);
            lemma_expr(*iter);
            lemma_stmts(body@);
            lemma_stmts(orelse@);
        },
        Stmt::While { test, body, orelse } => {
            lemma_expr(*test);
            lemma_stmts(body@);
            lemma_stmts(orelse@);
        },
        Stmt::If { test, body, orelse } => {
            lemma_expr(*test);
            lemma_stmts(body@);
            lemma_stmts(orelse@);
        },
        Stmt::With { items, body } => {
            lemma_exprs(items@);
            lemma_stmts(body@);
        },
        Stmt::AsyncWith { items, body } => {
            lemma_exprs(items@);
            lemma_stmts(body@);
        },
        Stmt::Match { subject, cases } => {
            lemma_expr(*subject);
            lemma_cases(cases@);
        },
        Stmt::Raise { exc, cause } => {
            lemma_opt(exc);
            lemma_opt(cause);
        },
        Stmt::Try { body, handlers, orelse, finalbody } => {
            lemma_stmts(body@);
            lemma_handlers(handlers@);
            lemma_stmts(orelse@);
            lemma_stmts(finalbody@);
        },
        Stmt::TryStar { body, handlers, orelse, finalbody } => {
            lemma_stmts(body@);
            lemma_handlers(handlers@);
            lemma_stmts(orelse@);
            lemma_stmts(finalbody@);
        },
        Stmt::Assert { test, msg } => {
            lemma_expr(*test);
            lemma_opt(msg);
        },
        Stmt::Expr { value } => lemma_expr(*value),
        _ => {},
    }
}

proof fn lemma_stmts(s: Seq<Stmt>)
    ensures
        calls_stmts(s).len() == count_stmts(s),
    decreases s,
{
    if s.len() > 0 {
        lemma_stmts(s.subrange(0, s.len() - 1));
        lemma_stmt(s[s.len() - 1]);
    }
}

proof fn lemma_cases(s: Seq<MatchCase>)
    ensures
        calls_cases(s).len() == count_cases(s),
    decreases s,
{
    if s.len() > 0 {
        let c = s[s.len() - 1];
        lemma_cases(s.subrange(0, s.len() - 1));
        if let Some(g) = c.guard {
            lemma_expr(g);
        }
        lemma_stmts(c.body@);
    }
}

proof fn lemma_handlers(s: Seq<ExceptHandler>)
    ensures
        calls_handlers(s).len() == count_handlers(s),
    decreases s,
{
    if s.len() > 0 {
        lemma_handlers(s.subrange(0, s.len() - 1));
        lemma_stmts(s[s.len() - 1].body@);
    }
}

/// A function body with `N` visible calls whose callees are plain names or
/// attribute chains rooted at one yields exactly `N` call targets; the
/// targets come in source order by the definition of [`calls_stmts`].
pub proof fn lemma_extraction_complete(body: Seq<Stmt>)
    ensures
        calls_stmts(body).len() == count_stmts(body),
{
    lemma_stmts(body);
}

} // verus!
