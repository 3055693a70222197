//! Call-target extraction: every call in a syntax subtree whose callee is a
//! plain name or an attribute chain rooted at one, in source order.
use vstd::prelude::*;
use crate::syntax::{Comprehension, DictItem, ExceptHandler, Expr, MatchCase, Stmt};

verus! {

/// The character sequences that a vector of strings holds, in order.
pub open spec fn views(v: Seq<String>) -> Seq<Seq<char>> {
    v.map_values(|s: String| s@)
}

pub proof fn lemma_views_push(s: Seq<String>, x: String)
    ensures
        views(s.push(x)) == views(s).push(x@),
{
    assert(views(s.push(x)) =~= views(s).push(x@));
}

pub proof fn lemma_views_prefix(s: Seq<String>, i: int)
    requires
        0 <= i < s.len(),
    ensures
        views(s.subrange(0, i + 1)) == views(s.subrange(0, i)).push(s[i]@),
{
    assert(views(s.subrange(0, i + 1)) =~= views(s.subrange(0, i)).push(s[i]@));
}

/// The dotted name that an attribute chain rooted at a plain name collapses
/// to (`a.b.c`), or `None` where the chain is rooted at anything else.
pub open spec fn collapse(e: Expr) -> Option<Seq<char>>
    decreases e,
{
    match e {
        Expr::Name { id } => Some(id@),
        Expr::Attribute { value, attr } => match collapse(*value) {
            Some(p) => Some(p + seq!['.'] + attr@),
            None => None,
        },
        _ => None,
    }
}

/// The call targets of an optional expression.
pub open spec fn calls_opt(o: Option<Box<Expr>>) -> Seq<Seq<char>>
    decreases o,
{
    match o {
        Some(e) => calls_expr(*e),
        None => seq![],
    }
}

/// The call targets of an expression, in source order. A call whose callee
/// collapses to a dotted name yields that name; any other callee is scanned
/// itself. The arguments follow the callee.
pub open spec fn calls_expr(e: Expr) -> Seq<Seq<char>>
    decreases e,
{
    match e {
        Expr::BoolOp { values } => calls_exprs(values@),
        Expr::NamedExpr { target, value } => calls_expr(*target) + calls_expr(*value),
        Expr::BinOp { left, right } => calls_expr(*left) + calls_expr(*right),
        Expr::UnaryOp { operand } => calls_expr(*operand),
        Expr::Lambda { body } => calls_expr(*body),
        Expr::IfExp { test, body, orelse } =>
            calls_expr(*body) + calls_expr(*test) + calls_expr(*orelse),
        Expr::Dict { items } => calls_dict_items(items@),
        Expr::SetLiteral { elts } => calls_exprs(elts@),
        Expr::ListComp { elt, generators } => calls_expr(*elt) + calls_comps(generators@),
        Expr::SetComp { elt, generators } => calls_expr(*elt) + calls_comps(generators@),
        Expr::DictComp { key, value, generators } =>
            calls_expr(*key) + calls_expr(*value) + calls_comps(generators@),
        Expr::GeneratorExp { elt, generators } => calls_expr(*elt) + calls_comps(generators@),
        Expr::Await { value } => calls_expr(*value),
        Expr::Yield { value } => calls_opt(value),
        Expr::YieldFrom { value } => calls_expr(*value),
        Expr::Compare { left, comparators } => calls_expr(*left) + calls_exprs(comparators@),
        Expr::Call { func, args, keywords } => {
            let head = match collapse(*func) {
                Some(name) => seq![name],
                None => calls_expr(*func),
            };
            head + calls_exprs(args@) + calls_exprs(keywords@)
        },
        Expr::FormattedValue { value, format_spec } =>
            calls_expr(*value) + calls_opt(format_spec),
        Expr::JoinedStr { values } => calls_exprs(values@),
        Expr::Constant => seq![],
        Expr::Attribute { value, .. } => calls_expr(*value),
        Expr::Subscript { value, slice } => calls_expr(*value) + calls_expr(*slice),
        Expr::Starred { value } => calls_expr(*value),
        Expr::Name { .. } => seq![],
        Expr::List { elts } => calls_exprs(elts@),
        Expr::Tuple { elts } => calls_exprs(elts@),
        Expr::Slice { lower, upper, step } =>
            calls_opt(lower) + calls_opt(upper) + calls_opt(step),
    }
}

/// The call targets of a sequence of expressions, one after the other.
pub open spec fn calls_exprs(s: Seq<Expr>) -> Seq<Seq<char>>
    decreases s,
{
    if s.len() == 0 {
        seq![]
    } else {
        calls_exprs(s.subrange(0, s.len() - 1)) + calls_expr(s[s.len() - 1])
    }
}

/// The call targets of dict entries: each key, then its value.
pub open spec fn calls_dict_items(s: Seq<DictItem>) -> Seq<Seq<char>>
    decreases s,
{
    if s.len() == 0 {
        seq![]
    } else {
        let item = s[s.len() - 1];
        let key = match item.key {
            Some(k) => calls_expr(k),
            None => seq![],
        };
        calls_dict_items(s.subrange(0, s.len() - 1)) + key + calls_expr(item.value)
    }
}

/// The call targets of comprehension clauses: each source iterable, then
/// its filters.
pub open spec fn calls_comps(s: Seq<Comprehension>) -> Seq<Seq<char>>
    decreases s,
{
    if s.len() == 0 {
        seq![]
    } else {
        let c = s[s.len() - 1];
        calls_comps(s.subrange(0, s.len() - 1)) + calls_expr(c.iter) + calls_exprs(c.ifs@)
    }
}

/// The call targets of a statement, in source order.
pub open spec fn calls_stmt(st: Stmt) -> Seq<Seq<char>>
    decreases st,
{
    match st {
        Stmt::FunctionDef { body, decorator_list, .. } =>
            calls_exprs(decorator_list@) + calls_stmts(body@),
        Stmt::AsyncFunctionDef { body, decorator_list, .. } =>
            calls_exprs(decorator_list@) + calls_stmts(body@),
        Stmt::ClassDef { body, decorator_list, .. } =>
            calls_exprs(decorator_list@) + calls_stmts(body@),
        Stmt::Return { value } => calls_opt(value),
        Stmt::Delete { targets } => calls_exprs(targets@),
        Stmt::Assign { targets, value } => calls_exprs(targets@) + calls_expr(*value),
        Stmt::TypeAlias { value } => calls_expr(*value),
        Stmt::AugAssign { target, value } => calls_expr(*target) + calls_expr(*value),
        Stmt::AnnAssign { target, annotation, value } =>
            calls_expr(*target) + calls_expr(*annotation) + calls_opt(value),
        Stmt::For { target, iter, body, orelse } =>
            calls_expr(*target) + calls_expr(*iter) + calls_stmts(body@) + calls_stmts(orelse@),
        Stmt::AsyncFor { target, iter, body, orelse } =>
            calls_expr(*target) + calls_expr(*iter) + calls_stmts(body@) + calls_stmts(orelse@),
        Stmt::While { test, body, orelse } =>
            calls_expr(*test) + calls_stmts(body@) + calls_stmts(orelse@),
        Stmt::If { test, body, orelse } =>
            calls_expr(*test) + calls_stmts(body@) + calls_stmts(orelse@),
        Stmt::With { items, body } => calls_exprs(items@) + calls_stmts(body@),
        Stmt::AsyncWith { items, body } => calls_exprs(items@) + calls_stmts(body@),
        Stmt::Match { subject, cases } => calls_expr(*subject) + calls_cases(cases@),
        Stmt::Raise { exc, cause } => calls_opt(exc) + calls_opt(cause),
        Stmt::Try { body, handlers, orelse, finalbody } =>
            calls_stmts(body@) + calls_handlers(handlers@) + calls_stmts(orelse@)
                + calls_stmts(finalbody@),
        Stmt::TryStar { body, handlers, orelse, finalbody } =>
            calls_stmts(body@) + calls_handlers(handlers@) + calls_stmts(orelse@)
                + calls_stmts(finalbody@),
        Stmt::Assert { test, msg } => calls_expr(*test) + calls_opt(msg),
        Stmt::Import { .. } => seq![],
        Stmt::ImportFrom { .. } => seq![],
        Stmt::Global => seq![],
        Stmt::Nonlocal => seq![],
        Stmt::Expr { value } => calls_expr(*value),
        Stmt::Pass => seq![],
        Stmt::Break => seq![],
        Stmt::Continue => seq![],
    }
}

/// The call targets of a block of statements, one after the other.
pub open spec fn calls_stmts(s: Seq<Stmt>) -> Seq<Seq<char>>
    decreases s,
{
    if s.len() == 0 {
        seq![]
    } else {
        calls_stmts(s.subrange(0, s.len() - 1)) + calls_stmt(s[s.len() - 1])
    }
}

/// The call targets of `match` cases: each guard, then the case's body.
pub open spec fn calls_cases(s: Seq<MatchCase>) -> Seq<Seq<char>>
    decreases s,
{
    if s.len() == 0 {
        seq![]
    } else {
        let c = s[s.len() - 1];
        let guard = match c.guard {
            Some(g) => calls_expr(g),
            None => seq![],
        };
        calls_cases(s.subrange(0, s.len() - 1)) + guard + calls_stmts(c.body@)
    }
}

/// The call targets of `except` clauses: each handler's body.
pub open spec fn calls_handlers(s: Seq<ExceptHandler>) -> Seq<Seq<char>>
    decreases s,
{
    if s.len() == 0 {
        seq![]
    } else {
        calls_handlers(s.subrange(0, s.len() - 1)) + calls_stmts(s[s.len() - 1].body@)
    }
}

/// Collapses an attribute chain (or a plain name) to its dotted name.
pub fn convert_attribute_to_name(node: &Expr) -> (r: Option<String>)
    ensures
        match r {
            Some(s) => collapse(*node) == Some(s@),
            None => collapse(*node) is None,
        },
    decreases node,
{
    match node {
        Expr::Name { id } => Some(id.clone()),
        Expr::Attribute { value, attr } => match convert_attribute_to_name(value) {
            Some(mut prefix) => {
                let dot = ".";
                proof {
                    reveal_strlit(".");
                }
                prefix.append(dot);
                prefix.append(attr.as_str());
                Some(prefix)
            },
            None => None,
        },
        _ => None,
    }
}

/// The call targets of an expression, in source order.
pub fn find_calls_in_expr(node: &Expr) -> (r: Vec<String>)
    ensures
        views(r@) == calls_expr(*node),
{
    let mut out: Vec<String> = Vec::new();
    expr_calls_into(node, &mut out);
    proof {
        assert(views(out@) =~= calls_expr(*node));
    }
    out
}

/// The call targets of a statement (and of every statement nested in it),
/// in source order.
pub fn find_calls_in_stmt(node: &Stmt) -> (r: Vec<String>)
    ensures
        views(r@) == calls_stmt(*node),
{
    let mut out: Vec<String> = Vec::new();
    stmt_calls_into(node, &mut out);
    proof {
        assert(views(out@) =~= calls_stmt(*node));
    }
    out
}

/// The call targets of a block of statements, in source order.
pub fn find_calls_in_body(body: &Vec<Stmt>) -> (r: Vec<String>)
    ensures
        views(r@) == calls_stmts(body@),
{
    let mut out: Vec<String> = Vec::new();
    stmts_calls_into(body, &mut out);
    proof {
        assert(views(out@) =~= calls_stmts(body@));
    }
    out
}

fn push_target(out: &mut Vec<String>, name: String)
    ensures
        views(final(out)@) == views(old(out)@) + seq![name@],
{
    out.push(name);
    proof {
        assert(views(out@) =~= views(old(out)@) + seq![name@]);
    }
}

fn opt_calls_into(o: &Option<Box<Expr>>, out: &mut Vec<String>)
    ensures
        views(final(out)@) == views(old(out)@) + calls_opt(*o),
    decreases o,
{
    match o {
        Some(e) => expr_calls_into(e, out),
        None => {
            assert(views(out@) =~= views(old(out)@) + calls_opt(*o));
        },
    }
}

fn exprs_calls_into(v: &Vec<Expr>, out: &mut Vec<String>)
    ensures
        views(final(out)@) == views(old(out)@) + calls_exprs(v@),
    decreases v,
{
    let ghost start = views(out@);
    let mut i: usize = 0;
    proof {
        assert(start =~= start + calls_exprs(v@.subrange(0, 0)));
    }
    while i < v.len()
        invariant
            i <= v.len(),
            start == views(old(out)@),
            views(out@) == start + calls_exprs(v@.subrange(0, i as int)),
        decreases v.len() - i,
    {
        proof {
            assert(decreases_to!(v => v@[i as int]));
        }
        expr_calls_into(&v[i], out);
        proof {
            let s = v@.subrange(0, i + 1);
            assert(s.subrange(0, i as int) =~= v@.subrange(0, i as int));
            assert(views(out@) =~= start + calls_exprs(s));
        }
        i += 1;
    }
    proof {
        assert(v@.subrange(0, v@.len() as int) =~= v@);
    }
}

fn dict_items_calls_into(v: &Vec<DictItem>, out: &mut Vec<String>)
    ensures
        views(final(out)@) == views(old(out)@) + calls_dict_items(v@),
    decreases v,
{
    let ghost start = views(out@);
    let mut i: usize = 0;
    proof {
        assert(start =~= start + calls_dict_items(v@.subrange(0, 0)));
    }
    while i < v.len()
        invariant
            i <= v.len(),
            start == views(old(out)@),
            views(out@) == start + calls_dict_items(v@.subrange(0, i as int)),
        decreases v.len() - i,
    {
        let item = &v[i];
        proof {
            assert(decreases_to!(v => v@[i as int]));
        }
        match &item.key {
            Some(k) => expr_calls_into(k, out),
            None => {},
        }
        expr_calls_into(&item.value, out);
        proof {
            let s = v@.subrange(0, i + 1);
            assert(s.subrange(0, i as int) =~= v@.subrange(0, i as int));
            assert(views(out@) =~= start + calls_dict_items(s));
        }
        i += 1;
    }
    proof {
        assert(v@.subrange(0, v@.len() as int) =~= v@);
    }
}

fn comps_calls_into(v: &Vec<Comprehension>, out: &mut Vec<String>)
    ensures
        views(final(out)@) == views(old(out)@) + calls_comps(v@),
    decreases v,
{
    let ghost start = views(out@);
    let mut i: usize = 0;
    proof {
        assert(start =~= start + calls_comps(v@.subrange(0, 0)));
    }
    while i < v.len()
        invariant
            i <= v.len(),
            start == views(old(out)@),
            views(out@) == start + calls_comps(v@.subrange(0, i as int)),
        decreases v.len() - i,
    {
        let c = &v[i];
        proof {
            assert(decreases_to!(v => v@[i as int]));
        }
        expr_calls_into(&c.iter, out);
        exprs_calls_into(&c.ifs, out);
        proof {
            let s = v@.subrange(0, i + 1);
            assert(s.subrange(0, i as int) =~= v@.subrange(0, i as int));
            assert(views(out@) =~= start + calls_comps(s));
        }
        i += 1;
    }
    proof {
        assert(v@.subrange(0, v@.len() as int) =~= v@);
    }
}

fn expr_calls_into(node: &Expr, out: &mut Vec<String>)
    ensures
        views(final(out)@) == views(old(out)@) + calls_expr(*node),
    decreases node,
{
    let ghost start = views(out@);
    match node {
        Expr::BoolOp { values } => exprs_calls_into(values, out),
        Expr::NamedExpr { target, value } => {
            expr_calls_into(target, out);
            expr_calls_into(value, out);
        },
        Expr::BinOp { left, right } => {
            expr_calls_into(left, out);
            expr_calls_into(right, out);
        },
        Expr::UnaryOp { operand } => expr_calls_into(operand, out),
        Expr::Lambda { body } => expr_calls_into(body, out),
        Expr::IfExp { test, body, orelse } => {
            expr_calls_into(body, out);
            expr_calls_into(test, out);
            expr_calls_into(orelse, out);
        },
        Expr::Dict { items } => dict_items_calls_into(items, out),
        Expr::SetLiteral { elts } => exprs_calls_into(elts, out),
        Expr::ListComp { elt, generators } => {
            expr_calls_into(elt, out);
            comps_calls_into(generators, out);
        },
        Expr::SetComp { elt, generators } => {
            expr_calls_into(elt, out);
            comps_calls_into(generators, out);
        },
        Expr::DictComp { key, value, generators } => {
            expr_calls_into(key, out);
            expr_calls_into(value, out);
            comps_calls_into(generators, out);
        },
        Expr::GeneratorExp { elt, generators } => {
            expr_calls_into(elt, out);
            comps_calls_into(generators, out);
        },
        Expr::Await { value } => expr_calls_into(value, out),
        Expr::Yield { value } => opt_calls_into(value, out),
        Expr::YieldFrom { value } => expr_calls_into(value, out),
        Expr::Compare { left, comparators } => {
            expr_calls_into(left, out);
            exprs_calls_into(comparators, out);
        },
        Expr::Call { func, args, keywords } => {
            match convert_attribute_to_name(func) {
                Some(name) => push_target(out, name),
                None => expr_calls_into(func, out),
            }
            exprs_calls_into(args, out);
            exprs_calls_into(keywords, out);
        },
        Expr::FormattedValue { value, format_spec } => {
            expr_calls_into(value, out);
            opt_calls_into(format_spec, out);
        },
        Expr::JoinedStr { values } => exprs_calls_into(values, out),
        Expr::Constant => {},
        Expr::Attribute { value, .. } => expr_calls_into(value, out),
        Expr::Subscript { value, slice } => {
            expr_calls_into(value, out);
            expr_calls_into(slice, out);
        },
        Expr::Starred { value } => expr_calls_into(value, out),
        Expr::Name { .. } => {},
        Expr::List { elts } => exprs_calls_into(elts, out),
        Expr::Tuple { elts } => exprs_calls_into(elts, out),
        Expr::Slice { lower, upper, step } => {
            opt_calls_into(lower, out);
            opt_calls_into(upper, out);
            opt_calls_into(step, out);
        },
    }
    proof {
        assert(views(out@) =~= start + calls_expr(*node));
    }
}

fn stmts_calls_into(v: &Vec<Stmt>, out: &mut Vec<String>)
    ensures
        views(final(out)@) == views(old(out)@) + calls_stmts(v@),
    decreases v,
{
    let ghost start = views(out@);
    let mut i: usize = 0;
    proof {
        assert(start =~= start + calls_stmts(v@.subrange(0, 0)));
    }
    while i < v.len()
        invariant
            i <= v.len(),
            start == views(old(out)@),
            views(out@) == start + calls_stmts(v@.subrange(0, i as int)),
        decreases v.len() - i,
    {
        proof {
            assert(decreases_to!(v => v@[i as int]));
        }
        stmt_calls_into(&v[i], out);
        proof {
            let s = v@.subrange(0, i + 1);
            assert(s.subrange(0, i as int) =~= v@.subrange(0, i as int));
            assert(views(out@) =~= start + calls_stmts(s));
        }
        i += 1;
    }
    proof {
        assert(v@.subrange(0, v@.len() as int) =~= v@);
    }
}

fn cases_calls_into(v: &Vec<MatchCase>, out: &mut Vec<String>)
    ensures
        views(final(out)@) == views(old(out)@) + calls_cases(v@),
    decreases v,
{
    let ghost start = views(out@);
    let mut i: usize = 0;
    proof {
        assert(start =~= start + calls_cases(v@.subrange(0, 0)));
    }
    while i < v.len()
        invariant
            i <= v.len(),
            start == views(old(out)@),
            views(out@) == start + calls_cases(v@.subrange(0, i as int)),
        decreases v.len() - i,
    {
        let c = &v[i];
        proof {
            assert(decreases_to!(v => v@[i as int]));
        }
        match &c.guard {
            Some(g) => expr_calls_into(g, out),
            None => {},
        }
        stmts_calls_into(&c.body, out);
        proof {
            let s = v@.subrange(0, i + 1);
            assert(s.subrange(0, i as int) =~= v@.subrange(0, i as int));
            assert(views(out@) =~= start + calls_cases(s));
        }
        i += 1;
    }
    proof {
        assert(v@.subrange(0, v@.len() as int) =~= v@);
    }
}

fn handlers_calls_into(v: &Vec<ExceptHandler>, out: &mut Vec<String>)
    ensures
        views(final(out)@) == views(old(out)@) + calls_handlers(v@),
    decreases v,
{
    let ghost start = views(out@);
    let mut i: usize = 0;
    proof {
        assert(start =~= start + calls_handlers(v@.subrange(0, 0)));
    }
    while i < v.len()
        invariant
            i <= v.len(),
            start == views(old(out)@),
            views(out@) == start + calls_handlers(v@.subrange(0, i as int)),
        decreases v.len() - i,
    {
        proof {
            assert(decreases_to!(v => v@[i as int]));
        }
        stmts_calls_into(&v[i].body, out);
        proof {
            let s = v@.subrange(0, i + 1);
            assert(s.subrange(0, i as int) =~= v@.subrange(0, i as int));
            assert(views(out@) =~= start + calls_handlers(s));
        }
        i += 1;
    }
    proof {
        assert(v@.subrange(0, v@.len() as int) =~= v@);
    }
}

fn stmt_calls_into(node: &Stmt, out: &mut Vec<String>)
    ensures
        views(final(out)@) == views(old(out)@) + calls_stmt(*node),
    decreases node,
{
    let ghost start = views(out@);
    match node {
        Stmt::FunctionDef { body, decorator_list, .. } => {
            exprs_calls_into(decorator_list, out);
            stmts_calls_into(body, out);
        },
        Stmt::AsyncFunctionDef { body, decorator_list, .. } => {
            exprs_calls_into(decorator_list, out);
            stmts_calls_into(body, out);
        },
        Stmt::ClassDef { body, decorator_list, .. } => {
            exprs_calls_into(decorator_list, out);
            stmts_calls_into(body, out);
        },
        Stmt::Return { value } => opt_calls_into(value, out),
        Stmt::Delete { targets } => exprs_calls_into(targets, out),
        Stmt::Assign { targets, value } => {
            exprs_calls_into(targets, out);
            expr_calls_into(value, out);
        },
        Stmt::TypeAlias { value } => expr_calls_into(value, out),
        Stmt::AugAssign { target, value } => {
            expr_calls_into(target, out);
            expr_calls_into(value, out);
        },
        Stmt::AnnAssign { target, annotation, value } => {
            expr_calls_into(target, out);
            expr_calls_into(annotation, out);
            opt_calls_into(value, out);
        },
        Stmt::For { target, iter, body, orelse } => {
            expr_calls_into(target, out);
            expr_calls_into(iter, out);
            stmts_calls_into(body, out);
            stmts_calls_into(orelse, out);
        },
        Stmt::AsyncFor { target, iter, body, orelse } => {
            expr_calls_into(target, out);
            expr_calls_into(iter, out);
            stmts_calls_into(body, out);
            stmts_calls_into(orelse, out);
        },
        Stmt::While { test, body, orelse } => {
            expr_calls_into(test, out);
            stmts_calls_into(body, out);
            stmts_calls_into(orelse, out);
        },
        Stmt::If { test, body, orelse } => {
            expr_calls_into(test, out);
            stmts_calls_into(body, out);
            stmts_calls_into(orelse, out);
        },
        Stmt::With { items, body } => {
            exprs_calls_into(items, out);
            stmts_calls_into(body, out);
        },
        Stmt::AsyncWith { items, body } => {
            exprs_calls_into(items, out);
            stmts_calls_into(body, out);
        },
        Stmt::Match { subject, cases } => {
            expr_calls_into(subject, out);
            cases_calls_into(cases, out);
        },
        Stmt::Raise { exc, cause } => {
            opt_calls_into(exc, out);
            opt_calls_into(cause, out);
        },
        Stmt::Try { body, handlers, orelse, finalbody } => {
            stmts_calls_into(body, out);
            handlers_calls_into(handlers, out);
            stmts_calls_into(orelse, out);
            stmts_calls_into(finalbody, out);
        },
        Stmt::TryStar { body, handlers, orelse, finalbody } => {
            stmts_calls_into(body, out);
            handlers_calls_into(handlers, out);
            stmts_calls_into(orelse, out);
            stmts_calls_into(finalbody, out);
        },
        Stmt::Assert { test, msg } => {
            expr_calls_into(test, out);
            opt_calls_into(msg, out);
        },
        Stmt::Import { .. } => {},
        Stmt::ImportFrom { .. } => {},
        Stmt::Global => {},
        Stmt::Nonlocal => {},
        Stmt::Expr { value } => expr_calls_into(value, out),
        Stmt::Pass => {},
        Stmt::Break => {},
        Stmt::Continue => {},
    }
    proof {
        assert(views(out@) =~= start + calls_stmt(*node));
    }
}

/// Extracting the call targets of one body twice gives the same targets in
/// the same order: the result depends on the syntax tree alone.
pub proof fn lemma_extraction_idempotent(body: Seq<Stmt>, first: Seq<String>, second: Seq<String>)
    requires
        views(first) == calls_stmts(body),
        views(second) == calls_stmts(body),
    ensures
        views(first) == views(second),
        views(first).len() == views(second).len(),
        forall|i: int| 0 <= i < views(first).len() ==> views(first)[i] == views(second)[i],
{
}

/// A call without arguments whose callee is an attribute chain rooted at a
/// plain name (`a.b.c()`) yields exactly one target: the whole dotted chain.
pub proof fn lemma_attribute_chain_is_one_target(call: Expr)
    requires
        call matches Expr::Call { func, args, keywords } && args@.len() == 0 && keywords@.len() == 0
            && (*func is Attribute) && collapse(*func) is Some,
    ensures
        calls_expr(call) == seq![collapse(*call->func).unwrap()],
{
    if let Expr::Call { func, args, keywords } = call {
        assert(calls_exprs(args@) == Seq::<Seq<char>>::empty());
        assert(calls_exprs(keywords@) == Seq::<Seq<char>>::empty());
        assert(calls_expr(call) =~= seq![collapse(*func).unwrap()]);
    }
}

} // verus!
