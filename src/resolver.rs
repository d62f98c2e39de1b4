use vstd::prelude::*;
use crate::ast::{Expr, ResolvedStep, ResolvedStmt, Step, Stmt};
use crate::context::{Context, ContextView};
use crate::declarations::Declaration;
use crate::error::{is_version_error, Error, ErrorKind};
use crate::scope::lookup;

verus! {

/// Whether an expression's names are known: a parameter of the enclosing
/// definition or a name bound in the context.
pub open spec fn expr_resolves(e: Expr, params: Seq<String>, c: ContextView) -> bool {
    match e {
        Expr::Ident(n) => (exists|i: int| 0 <= i < params.len() && params[i]@ == n@) || lookup(
            c.bindings,
            n@,
        ) is Some,
        _ => true,
    }
}

/// No two parameters share a name.
pub open spec fn params_distinct(ps: Seq<String>) -> bool {
    forall|i: int, j: int| 0 <= i < j < ps.len() ==> ps[i]@ != ps[j]@
}

/// The declaration a pipeline step calls, or why it cannot be called.
pub open spec fn step_target(s: Step, c: ContextView) -> Result<usize, ErrorKind> {
    match lookup(c.bindings, s.name@) {
        None => Err(ErrorKind::UndefinedName),
        Some(id) => if id >= c.decls.len() {
            Err(ErrorKind::DeclarationNotFound)
        } else {
            match c.decls[id as int] {
                Declaration::Function { params, .. } => if params@.len() == s.args@.len() {
                    Ok(id)
                } else {
                    Err(ErrorKind::ArityMismatch)
                },
                Declaration::Transform { .. } => Ok(id),
                _ => Err(ErrorKind::UnknownTransform),
            }
        },
    }
}

/// The ids that the steps' names look up to in `c`.
pub open spec fn step_ids(steps: Seq<Step>, c: ContextView) -> Seq<usize> {
    steps.map_values(|s: Step| lookup(c.bindings, s.name@).unwrap())
}

/// The steps of all resolved pipelines, in order.
pub open spec fn all_steps(stmts: Seq<ResolvedStmt>) -> Seq<ResolvedStep>
    decreases stmts.len(),
{
    if stmts.len() == 0 {
        Seq::empty()
    } else {
        all_steps(stmts.drop_last()) + match stmts.last() {
            ResolvedStmt::Pipeline(rs) => rs@,
            _ => Seq::empty(),
        }
    }
}

/// The declaration ids that each pipeline step's name resolves to, in the
/// context reached just before its statement.
pub open spec fn resolved_ids(stmts: Seq<Stmt>, c: ContextView) -> Seq<usize>
    decreases stmts.len(),
{
    if stmts.len() == 0 {
        Seq::empty()
    } else {
        resolved_ids(stmts.drop_last(), c) + match (resolution(stmts.drop_last(), c), stmts.last()) {
            (Ok(c2), Stmt::Pipeline(ss)) => step_ids(ss@, c2),
            _ => Seq::empty(),
        }
    }
}

/// The declaration ids of resolved steps.
pub open spec fn decl_ids(rs: Seq<ResolvedStep>) -> Seq<usize> {
    rs.map_values(|r: ResolvedStep| r.decl)
}

/// The first error among the steps of a pipeline, if any.
pub open spec fn pipeline_error(steps: Seq<Step>, c: ContextView) -> Option<ErrorKind>
    decreases steps.len(),
{
    if steps.len() == 0 {
        None
    } else {
        match pipeline_error(steps.drop_last(), c) {
            Some(e) => Some(e),
            None => match step_target(steps.last(), c) {
                Err(e) => Some(e),
                Ok(_) => None,
            },
        }
    }
}

/// The context after one statement, or the error it raises.
pub open spec fn stmt_effect(s: Stmt, c: ContextView) -> Result<ContextView, ErrorKind> {
    match s {
        Stmt::FuncDef { name, params, body } => if !params_distinct(params@) {
            Err(ErrorKind::DuplicateDeclaration)
        } else if expr_resolves(body, params@, c) {
            Ok(c.declare(name, Declaration::Function { name, params, body }))
        } else {
            Err(ErrorKind::UndefinedName)
        },
        Stmt::VarDef { name, value } => if expr_resolves(value, Seq::empty(), c) {
            Ok(c.declare(name, Declaration::Variable { name, value }))
        } else {
            Err(ErrorKind::UndefinedName)
        },
        Stmt::TableDef { name, columns } => if params_distinct(columns@) {
            Ok(c.declare(name, Declaration::Table { name, columns }))
        } else {
            Err(ErrorKind::DuplicateDeclaration)
        },
        Stmt::QueryDef { .. } => Ok(c),
        Stmt::Pipeline(steps) => match pipeline_error(steps@, c) {
            Some(e) => Err(e),
            None => Ok(c),
        },
    }
}

/// The context after resolving all statements in order, or the first error.
pub open spec fn resolution(stmts: Seq<Stmt>, c: ContextView) -> Result<ContextView, ErrorKind>
    decreases stmts.len(),
{
    if stmts.len() == 0 {
        Ok(c)
    } else {
        match resolution(stmts.drop_last(), c) {
            Err(e) => Err(e),
            Ok(c2) => stmt_effect(stmts.last(), c2),
        }
    }
}

/// The declaration a definition registers.
pub open spec fn stmt_declaration(s: Stmt) -> Option<Declaration> {
    match s {
        Stmt::FuncDef { name, params, body } => Some(Declaration::Function { name, params, body }),
        Stmt::VarDef { name, value } => Some(Declaration::Variable { name, value }),
        Stmt::TableDef { name, columns } => Some(Declaration::Table { name, columns }),
        _ => None,
    }
}

/// The declarations that the statements' definitions register, in order.
pub open spec fn declared(stmts: Seq<Stmt>) -> Seq<Declaration>
    decreases stmts.len(),
{
    if stmts.len() == 0 {
        Seq::empty()
    } else {
        match stmt_declaration(stmts.last()) {
            Some(d) => declared(stmts.drop_last()).push(d),
            None => declared(stmts.drop_last()),
        }
    }
}

/// The statements that survive resolution: all but the definitions, in order.
pub open spec fn surviving(stmts: Seq<Stmt>) -> Seq<Stmt>
    decreases stmts.len(),
{
    if stmts.len() == 0 {
        Seq::empty()
    } else if stmts.last().is_definition() {
        surviving(stmts.drop_last())
    } else {
        surviving(stmts.drop_last()).push(stmts.last())
    }
}

/// A resolved statement is the given statement with each step bound to a
/// callable declaration of `c`.
pub open spec fn resolved_from(r: ResolvedStmt, s: Stmt, c: ContextView) -> bool {
    match r {
        ResolvedStmt::QueryDef { version, dialect } => s is QueryDef && s->version == version
            && s->dialect == dialect,
        ResolvedStmt::Pipeline(rs) => s is Pipeline && steps_bound(rs@, s->Pipeline_0@, c),
    }
}

/// Each resolved step is the given step, bound to a callable declaration of `c`.
pub open spec fn steps_bound(rs: Seq<ResolvedStep>, ss: Seq<Step>, c: ContextView) -> bool {
    rs.len() == ss.len() && forall|i: int|
        #![trigger rs[i]]
        0 <= i < rs.len() ==> rs[i].step == ss[i] && rs[i].decl < c.decls.len() && (
        c.decls[rs[i].decl as int] is Function || c.decls[rs[i].decl as int] is Transform)
}

proof fn lemma_resolution_extends(stmts: Seq<Stmt>, c: ContextView)
    requires
        resolution(stmts, c) is Ok,
    ensures
        resolution(stmts, c).unwrap().extends(c),
        resolution(stmts, c).unwrap().decls == c.decls + declared(stmts),
        resolution(stmts, c).unwrap().depth == c.depth,
    decreases stmts.len(),
{
    if stmts.len() > 0 {
        lemma_resolution_extends(stmts.drop_last(), c);
        let c2 = resolution(stmts.drop_last(), c).unwrap();
        let c3 = resolution(stmts, c).unwrap();
        assert(c3 == stmt_effect(stmts.last(), c2).unwrap());
        assert(c3.decls =~= c.decls + declared(stmts));
        assert(c3.decls.subrange(0, c2.decls.len() as int) =~= c2.decls);
        assert(c3.bindings.subrange(0, c2.bindings.len() as int) =~= c2.bindings);
        assert(c3.decls.subrange(0, c.decls.len() as int) =~= c.decls);
        assert(c3.bindings.subrange(0, c.bindings.len() as int) =~= c.bindings);
    } else {
        assert(c.decls.subrange(0, c.decls.len() as int) =~= c.decls);
        assert(c.bindings.subrange(0, c.bindings.len() as int) =~= c.bindings);
        assert(c.decls + declared(stmts) =~= c.decls);
    }
}

/// Compilations that start from the same base are independent: each one's
/// context holds the base's declarations followed by its own definitions
/// and nothing else, so no query sees what another declared, and the base
/// itself is only read.
pub proof fn lemma_independent_compilations(first: Seq<Stmt>, second: Seq<Stmt>, base: ContextView)
    requires
        resolution(first, base) is Ok,
        resolution(second, base) is Ok,
    ensures
        resolution(first, base).unwrap().decls == base.decls + declared(first),
        resolution(second, base).unwrap().decls == base.decls + declared(second),
        resolution(first, base).unwrap().extends(base),
        resolution(second, base).unwrap().extends(base),
{
    lemma_resolution_extends(first, base);
    lemma_resolution_extends(second, base);
}

fn distinct_names(ps: &Vec<String>) -> (r: bool)
    ensures
        r == params_distinct(ps@),
{
    let mut j: usize = 0;
    while j < ps.len()
        invariant
            j <= ps@.len(),
            forall|a: int, b: int| 0 <= a < b < j ==> ps@[a]@ != ps@[b]@,
        decreases ps@.len() - j,
    {
        let mut i: usize = 0;
        while i < j
            invariant
                i <= j < ps@.len(),
                forall|a: int, b: int| 0 <= a < b < j ==> ps@[a]@ != ps@[b]@,
                forall|a: int| 0 <= a < i ==> ps@[a]@ != ps@[j as int]@,
            decreases j - i,
        {
            if ps[i] == ps[j] {
                return false;
            }
            i = i + 1;
        }
        j = j + 1;
    }
    true
}

#[verifier::loop_isolation(false)]
fn expr_known(e: &Expr, params: &Vec<String>, ctx: &Context) -> (r: bool)
    ensures
        r == expr_resolves(*e, params@, ctx@),
{
    match e {
        Expr::Ident(n) => {
            let mut i: usize = 0;
            while i < params.len()
                invariant
                    i <= params@.len(),
                    forall|j: int| 0 <= j < i ==> params@[j]@ != n@,
                decreases params@.len() - i,
            {
                if params[i] == *n {
                    assert(params@[i as int]@ == n@);
                    assert(exists|j: int| 0 <= j < params@.len() && params@[j]@ == n@);
                    return true;
                }
                i = i + 1;
            }
            ctx.scope.resolve(n).is_some()
        },
        _ => true,
    }
}

fn resolve_step(s: &Step, ctx: &Context) -> (r: Result<usize, Error>)
    ensures
        match step_target(*s, ctx@) {
            Ok(id) => r == Ok::<usize, Error>(id),
            Err(e) => r matches Err(x) && x.kind == e,
        },
{
    match ctx.scope.resolve(&s.name) {
        None => Err(Error::new(ErrorKind::UndefinedName)),
        Some(id) => match ctx.declarations.get(id) {
            Err(e) => Err(e),
            Ok(d) => match d {
                Declaration::Function { params, .. } => if params.len() == s.args.len() {
                    Ok(id)
                } else {
                    Err(Error::new(ErrorKind::ArityMismatch))
                },
                Declaration::Transform { .. } => Ok(id),
                _ => Err(Error::new(ErrorKind::UnknownTransform)),
            },
        },
    }
}

#[verifier::loop_isolation(false)]
fn resolve_pipeline(steps: Vec<Step>, ctx: &Context) -> (r: Result<Vec<ResolvedStep>, Error>)
    ensures
        match pipeline_error(steps@, ctx@) {
            Some(e) => r matches Err(x) && x.kind == e,
            None => r matches Ok(rs) && steps_bound(rs@, steps@, ctx@) && decl_ids(rs@) == step_ids(
                steps@,
                ctx@,
            ),
        },
{
    let ghost orig = steps@;
    let mut steps = steps;
    let mut out: Vec<ResolvedStep> = Vec::new();
    let mut i: usize = 0;
    let n = steps.len();
    while steps.len() > 0
        invariant
            n == orig.len(),
            steps@ == orig.subrange(i as int, orig.len() as int),
            i <= orig.len(),
            out@.len() == i,
            pipeline_error(orig.subrange(0, i as int), ctx@) is None,
            forall|j: int|
                0 <= j < i ==> out@[j].step == orig[j] && step_target(orig[j], ctx@) == Ok::<
                    usize,
                    ErrorKind,
                >(out@[j].decl),
        decreases steps@.len(),
    {
        let s = steps.remove(0);
        proof {
            assert(orig.subrange(0, i + 1).drop_last() == orig.subrange(0, i as int));
            assert(orig.subrange(0, i + 1).last() == orig[i as int]);
        }
        let decl = match resolve_step(&s, ctx) {
            Ok(id) => id,
            Err(e) => {
                proof {
                    assert(pipeline_error(orig.subrange(0, i + 1), ctx@) == Some(e.kind));
                    lemma_first_error_stays(orig, i as int + 1, ctx@);
                }
                return Err(e);
            },
        };
        out.push(ResolvedStep { decl, step: s });
        proof {
            assert(pipeline_error(orig.subrange(0, i + 1), ctx@) is None);
        }
        i = i + 1;
    }
    proof {
        assert(orig.subrange(0, i as int) == orig);
        assert forall|j: int| 0 <= j < out@.len() implies out@[j].step == orig[j] && out@[j].decl < ctx@.decls.len() && (
        ctx@.decls[out@[j].decl as int] is Function || ctx@.decls[out@[j].decl as int] is Transform) by {
            assert(step_target(orig[j], ctx@) == Ok::<usize, ErrorKind>(out@[j].decl));
        }
        assert(steps_bound(out@, orig, ctx@));
        assert(decl_ids(out@) =~= step_ids(orig, ctx@));
        assert(pipeline_error(orig, ctx@) is None);
    }
    Ok(out)
}

/// Once a prefix of a pipeline has an error, every longer prefix has the same one.
proof fn lemma_first_error_stays(steps: Seq<Step>, k: int, c: ContextView)
    requires
        0 <= k <= steps.len(),
        pipeline_error(steps.subrange(0, k), c) is Some,
    ensures
        pipeline_error(steps, c) == pipeline_error(steps.subrange(0, k), c),
    decreases steps.len() - k,
{
    if k < steps.len() {
        assert(steps.subrange(0, k + 1).drop_last() == steps.subrange(0, k));
        lemma_first_error_stays(steps, k + 1, c);
    } else {
        assert(steps.subrange(0, k) == steps);
    }
}

proof fn lemma_pipeline_error_kind(steps: Seq<Step>, c: ContextView)
    ensures
        pipeline_error(steps, c) matches Some(e) ==> !is_version_error(e),
    decreases steps.len(),
{
    if steps.len() > 0 {
        lemma_pipeline_error_kind(steps.drop_last(), c);
    }
}

/// Resolution never fails on account of a version requirement.
pub proof fn lemma_resolution_error_kind(stmts: Seq<Stmt>, c: ContextView)
    ensures
        resolution(stmts, c) matches Err(e) ==> !is_version_error(e),
    decreases stmts.len(),
{
    if stmts.len() > 0 {
        lemma_resolution_error_kind(stmts.drop_last(), c);
        if let Ok(c2) = resolution(stmts.drop_last(), c) {
            if let Stmt::Pipeline(ss) = stmts.last() {
                lemma_pipeline_error_kind(ss@, c2);
            }
        }
    }
}

/// Once a prefix of the statements fails, the whole sequence fails the same way.
proof fn lemma_resolution_error_stays(stmts: Seq<Stmt>, k: int, c: ContextView)
    requires
        0 <= k <= stmts.len(),
        resolution(stmts.subrange(0, k), c) is Err,
    ensures
        resolution(stmts, c) == resolution(stmts.subrange(0, k), c),
    decreases stmts.len() - k,
{
    if k < stmts.len() {
        assert(stmts.subrange(0, k + 1).drop_last() == stmts.subrange(0, k));
        lemma_resolution_error_stays(stmts, k + 1, c);
    } else {
        assert(stmts.subrange(0, k) == stmts);
    }
}

proof fn lemma_resolved_from_grows(r: ResolvedStmt, s: Stmt, c: ContextView, c2: ContextView)
    requires
        resolved_from(r, s, c),
        c2.extends(c),
    ensures
        resolved_from(r, s, c2),
{
    if r is Pipeline {
        let rs = r->Pipeline_0@;
        let ss = s->Pipeline_0@;
        assert forall|i: int| 0 <= i < rs.len() implies rs[i].decl < c2.decls.len() && (
        c2.decls[rs[i].decl as int] is Function || c2.decls[rs[i].decl as int] is Transform) by {
            assert(rs[i].step == ss[i]);
            assert(c2.decls.subrange(0, c.decls.len() as int)[rs[i].decl as int]
                == c2.decls[rs[i].decl as int]);
        }
    }
}

/// Binds every name of the statements, registers their definitions in the
/// context, and returns the statements that remain once definitions are
/// removed, together with the grown context.
#[verifier::loop_isolation(false)]
pub fn resolve(stmts: Vec<Stmt>, context: Context) -> (r: Result<(Vec<ResolvedStmt>, Context), Error>)
    requires
        context@.decls.len() + stmts@.len() < usize::MAX,
    ensures
        match resolution(stmts@, context@) {
            Err(e) => r matches Err(x) && x.kind == e,
            Ok(c) => r matches Ok((out, c2)) && c2@ == c && out@.len() == surviving(stmts@).len()
                && decl_ids(all_steps(out@)) == resolved_ids(stmts@, context@) && forall|j: int|
                0 <= j < out@.len() ==> resolved_from(out@[j], surviving(stmts@)[j], c),
        },
{
    let ghost orig = stmts@;
    let ghost c0 = context@;
    let mut stmts = stmts;
    let mut ctx = context;
    let mut out: Vec<ResolvedStmt> = Vec::new();
    let mut i: usize = 0;
    let n = stmts.len();
    while stmts.len() > 0
        invariant
            n == orig.len(),
            stmts@ == orig.subrange(i as int, orig.len() as int),
            i <= orig.len(),
            resolution(orig.subrange(0, i as int), c0) == Ok::<ContextView, ErrorKind>(ctx@),
            ctx@.decls.len() <= c0.decls.len() + i,
            decl_ids(all_steps(out@)) == resolved_ids(orig.subrange(0, i as int), c0),
            out@.len() == surviving(orig.subrange(0, i as int)).len(),
            forall|j: int|
                0 <= j < out@.len() ==> resolved_from(
                    out@[j],
                    surviving(orig.subrange(0, i as int))[j],
                    ctx@,
                ),
        decreases stmts@.len(),
    {
        let ghost before = ctx@;
        let ghost old_out = out@;
        let ghost pre = orig.subrange(0, i as int);
        let ghost cur = orig.subrange(0, i + 1);
        let s = stmts.remove(0);
        proof {
            assert(cur.drop_last() == pre);
            assert(cur.last() == orig[i as int]);
            assert(s == orig[i as int]);
        }
        match s {
            Stmt::FuncDef { name, params, body } => {
                if !distinct_names(&params) {
                    proof {
                        lemma_resolution_error_stays(orig, i + 1, c0);
                    }
                    return Err(Error::new(ErrorKind::DuplicateDeclaration));
                }
                if !expr_known(&body, &params, &ctx) {
                    proof {
                        lemma_resolution_error_stays(orig, i + 1, c0);
                    }
                    return Err(Error::new(ErrorKind::UndefinedName));
                }
                let d = Declaration::Function { name: name.clone(), params, body };
                ctx.declare(name, d);
            },
            Stmt::VarDef { name, value } => {
                let none: Vec<String> = Vec::new();
                if !expr_known(&value, &none, &ctx) {
                    proof {
                        lemma_resolution_error_stays(orig, i + 1, c0);
                    }
                    return Err(Error::new(ErrorKind::UndefinedName));
                }
                let d = Declaration::Variable { name: name.clone(), value };
                ctx.declare(name, d);
            },
            Stmt::TableDef { name, columns } => {
                if !distinct_names(&columns) {
                    proof {
                        lemma_resolution_error_stays(orig, i + 1, c0);
                    }
                    return Err(Error::new(ErrorKind::DuplicateDeclaration));
                }
                let d = Declaration::Table { name: name.clone(), columns };
                ctx.declare(name, d);
            },
            Stmt::QueryDef { version, dialect } => {
                out.push(ResolvedStmt::QueryDef { version, dialect });
            },
            Stmt::Pipeline(steps) => {
                let ghost ss = steps;
                match resolve_pipeline(steps, &ctx) {
                    Err(e) => {
                        proof {
                            lemma_resolution_error_stays(orig, i + 1, c0);
                        }
                        return Err(e);
                    },
                    Ok(rs) => {
                        out.push(ResolvedStmt::Pipeline(rs));
                    },
                }
            },
        }
        proof {
            if out@.len() > old_out.len() {
                assert(out@.drop_last() == old_out);
                let added = match out@.last() {
                    ResolvedStmt::Pipeline(rs) => rs@,
                    _ => Seq::empty(),
                };
                assert(decl_ids(all_steps(old_out) + added) =~= decl_ids(all_steps(old_out)) + decl_ids(added));
            } else {
                assert(out@ == old_out);
            }
            assert(decl_ids(all_steps(out@)) =~= resolved_ids(cur, c0));
            let sv = surviving(cur);
            assert(ctx@.extends(before)) by {
                assert(ctx@.decls.subrange(0, before.decls.len() as int) =~= before.decls);
                assert(ctx@.bindings.subrange(0, before.bindings.len() as int) =~= before.bindings);
            }
            assert forall|j: int| 0 <= j < out@.len() implies resolved_from(out@[j], sv[j], ctx@) by {
                if j < surviving(pre).len() {
                    lemma_resolved_from_grows(out@[j], surviving(pre)[j], before, ctx@);
                }
            }
        }
        i = i + 1;
    }
    proof {
        assert(orig.subrange(0, i as int) == orig);
    }
    Ok((out, ctx))
}

} // verus!
