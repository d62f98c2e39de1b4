//! Semantic analysis for a pipelined relational query language: name
//! resolution into a growable symbol table, schema ("frame") inference
//! through pipeline stages, and the query/compiler version contract.
use vstd::prelude::*;

pub mod ast;
pub mod context;
pub mod declarations;
pub mod error;
pub mod ir;
pub mod lowering;
pub mod parser;
pub mod reporting;
pub mod resolver;
pub mod scope;
pub mod stdlib;
pub mod version;

use crate::ast::{ResolvedStep, ResolvedStmt, Step, Stmt};
use crate::context::{Context, ContextView};
use crate::error::{Error, ErrorKind};
use crate::ir::Query;
use crate::lowering::{
    dialect_named, header_dialect, header_of, header_version, lower_ast_to_ir,
    pipeline_lowered, steps_callable, stopped_at,
};
use crate::resolver::{all_steps, resolution, resolved_from, resolved_ids, steps_bound, surviving};
use crate::error::is_version_error;
use crate::version::{
    caret_form, check_query_version, names_version, query_version_outcome, COMPILER_MAJOR, COMPILER_MINOR, COMPILER_PATCH,
};

pub use crate::stdlib::{is_std_lib, load_std_lib};

verus! {

/// The first header among the statements, if any.
pub open spec fn query_header(stmts: Seq<Stmt>) -> Option<Stmt>
    decreases stmts.len(),
{
    if stmts.len() == 0 {
        None
    } else {
        match query_header(stmts.drop_last()) {
            Some(h) => Some(h),
            None => if stmts.last() is QueryDef {
                Some(stmts.last())
            } else {
                None
            },
        }
    }
}

/// The header's version requirement, if any.
pub open spec fn declared_version(stmts: Seq<Stmt>) -> Option<String> {
    match query_header(stmts) {
        Some(Stmt::QueryDef { version, .. }) => version,
        _ => None,
    }
}

/// The header's dialect name, if any.
pub open spec fn declared_dialect(stmts: Seq<Stmt>) -> Option<String> {
    match query_header(stmts) {
        Some(Stmt::QueryDef { dialect, .. }) => dialect,
        _ => None,
    }
}

/// The dialect the header selects: the default when it names none, `None`
/// when the name is unknown.
pub open spec fn selected_dialect(stmts: Seq<Stmt>) -> Option<crate::ir::Dialect> {
    match declared_dialect(stmts) {
        Some(d) => dialect_named(d@),
        None => Some(crate::ir::Dialect::Generic),
    }
}

/// The steps of all pipelines, in order.
pub open spec fn source_steps(stmts: Seq<Stmt>) -> Seq<Step>
    decreases stmts.len(),
{
    if stmts.len() == 0 {
        Seq::empty()
    } else {
        source_steps(stmts.drop_last()) + match stmts.last() {
            Stmt::Pipeline(ss) => ss@,
            _ => Seq::empty(),
        }
    }
}

/// `rs` are the query's pipeline steps, each bound to the declaration its
/// name resolved to.
pub open spec fn bound_steps(rs: Seq<ResolvedStep>, stmts: Seq<Stmt>, base: ContextView) -> bool {
    rs.len() == source_steps(stmts).len() && forall|i: int|
        0 <= i < rs.len() ==> (#[trigger] rs[i]).step == source_steps(stmts)[i] && rs[i].decl
            == resolved_ids(stmts, base)[i]
}

/// A successful result: the grown context `c`, the header's dialect and
/// version (which this compiler satisfies), the defined tables read, every
/// declaration id present in `c`, and one node per step under the frame rules.
pub open spec fn success_owed(stmts: Seq<Stmt>, base: ContextView, c: ContextView, q: Query, c2: Context) -> bool {
    c2@ == c && q.refs_below(c.decls.len()) && crate::lowering::tables_listed(
        q.tables@,
        q.main_pipeline@,
        c,
    ) && Some(q.def.dialect) == selected_dialect(stmts) && q.def.version == declared_version(stmts)
        && (declared_version(stmts) matches Some(v) ==> query_version_outcome(v@) is Ok) && exists|
        rs: Seq<ResolvedStep>,
    | bound_steps(rs, stmts, base) && pipeline_lowered(rs, q.main_pipeline@, c)
}

/// Why resolution into `c` can fail: an unknown dialect, a step that could
/// not be lowered, or the version requirement.
pub open spec fn failure_explained(stmts: Seq<Stmt>, base: ContextView, c: ContextView, x: Error) -> bool {
    (selected_dialect(stmts) is None && x.kind == ErrorKind::UnsupportedDialect) || (exists|
        rs: Seq<ResolvedStep>,
        nodes: Seq<crate::ir::Node>,
        ts: Seq<Seq<String>>,
    | bound_steps(rs, stmts, base) && stopped_at(rs, nodes, ts, c)) || (declared_version(stmts) matches Some(
        v,
    ) && query_version_outcome(v@) == Err::<(), ErrorKind>(x.kind))
}

/// What resolving `stmts` against the context `base` owes.
pub open spec fn resolve_outcome(
    stmts: Seq<Stmt>,
    base: ContextView,
    r: Result<(Query, Context), Error>,
) -> bool {
    match resolution(stmts, base) {
        Err(e) => r matches Err(x) && x.kind == e,
        Ok(c) => ((declared_version(stmts) matches Some(v) && (names_version(
            v@,
            COMPILER_MAJOR,
            COMPILER_MINOR,
            COMPILER_PATCH,
        ) || caret_form(v@, COMPILER_MAJOR, COMPILER_MINOR, COMPILER_PATCH, true))) ==> (r matches Err(x)
            ==> !is_version_error(x.kind))) && ((declared_version(stmts) matches Some(v) && caret_form(
            v@,
            COMPILER_MAJOR,
            COMPILER_MINOR,
            COMPILER_PATCH,
            false,
        )) ==> r is Err) && (selected_dialect(stmts) is None ==> (r matches Err(x) && x.kind
            == ErrorKind::UnsupportedDialect)) && ((declared_version(stmts) matches Some(v)
            && query_version_outcome(v@) is Err) ==> r is Err) && match r {
            Ok((q, c2)) => success_owed(stmts, base, c, q, c2),
            Err(x) => failure_explained(stmts, base, c, x),
        },
    }
}

/// Every declaration id that a successful resolution leaves in the query
/// names a declaration of the returned context.
pub proof fn lemma_query_refs_exist(stmts: Seq<Stmt>, base: ContextView, q: Query, c: Context)
    requires
        resolve_outcome(stmts, base, Ok((q, c))),
    ensures
        q.refs_below(c@.decls.len()),
{
}

proof fn lemma_surviving_header(stmts: Seq<Stmt>)
    ensures
        query_header(surviving(stmts)) == query_header(stmts),
        source_steps(surviving(stmts)) == source_steps(stmts),
    decreases stmts.len(),
{
    if stmts.len() > 0 {
        lemma_surviving_header(stmts.drop_last());
        if !stmts.last().is_definition() {
            let s = surviving(stmts);
            assert(s.drop_last() == surviving(stmts.drop_last()));
        }
    }
}

proof fn lemma_resolved_header(out: Seq<ResolvedStmt>, surv: Seq<Stmt>, c: ContextView)
    requires
        out.len() == surv.len(),
        forall|j: int| 0 <= j < out.len() ==> resolved_from(#[trigger] out[j], surv[j], c),
    ensures
        header_of(out) is Some == query_header(surv) is Some,
        header_version(header_of(out)) == (match query_header(surv) {
            Some(Stmt::QueryDef { version, .. }) => version,
            _ => None,
        }),
        header_dialect(header_of(out)) == (match query_header(surv) {
            Some(Stmt::QueryDef { dialect: Some(d), .. }) => dialect_named(d@),
            _ => Some(crate::ir::Dialect::Generic),
        }),
        steps_callable(all_steps(out), c),
        all_steps(out).len() == source_steps(surv).len(),
        forall|i: int|
            0 <= i < all_steps(out).len() ==> (#[trigger] all_steps(out)[i]).step == source_steps(
                surv,
            )[i],
    decreases out.len(),
{
    if out.len() > 0 {
        let n = out.len() - 1;
        assert(resolved_from(out[n], surv[n], c));
        assert(out.last() == out[n]);
        assert(surv.last() == surv[n]);
        assert(out.drop_last().len() == surv.drop_last().len());
        assert forall|j: int| 0 <= j < out.drop_last().len() implies resolved_from(
            #[trigger] out.drop_last()[j],
            surv.drop_last()[j],
            c,
        ) by {
            assert(out.drop_last()[j] == out[j]);
            assert(surv.drop_last()[j] == surv[j]);
        }
        lemma_resolved_header(out.drop_last(), surv.drop_last(), c);
        let a = all_steps(out);
        let a0 = all_steps(out.drop_last());
        let s = source_steps(surv);
        let s0 = source_steps(surv.drop_last());
        assert forall|i: int| 0 <= i < a.len() implies (#[trigger] a[i]).decl < c.decls.len() && (
        c.decls[a[i].decl as int] is Function || c.decls[a[i].decl as int] is Transform) && a[i].step
            == s[i] by {
            if i >= a0.len() {
                let rs = out.last()->Pipeline_0@;
                assert(a[i] == rs[i - a0.len()]);
            } else {
                assert(a[i] == a0[i]);
            }
        }
    }
}

/// Runs semantic analysis on the statements, starting from `context` or, when
/// none is given, from a freshly loaded standard library. Definitions leave
/// the statement stream and live on in the returned context; the query's
/// version requirement is checked against this compiler's version.
pub fn resolve(statements: Vec<Stmt>, context: Option<Context>) -> (r: Result<(Query, Context), Error>)
    requires
        match context {
            Some(c) => c@.decls.len() + statements@.len() < usize::MAX,
            None => 9 + statements@.len() < usize::MAX,
        },
    ensures
        exists|base: ContextView|
            (match context {
                Some(c) => base == c@,
                None => is_std_lib(base),
            }) && #[trigger] resolve_outcome(statements@, base, r),
{
    let ghost stmts = statements@;
    let ghost given = context;
    let context = match context {
        Some(c) => c,
        None => load_std_lib(),
    };
    let ghost base = context@;
    proof {
        assert(match given {
            Some(c) => base == c@,
            None => is_std_lib(base),
        });
    }
    let (resolved, context) = match resolver::resolve(statements, context) {
        Ok(x) => x,
        Err(e) => {
            proof {
                crate::resolver::lemma_resolution_error_kind(stmts, base);
                assert(resolve_outcome(stmts, base, Err::<(Query, Context), Error>(e)));
            }
            return Err(e);
        },
    };
    proof {
        lemma_surviving_header(stmts);
        lemma_resolved_header(resolved@, surviving(stmts), context@);
    }
    let ghost out = resolved@;
    proof {
        let a = all_steps(out);
        assert forall|i: int| 0 <= i < a.len() implies (#[trigger] a[i]).decl == resolved_ids(stmts, base)[i] by {
            assert(crate::resolver::decl_ids(a)[i] == a[i].decl);
        }
    }
    let query = match lower_ast_to_ir(resolved, &context) {
        Ok(q) => q,
        Err(e) => {
            proof {
                assert(resolve_outcome(stmts, base, Err::<(Query, Context), Error>(e)));
            }
            return Err(e);
        },
    };
    match &query.def.version {
        Some(v) => {
            match check_query_version(v.as_str(), COMPILER_MAJOR, COMPILER_MINOR, COMPILER_PATCH) {
                Ok(()) => {},
                Err(e) => {
                    proof {
                        if names_version(v@, COMPILER_MAJOR, COMPILER_MINOR, COMPILER_PATCH) {
                            crate::version::lemma_names_version_admitted(v@, COMPILER_MAJOR, COMPILER_MINOR, COMPILER_PATCH);
                        }
                        assert(resolve_outcome(stmts, base, Err::<(Query, Context), Error>(e)));
                    }
                    return Err(e);
                },
            }
        },
        None => {},
    }
    proof {
        if let Some(v) = declared_version(stmts) {
            if names_version(v@, COMPILER_MAJOR, COMPILER_MINOR, COMPILER_PATCH) {
                crate::version::lemma_names_version_admitted(v@, COMPILER_MAJOR, COMPILER_MINOR, COMPILER_PATCH);
            }
        }
        let rs = all_steps(out);
        assert(bound_steps(rs, stmts, base));
        assert(success_owed(stmts, base, context@, query, context));
        assert(resolve_outcome(stmts, base, Ok::<(Query, Context), Error>((query, context))));
    }
    Ok((query, context))
}

} // verus!
