use vstd::prelude::*;
use crate::ast::{Arg, Expr, ResolvedStep, ResolvedStmt, TransformKind};
use crate::context::{Context, ContextView};
use crate::declarations::Declaration;
use crate::error::{is_version_error, Error, ErrorKind};
use crate::ir::{copy_frame, ColumnExpr, Dialect, FrameColumn, Node, NodeKind, Query, QueryDef, exprs_refs_below, frame_refs_below};
use crate::resolver::all_steps;
use crate::scope::{first_dot, lookup, split_var_name};

verus! {

/// Column ids are the columns' positions, so they are unique within the frame.
pub open spec fn frame_wf(f: Seq<FrameColumn>) -> bool {
    forall|i: int| 0 <= i < f.len() ==> (#[trigger] f[i]).id == i
}

/// The column stands for all columns of an external table.
pub open spec fn is_star(c: FrameColumn) -> bool {
    c.expr is ExternRef && c.expr->ExternRef_variable@ == seq!['*']
}

/// The column's display name is `n`.
pub open spec fn named(c: FrameColumn, n: Seq<char>) -> bool {
    c.name matches Some(m) && m@ == n
}

/// The name a step argument gives its column: its alias, else the name it refers to.
pub open spec fn arg_name(a: Arg) -> Option<Seq<char>> {
    match a.alias {
        Some(s) => Some(s@),
        None => match a.expr {
            Expr::Ident(n) => Some(n@),
            _ => None,
        },
    }
}

/// `r` is a faithful lowering of `e` against a frame, `ntables` tables seen so
/// far, and a context.
pub open spec fn lowered(e: Expr, r: ColumnExpr, f: Seq<FrameColumn>, ntables: nat, c: ContextView) -> bool {
    match e {
        Expr::Int(v) => r == ColumnExpr::Int(v),
        Expr::Str(s) => r is Str && r->Str_0@ == s@,
        Expr::Ident(n) => match r {
            ColumnExpr::Column(id) => id < f.len() && (named(f[id as int], n@) || (f[id as int].expr is ExternRef
                && f[id as int].expr->ExternRef_table < ntables && exists|i: int|
                0 <= i < n@.len() && n@[i] == '.' && f[id as int].expr->ExternRef_variable@
                    == n@.subrange(i + 1, n@.len() as int))),
            ColumnExpr::Decl(id) => id < c.decls.len() && lookup(c.bindings, n@) == Some(id),
            ColumnExpr::ExternRef { variable, table } => table < ntables && (exists|j: int|
                0 <= j < f.len() && is_star(f[j]) && f[j].expr->ExternRef_table == table) && (
            variable@ == n@ || exists|i: int|
                0 <= i < n@.len() && n@[i] == '.' && variable@ == n@.subrange(i + 1, n@.len() as int)),
            _ => false,
        },
    }
}

/// The frame has an opaque `*` column of table `k`.
pub open spec fn has_star_of(f: Seq<FrameColumn>, k: int) -> bool {
    exists|j: int| 0 <= j < f.len() && is_star(f[j]) && f[j].expr->ExternRef_table == k
}

/// The frame has a column `v` of table `k`.
pub open spec fn has_column_of(f: Seq<FrameColumn>, k: int, v: Seq<char>) -> bool {
    exists|j: int|
        0 <= j < f.len() && f[j].expr is ExternRef && f[j].expr->ExternRef_table == k
            && f[j].expr->ExternRef_variable@ == v
}

/// A name can be lowered: a column of the frame; else, when qualified as
/// `t.c`, a known column `c` of table `t` or a table `t` read opaquely into
/// the frame; else a declaration in scope; else, when nothing binds it, some
/// table read opaquely.
pub open spec fn name_known(n: Seq<char>, f: Seq<FrameColumn>, tables: Seq<String>, c: ContextView) -> bool {
    (exists|i: int| 0 <= i < f.len() && named(f[i], n)) || match first_dot(n) {
        Some(d) => exists|k: int|
            #![trigger tables[k]]
            0 <= k < tables.len() && tables[k]@ == n.subrange(0, d) && (has_star_of(f, k)
                || has_column_of(f, k, n.subrange(d + 1, n.len() as int))),
        None => match lookup(c.bindings, n) {
            Some(id) => id < c.decls.len(),
            None => exists|k: int| 0 <= k < tables.len() && has_star_of(f, k),
        },
    }
}

/// An expression can be lowered.
pub open spec fn expr_ok(e: Expr, f: Seq<FrameColumn>, tables: Seq<String>, c: ContextView) -> bool {
    match e {
        Expr::Ident(n) => name_known(n@, f, tables, c),
        _ => true,
    }
}

/// Every argument can be lowered.
pub open spec fn args_ok(args: Seq<Arg>, f: Seq<FrameColumn>, tables: Seq<String>, c: ContextView) -> bool {
    forall|i: int| 0 <= i < args.len() ==> expr_ok(#[trigger] args[i].expr, f, tables, c)
}

/// The joined table's known columns fit beside the frame's.
pub open spec fn join_fits(f: Seq<FrameColumn>, t: Seq<char>, c: ContextView) -> bool {
    match lookup(c.bindings, t) {
        Some(id) if id < c.decls.len() && c.decls[id as int] is Table => f.len()
            + c.decls[id as int]->Table_columns@.len() <= usize::MAX,
        _ => true,
    }
}

/// A step whose lowering is owed: the operator's shape holds and its
/// arguments can be lowered against the incoming frame.
pub open spec fn step_ok(step: ResolvedStep, f: Seq<FrameColumn>, tables: Seq<String>, c: ContextView) -> bool {
    match c.decls[step.decl as int] {
        Declaration::Transform { kind, .. } => shape_ok(kind, step.step.args@) && match kind {
            TransformKind::From | TransformKind::Take => true,
            TransformKind::Join => expr_ok(step.step.args@[1].expr, f, tables, c) && join_fits(
                f,
                step.step.args@[0].expr->Ident_0@,
                c,
            ),
            _ => args_ok(step.step.args@, f, tables, c),
        },
        _ => args_ok(step.step.args@, f, tables, c),
    }
}

/// A frame with the single opaque `*` column of table `table`.
pub open spec fn star_frame(f: Seq<FrameColumn>, table: usize) -> bool {
    f.len() == 1 && f[0].id == 0 && f[0].name is None && is_star(f[0]) && f[0].expr->ExternRef_table
        == table
}

/// The known columns of table `table`, in order, numbered from zero.
pub open spec fn known_frame(f: Seq<FrameColumn>, cols: Seq<String>, table: usize) -> bool {
    f.len() == cols.len() && forall|i: int|
        #![trigger f[i]]
        0 <= i < f.len() ==> f[i].id == i && (f[i].name matches Some(n) && n@ == cols[i]@)
            && f[i].expr is ExternRef && f[i].expr->ExternRef_variable@ == cols[i]@
            && f[i].expr->ExternRef_table == table
}

/// The frame that reading table `t` gives: the columns of its declaration when
/// `t` names a table whose columns are known, else the single opaque column.
pub open spec fn read_frame(f: Seq<FrameColumn>, t: Seq<char>, table: usize, c: ContextView) -> bool {
    match lookup(c.bindings, t) {
        Some(id) => if id < c.decls.len() && c.decls[id as int] is Table {
            known_frame(f, c.decls[id as int]->Table_columns@, table)
        } else {
            star_frame(f, table)
        },
        None => star_frame(f, table),
    }
}

/// The name a joined column `col` of table `t` gets: qualified as `t.col`
/// when the frame already has a column of that name.
pub open spec fn joined_name(before: Seq<FrameColumn>, t: Seq<char>, col: Seq<char>) -> Seq<char> {
    if exists|i: int| 0 <= i < before.len() && named(before[i], col) {
        t + seq!['.'] + col
    } else {
        col
    }
}

/// The columns that joining table `t` appends to `before`: its known
/// columns, named as `joined_name` says, or else its opaque `*` column.
pub open spec fn join_added(added: Seq<FrameColumn>, t: Seq<char>, before: Seq<FrameColumn>, table: usize, c: ContextView) -> bool {
    match lookup(c.bindings, t) {
        Some(id) if id < c.decls.len() && c.decls[id as int] is Table => {
            let cols = c.decls[id as int]->Table_columns@;
            added.len() == cols.len() && forall|i: int|
                #![trigger added[i]]
                0 <= i < added.len() ==> added[i].id == before.len() + i && (added[i].name matches Some(n)
                    && n@ == joined_name(before, t, cols[i]@)) && added[i].expr is ExternRef
                    && added[i].expr->ExternRef_variable@ == cols[i]@ && added[i].expr->ExternRef_table == table
        },
        _ => added.len() == 1 && added[0].id == before.len() && added[0].name is None && is_star(added[0])
            && added[0].expr->ExternRef_table == table,
    }
}

/// `f` holds one column per argument, in order, with the argument's name and
/// lowering, numbered from `first`.
pub open spec fn columns_from_args(
    f: Seq<FrameColumn>,
    args: Seq<Arg>,
    first: nat,
    before: Seq<FrameColumn>,
    ntables: nat,
    c: ContextView,
) -> bool {
    f.len() == args.len() && forall|i: int|
        #![trigger f[i]]
        0 <= i < f.len() ==> f[i].id == first + i && (f[i].name matches Some(m) ==> arg_name(args[i])
            == Some(m@)) && (f[i].name is None ==> arg_name(args[i]) is None) && lowered(
            args[i].expr,
            f[i].expr,
            before,
            ntables,
            c,
        )
}

/// How each operator turns the input frame into the output frame.
pub open spec fn frame_rule(
    kind: TransformKind,
    args: Seq<Arg>,
    before: Seq<FrameColumn>,
    after: Seq<FrameColumn>,
    ntables: nat,
    c: ContextView,
) -> bool {
    match kind {
        TransformKind::From => read_frame(after, args[0].expr->Ident_0@, ntables as usize, c),
        TransformKind::Select | TransformKind::Aggregate | TransformKind::Group => columns_from_args(
            after,
            args,
            0,
            before,
            ntables,
            c,
        ),
        TransformKind::Derive => after.len() == before.len() + args.len() && after.subrange(
            0,
            before.len() as int,
        ) == before && columns_from_args(
            after.subrange(before.len() as int, after.len() as int),
            args,
            before.len(),
            before,
            ntables,
            c,
        ),
        TransformKind::Filter | TransformKind::Sort | TransformKind::Take => after == before,
        TransformKind::Join => after.len() >= before.len() && after.subrange(0, before.len() as int)
            == before && join_added(
            after.subrange(before.len() as int, after.len() as int),
            args[0].expr->Ident_0@,
            before,
            ntables as usize,
            c,
        ),
    }
}

/// Whether an operator accepts these arguments.
pub open spec fn shape_ok(kind: TransformKind, args: Seq<Arg>) -> bool {
    match kind {
        TransformKind::From => args.len() == 1 && args[0].expr is Ident,
        TransformKind::Join => args.len() == 2 && args[0].expr is Ident,
        TransformKind::Filter => args.len() == 1 && args[0].expr is Ident,
        TransformKind::Take => args.len() == 1 && (args[0].expr matches Expr::Int(v) && v >= 0),
        _ => args.len() >= 1,
    }
}

/// The error an operator gives for arguments of the wrong shape.
pub open spec fn shape_error(kind: TransformKind, args: Seq<Arg>) -> ErrorKind {
    match kind {
        TransformKind::From | TransformKind::Join | TransformKind::Filter | TransformKind::Take =>
            if args.len() != if kind is Join { 2nat } else { 1nat } {
            ErrorKind::ArityMismatch
        } else {
            ErrorKind::TypeMismatch
        },
        _ => ErrorKind::ArityMismatch,
    }
}

fn is_star_column(c: &FrameColumn) -> (r: bool)
    ensures
        r == is_star(*c),
{
    match &c.expr {
        ColumnExpr::ExternRef { variable, .. } => {
            let v = variable.as_str();
            if v.unicode_len() == 1 {
                let ch = v.get_char(0);
                proof {
                    if ch == '*' {
                        assert(v@ =~= seq!['*']);
                    }
                }
                ch == '*'
            } else {
                false
            }
        },
        _ => false,
    }
}

/// Position of the first column named `n`.
fn find_named(f: &Vec<FrameColumn>, n: &String) -> (r: Option<usize>)
    ensures
        r matches Some(i) ==> i < f@.len() && named(f@[i as int], n@),
        r is None ==> forall|i: int| 0 <= i < f@.len() ==> !named(#[trigger] f@[i], n@),
{
    let mut i: usize = 0;
    while i < f.len()
        invariant
            i <= f@.len(),
            forall|j: int| 0 <= j < i ==> !named(#[trigger] f@[j], n@),
        decreases f@.len() - i,
    {
        match &f[i].name {
            Some(m) => {
                if *m == *n {
                    return Some(i);
                }
            },
            None => {},
        }
        i = i + 1;
    }
    None
}

/// The table of the first opaque `*` column whose table is known, optionally
/// restricted to a table named `t`.
fn find_star(f: &Vec<FrameColumn>, tables: &Vec<String>, t: &Option<String>) -> (r: Option<usize>)
    ensures
        r matches Some(k) ==> k < tables@.len() && has_star_of(f@, k as int) && (t matches Some(
            name,
        ) ==> tables@[k as int]@ == name@),
        r is None ==> forall|k: int|
            0 <= k < tables@.len() && has_star_of(f@, k) ==> (t matches Some(name) && tables@[k]@
                != name@),
{
    let mut i: usize = 0;
    while i < f.len()
        invariant
            i <= f@.len(),
            forall|j: int|
                0 <= j < i && is_star(f@[j]) && f@[j].expr->ExternRef_table < tables@.len() ==> (t matches Some(
                    name,
                ) && tables@[f@[j].expr->ExternRef_table as int]@ != name@),
        decreases f@.len() - i,
    {
        if is_star_column(&f[i]) {
            match &f[i].expr {
                ColumnExpr::ExternRef { table, .. } => {
                    let k = *table;
                    if k < tables.len() {
                        let fits = match t {
                            Some(name) => tables[k] == *name,
                            None => true,
                        };
                        if fits {
                            assert(is_star(f@[i as int]));
                            assert(has_star_of(f@, k as int));
                            return Some(k);
                        }
                    }
                },
                _ => {},
            }
        }
        i = i + 1;
    }
    proof {
        assert forall|k: int| 0 <= k < tables@.len() && has_star_of(f@, k) implies (t matches Some(
            name,
        ) && tables@[k]@ != name@) by {
            let j = choose|j: int| 0 <= j < f@.len() && is_star(f@[j]) && f@[j].expr->ExternRef_table == k;
        }
    }
    None
}

/// Position of a column `v` of a table named `t`.
fn find_column_of(f: &Vec<FrameColumn>, tables: &Vec<String>, t: &String, v: &String) -> (r: Option<usize>)
    ensures
        r matches Some(j) ==> j < f@.len() && f@[j as int].expr is ExternRef
            && f@[j as int].expr->ExternRef_table < tables@.len() && tables@[f@[j as int].expr->ExternRef_table as int]@
            == t@ && f@[j as int].expr->ExternRef_variable@ == v@,
        r is None ==> forall|k: int|
            0 <= k < tables@.len() && tables@[k]@ == t@ ==> !has_column_of(f@, k, v@),
{
    let mut i: usize = 0;
    while i < f.len()
        invariant
            i <= f@.len(),
            forall|j: int|
                0 <= j < i && f@[j].expr is ExternRef && f@[j].expr->ExternRef_table < tables@.len()
                    && tables@[f@[j].expr->ExternRef_table as int]@ == t@ ==> f@[j].expr->ExternRef_variable@ != v@,
        decreases f@.len() - i,
    {
        match &f[i].expr {
            ColumnExpr::ExternRef { variable, table } => {
                if *table < tables.len() && tables[*table] == *t && *variable == *v {
                    return Some(i);
                }
            },
            _ => {},
        }
        i = i + 1;
    }
    proof {
        assert forall|k: int| 0 <= k < tables@.len() && tables@[k]@ == t@ implies !has_column_of(f@, k, v@) by {
            if has_column_of(f@, k, v@) {
                let j = choose|j: int|
                    0 <= j < f@.len() && f@[j].expr is ExternRef && f@[j].expr->ExternRef_table == k
                        && f@[j].expr->ExternRef_variable@ == v@;
            }
        }
    }
    None
}

/// Lowers one argument expression. A bare name is, in order: a column of the
/// frame, a declaration in scope, or a column of the first opaque table; a
/// qualified `table.column` is a column of that opaque table.
fn lower_expr(e: &Expr, f: &Vec<FrameColumn>, tables: &Vec<String>, ctx: &Context) -> (r: Result<ColumnExpr, Error>)
    requires
        frame_wf(f@),
    ensures
        r matches Err(x) ==> !is_version_error(x.kind),
        r matches Ok(x) ==> lowered(*e, x, f@, tables@.len(), ctx@),
        r is Ok <==> expr_ok(*e, f@, tables@, ctx@),
{
    match e {
        Expr::Int(v) => Ok(ColumnExpr::Int(*v)),
        Expr::Str(s) => Ok(ColumnExpr::Str(s.clone())),
        Expr::Ident(n) => {
            match find_named(f, n) {
                Some(i) => {
                    return Ok(ColumnExpr::Column(f[i].id));
                },
                None => {},
            }
            let (prefix, bare) = split_var_name(n.as_str());
            match prefix {
                Some(t) => {
                    match find_column_of(f, tables, &t, &bare) {
                        Some(j) => {
                            proof {
                                let i = first_dot(n@).unwrap();
                                let k = f@[j as int].expr->ExternRef_table as int;
                                assert(has_column_of(f@, k, bare@));
                                assert(exists|k2: int|
                                    #![trigger tables@[k2]]
                                    0 <= k2 < tables@.len() && tables@[k2]@ == n@.subrange(0, i) && (has_star_of(f@, k2)
                                        || has_column_of(f@, k2, n@.subrange(i + 1, n@.len() as int))));
                            }
                            return Ok(ColumnExpr::Column(f[j].id));
                        },
                        None => {},
                    }
                    let wanted = Some(t);
                    match find_star(f, tables, &wanted) {
                        Some(k) => {
                            proof {
                                let i = first_dot(n@).unwrap();
                                assert(0 <= i < n@.len() && n@[i] == '.');
                            }
                            Ok(ColumnExpr::ExternRef { variable: bare, table: k })
                        },
                        None => Err(Error::new(ErrorKind::UndefinedName)),
                    }
                },
                None => match ctx.scope.resolve(n) {
                    Some(id) => if id < ctx.declarations.len() {
                        Ok(ColumnExpr::Decl(id))
                    } else {
                        Err(Error::new(ErrorKind::DeclarationNotFound))
                    },
                    None => match find_star(f, tables, &None) {
                        Some(k) => Ok(ColumnExpr::ExternRef { variable: n.clone(), table: k }),
                        None => Err(Error::new(ErrorKind::UndefinedName)),
                    },
                },
            }
        },
    }
}

/// Lowers every argument, in order.
fn lower_all(args: &Vec<Arg>, f: &Vec<FrameColumn>, tables: &Vec<String>, ctx: &Context) -> (r: Result<Vec<ColumnExpr>, Error>)
    requires
        frame_wf(f@),
    ensures
        r matches Err(x) ==> !is_version_error(x.kind),
        r matches Ok(es) ==> es@.len() == args@.len() && exprs_refs_below(es@, ctx@.decls.len())
            && forall|i: int|
            0 <= i < es@.len() ==> lowered(args@[i].expr, #[trigger] es@[i], f@, tables@.len(), ctx@),
        r is Ok <==> args_ok(args@, f@, tables@, ctx@),
{
    let mut out: Vec<ColumnExpr> = Vec::new();
    let mut i: usize = 0;
    while i < args.len()
        invariant
            frame_wf(f@),
            i <= args@.len(),
            out@.len() == i,
            exprs_refs_below(out@, ctx@.decls.len()),
            forall|j: int|
                0 <= j < i ==> lowered(args@[j].expr, #[trigger] out@[j], f@, tables@.len(), ctx@),
            forall|j: int| 0 <= j < i ==> expr_ok(#[trigger] args@[j].expr, f@, tables@, ctx@),
        decreases args@.len() - i,
    {
        let x = match lower_expr(&args[i].expr, f, tables, ctx) {
            Ok(x) => x,
            Err(e) => {
                return Err(e);
            },
        };
        out.push(x);
        i = i + 1;
    }
    Ok(out)
}

/// The name a step argument gives its column.
fn column_name(a: &Arg) -> (r: Option<String>)
    ensures
        r matches Some(m) ==> arg_name(*a) == Some(m@),
        r is None ==> arg_name(*a) is None,
{
    match &a.alias {
        Some(s) => Some(s.clone()),
        None => match &a.expr {
            Expr::Ident(n) => Some(n.clone()),
            _ => None,
        },
    }
}

/// One column per argument, numbered from `first`.
fn build_columns(args: &Vec<Arg>, f: &Vec<FrameColumn>, first: usize, tables: &Vec<String>, ctx: &Context) -> (r: Result<Vec<FrameColumn>, Error>)
    requires
        frame_wf(f@),
        first + args@.len() <= usize::MAX,
    ensures
        r matches Err(x) ==> !is_version_error(x.kind),
        r matches Ok(cols) ==> columns_from_args(cols@, args@, first as nat, f@, tables@.len(), ctx@)
            && frame_refs_below(cols@, ctx@.decls.len()),
        r is Ok <==> args_ok(args@, f@, tables@, ctx@),
{
    let mut out: Vec<FrameColumn> = Vec::new();
    let mut i: usize = 0;
    while i < args.len()
        invariant
            frame_wf(f@),
            first + args@.len() <= usize::MAX,
            i <= args@.len(),
            out@.len() == i,
            frame_refs_below(out@, ctx@.decls.len()),
            forall|j: int|
                #![trigger out@[j]]
                0 <= j < i ==> out@[j].id == first + j && (out@[j].name matches Some(m) ==> arg_name(
                    args@[j],
                ) == Some(m@)) && (out@[j].name is None ==> arg_name(args@[j]) is None) && lowered(
                    args@[j].expr,
                    out@[j].expr,
                    f@,
                    tables@.len(),
                    ctx@,
                ),
            forall|j: int| 0 <= j < i ==> expr_ok(#[trigger] args@[j].expr, f@, tables@, ctx@),
        decreases args@.len() - i,
    {
        let x = match lower_expr(&args[i].expr, f, tables, ctx) {
            Ok(x) => x,
            Err(e) => {
                return Err(e);
            },
        };
        let name = column_name(&args[i]);
        out.push(FrameColumn { id: first + i, name, expr: x });
        i = i + 1;
    }
    Ok(out)
}

/// The opaque `*` column of a table whose columns are not known.
fn star_column(id: usize, table: usize) -> (c: FrameColumn)
    ensures
        c.id == id,
        c.name is None,
        is_star(c),
        c.expr->ExternRef_table == table,
        c.expr.decl_ref() is None,
{
    proof {
        reveal_strlit("*");
        assert("*"@ =~= seq!['*']);
    }
    FrameColumn { id, name: None, expr: ColumnExpr::ExternRef { variable: "*".to_owned(), table } }
}

/// Lowering an expression stays possible when the frame and the table list grow.
proof fn lemma_expr_ok_grows(
    e: Expr,
    f: Seq<FrameColumn>,
    f2: Seq<FrameColumn>,
    ts: Seq<String>,
    ts2: Seq<String>,
    c: ContextView,
)
    requires
        expr_ok(e, f, ts, c),
        f.len() <= f2.len(),
        f2.subrange(0, f.len() as int) == f,
        ts.len() <= ts2.len(),
        ts2.subrange(0, ts.len() as int) == ts,
    ensures
        expr_ok(e, f2, ts2, c),
{
    if let Expr::Ident(n) = e {
        if exists|i: int| 0 <= i < f.len() && named(f[i], n@) {
            let i = choose|i: int| 0 <= i < f.len() && named(f[i], n@);
            assert(f2[i] == f2.subrange(0, f.len() as int)[i]);
        } else {
            match first_dot(n@) {
                Some(d) => {
                    let v = n@.subrange(d + 1, n@.len() as int);
                    let k = choose|k: int|
                        #![trigger ts[k]]
                        0 <= k < ts.len() && ts[k]@ == n@.subrange(0, d) && (has_star_of(f, k)
                            || has_column_of(f, k, v));
                    assert(ts2[k] == ts2.subrange(0, ts.len() as int)[k]);
                    if has_star_of(f, k) {
                        let j = choose|j: int| 0 <= j < f.len() && is_star(f[j]) && f[j].expr->ExternRef_table == k;
                        assert(f2[j] == f2.subrange(0, f.len() as int)[j]);
                        assert(has_star_of(f2, k));
                    } else {
                        let j = choose|j: int|
                            0 <= j < f.len() && f[j].expr is ExternRef && f[j].expr->ExternRef_table == k
                                && f[j].expr->ExternRef_variable@ == v;
                        assert(f2[j] == f2.subrange(0, f.len() as int)[j]);
                        assert(has_column_of(f2, k, v));
                    }
                },
                None => {
                    if lookup(c.bindings, n@) is None {
                        let k = choose|k: int| 0 <= k < ts.len() && has_star_of(f, k);
                        let j = choose|j: int| 0 <= j < f.len() && is_star(f[j]) && f[j].expr->ExternRef_table == k;
                        assert(f2[j] == f2.subrange(0, f.len() as int)[j]);
                        assert(has_star_of(f2, k));
                    }
                },
            }
        }
    }
}

/// The frame of a table whose columns are known.
fn known_table_frame(columns: &Vec<String>, table: usize) -> (f: Vec<FrameColumn>)
    ensures
        known_frame(f@, columns@, table),
        frame_wf(f@),
        frame_refs_below(f@, 0),
{
    let mut out: Vec<FrameColumn> = Vec::new();
    let mut i: usize = 0;
    while i < columns.len()
        invariant
            i <= columns@.len(),
            out@.len() == i,
            forall|j: int|
                #![trigger out@[j]]
                0 <= j < i ==> out@[j].id == j && (out@[j].name matches Some(n) && n@ == columns@[j]@)
                    && out@[j].expr is ExternRef && out@[j].expr->ExternRef_variable@ == columns@[j]@
                    && out@[j].expr->ExternRef_table == table,
        decreases columns@.len() - i,
    {
        let name = columns[i].clone();
        let variable = columns[i].clone();
        out.push(FrameColumn { id: i, name: Some(name), expr: ColumnExpr::ExternRef { variable, table } });
        i = i + 1;
    }
    out
}

/// The known columns of a joined table, numbered after `before`'s.
fn joined_columns(before: &Vec<FrameColumn>, t: &String, columns: &Vec<String>, table: usize) -> (r: Vec<FrameColumn>)
    requires
        before@.len() + columns@.len() <= usize::MAX,
    ensures
        r@.len() == columns@.len(),
        forall|i: int|
            #![trigger r@[i]]
            0 <= i < r@.len() ==> r@[i].id == before@.len() + i && (r@[i].name matches Some(n) && n@
                == joined_name(before@, t@, columns@[i]@)) && r@[i].expr is ExternRef
                && r@[i].expr->ExternRef_variable@ == columns@[i]@ && r@[i].expr->ExternRef_table == table,
        frame_refs_below(r@, 0),
{
    let mut out: Vec<FrameColumn> = Vec::new();
    let mut i: usize = 0;
    while i < columns.len()
        invariant
            before@.len() + columns@.len() <= usize::MAX,
            i <= columns@.len(),
            out@.len() == i,
            frame_refs_below(out@, 0),
            forall|j: int|
                #![trigger out@[j]]
                0 <= j < i ==> out@[j].id == before@.len() + j && (out@[j].name matches Some(n) && n@
                    == joined_name(before@, t@, columns@[j]@)) && out@[j].expr is ExternRef
                    && out@[j].expr->ExternRef_variable@ == columns@[j]@ && out@[j].expr->ExternRef_table == table,
        decreases columns@.len() - i,
    {
        let col = &columns[i];
        let name = match find_named(before, col) {
            Some(_) => {
                let mut q = t.clone();
                q.append(".");
                q.append(col.as_str());
                proof {
                    reveal_strlit(".");
                    assert(q@ =~= t@ + seq!['.'] + col@);
                }
                q
            },
            None => col.clone(),
        };
        out.push(FrameColumn { id: before.len() + i, name: Some(name), expr: ColumnExpr::ExternRef { variable: col.clone(), table } });
        i = i + 1;
    }
    out
}

/// What lowering a step owes: the node's operator and frame, and the table list.
pub open spec fn step_lowered(
    step: ResolvedStep,
    before: Seq<FrameColumn>,
    tables_before: Seq<String>,
    c: ContextView,
    node: Node,
    tables_after: Seq<String>,
) -> bool {
    match c.decls[step.decl as int] {
        Declaration::Transform { kind, .. } => node.kind == NodeKind::Transform(kind) && shape_ok(
            kind,
            step.step.args@,
        ) && frame_rule(kind, step.step.args@, before, node.frame@, tables_before.len(), c) && if kind
            is From || kind is Join {
            tables_after.len() == tables_before.len() + 1 && tables_after.drop_last() == tables_before
                && (step.step.args@[0].expr matches Expr::Ident(t) && tables_after.last()@ == t@
                && (node.table matches Some(n) && n@ == t@))
        } else {
            tables_after == tables_before
        },
        _ => node.kind == NodeKind::Call(step.decl) && node.frame@ == before && tables_after
            == tables_before,
    }
}

/// Lowers one resolved step against the running frame.
pub fn lower_step(step: &ResolvedStep, frame: Vec<FrameColumn>, tables: &mut Vec<String>, ctx: &Context) -> (r: Result<Node, Error>)
    requires
        frame_wf(frame@),
        frame_refs_below(frame@, ctx@.decls.len()),
        step.decl < ctx@.decls.len(),
        ctx@.decls[step.decl as int] is Function || ctx@.decls[step.decl as int] is Transform,
        frame@.len() + step.step.args@.len() <= usize::MAX,
        old(tables)@.len() < usize::MAX,
    ensures
        r matches Err(x) ==> !is_version_error(x.kind),
        r matches Ok(node) ==> frame_wf(node.frame@) && node.refs_below(ctx@.decls.len())
            && step_lowered(*step, frame@, old(tables)@, ctx@, node, final(tables)@),
        r is Err ==> final(tables)@ == old(tables)@,
        step_ok(*step, frame@, old(tables)@, ctx@) ==> r is Ok,
        (r is Ok && !(ctx@.decls[step.decl as int] matches Declaration::Transform { kind: TransformKind::Join, .. }))
            ==> step_ok(*step, frame@, old(tables)@, ctx@),
        (ctx@.decls[step.decl as int] is Transform && !shape_ok(
            ctx@.decls[step.decl as int]->Transform_kind,
            step.step.args@,
        )) ==> (r matches Err(x) && x.kind == shape_error(
            ctx@.decls[step.decl as int]->Transform_kind,
            step.step.args@,
        )),
{
    let args = &step.step.args;
    let kind = match ctx.declarations.get(step.decl) {
        Ok(Declaration::Transform { kind, .. }) => *kind,
        _ => {
            let es = match lower_all(args, &frame, tables, ctx) {
                Ok(x) => x,
                Err(e) => {
                    return Err(e);
                },
            };
            return Ok(Node { kind: NodeKind::Call(step.decl), table: None, args: es, frame });
        },
    };
    match kind {
        TransformKind::From | TransformKind::Join => {
            let want: usize = if let TransformKind::Join = kind { 2 } else { 1 };
            if args.len() != want {
                return Err(Error::new(ErrorKind::ArityMismatch));
            }
            let t = match &args[0].expr {
                Expr::Ident(t) => t,
                _ => {
                    return Err(Error::new(ErrorKind::TypeMismatch));
                },
            };
            let id = tables.len();
            if let TransformKind::From = kind {
                let known = match ctx.scope.resolve(t) {
                    Some(d) => match ctx.declarations.get(d) {
                        Ok(Declaration::Table { columns, .. }) => Some(known_table_frame(columns, id)),
                        _ => None,
                    },
                    None => None,
                };
                let after = match known {
                    Some(f) => f,
                    None => {
                        let col = star_column(0, id);
                        let f = vec![col];
                        proof {
                            assert(f@[0] == col);
                        }
                        f
                    },
                };
                tables.push(t.clone());
                let node = Node { kind: NodeKind::Transform(kind), table: Some(t.clone()), args: Vec::new(), frame: after };
                proof {
                    assert(frame_wf(node.frame@));
                    assert(frame_refs_below(node.frame@, ctx@.decls.len()));
                    assert(exprs_refs_below(node.args@, ctx@.decls.len()));
                    assert(ctx@.decls[step.decl as int] == Declaration::Transform { kind, params: ctx@.decls[step.decl as int]->Transform_params });
                    assert(frame_rule(kind, step.step.args@, frame@, node.frame@, old(tables)@.len(), ctx@));
                    assert(tables@.drop_last() == old(tables)@);
                }
                return Ok(node);
            }
            let known = match ctx.scope.resolve(t) {
                Some(d) => match ctx.declarations.get(d) {
                    Ok(Declaration::Table { columns, .. }) => if frame.len() <= usize::MAX - columns.len() {
                        Some(joined_columns(&frame, t, columns, id))
                    } else {
                        return Err(Error::new(ErrorKind::ArityMismatch));
                    },
                    _ => None,
                },
                None => None,
            };
            let mut added = match known {
                Some(cols) => cols,
                None => {
                    let col = star_column(frame.len(), id);
                    let v = vec![col];
                    proof {
                        assert(v@[0] == col);
                    }
                    v
                },
            };
            let ghost added_v = added@;
            let mut after = frame;
            after.append(&mut added);
            let mut joined = tables.clone();
            joined.push(t.clone());
            proof {
                assert(after@.subrange(0, frame@.len() as int) =~= frame@);
                assert(after@.subrange(frame@.len() as int, after@.len() as int) =~= added_v);
            }
            proof {
                if expr_ok(args@[1].expr, frame@, tables@, ctx@) {
                    assert(joined@.subrange(0, tables@.len() as int) =~= tables@);
                    lemma_expr_ok_grows(args@[1].expr, frame@, after@, tables@, joined@, ctx@);
                }
            }
            let cond = match lower_expr(&args[1].expr, &after, &joined, ctx) {
                Ok(x) => x,
                Err(e) => {
                    return Err(e);
                },
            };
            tables.push(t.clone());
            let cs = vec![cond];
            let node = Node { kind: NodeKind::Transform(kind), table: Some(t.clone()), args: cs, frame: after };
            proof {
                assert(cs@[0] == cond);
                assert(exprs_refs_below(node.args@, ctx@.decls.len()));
                assert forall|i: int| 0 <= i < after@.len() implies (#[trigger] after@[i]).id == i && ((after@[i]).expr.decl_ref() matches Some(id) ==> id < ctx@.decls.len()) by {
                    if i < frame@.len() {
                        assert(after@[i] == frame@[i]);
                    } else {
                        assert(after@[i] == added_v[i - frame@.len()]);
                    }
                }
                assert(tables@.drop_last() == old(tables)@);
                assert(ctx@.decls[step.decl as int] == Declaration::Transform { kind, params: ctx@.decls[step.decl as int]->Transform_params });
            }
            Ok(node)
        },
        TransformKind::Filter | TransformKind::Take => {
            if args.len() != 1 {
                return Err(Error::new(ErrorKind::ArityMismatch));
            }
            let shaped = match &args[0].expr {
                Expr::Ident(_) => if let TransformKind::Filter = kind { true } else { false },
                Expr::Int(v) => if let TransformKind::Take = kind { *v >= 0 } else { false },
                _ => false,
            };
            if !shaped {
                return Err(Error::new(ErrorKind::TypeMismatch));
            }
            let es = match lower_all(args, &frame, tables, ctx) {
                Ok(x) => x,
                Err(e) => {
                    return Err(e);
                },
            };
            Ok(Node { kind: NodeKind::Transform(kind), table: None, args: es, frame })
        },
        TransformKind::Sort => {
            if args.len() < 1 {
                return Err(Error::new(ErrorKind::ArityMismatch));
            }
            let es = match lower_all(args, &frame, tables, ctx) {
                Ok(x) => x,
                Err(e) => {
                    return Err(e);
                },
            };
            Ok(Node { kind: NodeKind::Transform(kind), table: None, args: es, frame })
        },
        TransformKind::Select | TransformKind::Aggregate | TransformKind::Group => {
            if args.len() < 1 {
                return Err(Error::new(ErrorKind::ArityMismatch));
            }
            let cols = match build_columns(args, &frame, 0, tables, ctx) {
                Ok(x) => x,
                Err(e) => {
                    return Err(e);
                },
            };
            Ok(Node { kind: NodeKind::Transform(kind), table: None, args: Vec::new(), frame: cols })
        },
        TransformKind::Derive => {
            if args.len() < 1 {
                return Err(Error::new(ErrorKind::ArityMismatch));
            }
            let cols = match build_columns(args, &frame, frame.len(), tables, ctx) {
                Ok(x) => x,
                Err(e) => {
                    return Err(e);
                },
            };
            let ghost added = cols@;
            let mut after = frame;
            let mut cols = cols;
            after.append(&mut cols);
            proof {
                assert(after@.subrange(0, frame@.len() as int) =~= frame@);
                assert(after@.subrange(frame@.len() as int, after@.len() as int) =~= added);
                assert forall|i: int| 0 <= i < after@.len() implies (#[trigger] after@[i]).id == i && ((after@[i]).expr.decl_ref() matches Some(id) ==> id < ctx@.decls.len()) by {
                    if i < frame@.len() {
                        assert(after@[i] == frame@[i]);
                    } else {
                        assert(after@[i] == added[i - frame@.len()]);
                    }
                }
                assert(ctx@.decls[step.decl as int] == Declaration::Transform { kind, params: ctx@.decls[step.decl as int]->Transform_params });
            }
            Ok(Node { kind: NodeKind::Transform(kind), table: None, args: Vec::new(), frame: after })
        },
    }
}

/// The dialect a header names, if it is a known one.
pub open spec fn dialect_named(n: Seq<char>) -> Option<Dialect> {
    if n == "generic"@ {
        Some(Dialect::Generic)
    } else if n == "ansi"@ {
        Some(Dialect::Ansi)
    } else if n == "bigquery"@ {
        Some(Dialect::BigQuery)
    } else if n == "clickhouse"@ {
        Some(Dialect::ClickHouse)
    } else if n == "hive"@ {
        Some(Dialect::Hive)
    } else if n == "mssql"@ {
        Some(Dialect::MsSql)
    } else if n == "mysql"@ {
        Some(Dialect::MySql)
    } else if n == "postgres"@ {
        Some(Dialect::PostgreSql)
    } else if n == "sqlite"@ {
        Some(Dialect::SQLite)
    } else if n == "snowflake"@ {
        Some(Dialect::Snowflake)
    } else {
        None
    }
}

/// Looks up a dialect by its name in a query header.
pub fn dialect_of(name: &String) -> (r: Option<Dialect>)
    ensures
        r == dialect_named(name@),
{
    if *name == String::from_str("generic") {
        Some(Dialect::Generic)
    } else if *name == String::from_str("ansi") {
        Some(Dialect::Ansi)
    } else if *name == String::from_str("bigquery") {
        Some(Dialect::BigQuery)
    } else if *name == String::from_str("clickhouse") {
        Some(Dialect::ClickHouse)
    } else if *name == String::from_str("hive") {
        Some(Dialect::Hive)
    } else if *name == String::from_str("mssql") {
        Some(Dialect::MsSql)
    } else if *name == String::from_str("mysql") {
        Some(Dialect::MySql)
    } else if *name == String::from_str("postgres") {
        Some(Dialect::PostgreSql)
    } else if *name == String::from_str("sqlite") {
        Some(Dialect::SQLite)
    } else if *name == String::from_str("snowflake") {
        Some(Dialect::Snowflake)
    } else {
        None
    }
}

/// The first header among the statements, if any.
pub open spec fn header_of(stmts: Seq<ResolvedStmt>) -> Option<ResolvedStmt>
    decreases stmts.len(),
{
    if stmts.len() == 0 {
        None
    } else {
        match header_of(stmts.drop_last()) {
            Some(h) => Some(h),
            None => if stmts.last() is QueryDef {
                Some(stmts.last())
            } else {
                None
            },
        }
    }
}

/// The header's dialect: the default when none is named, `None` when the name is unknown.
pub open spec fn header_dialect(h: Option<ResolvedStmt>) -> Option<Dialect> {
    match h {
        Some(ResolvedStmt::QueryDef { dialect: Some(d), .. }) => dialect_named(d@),
        _ => Some(Dialect::Generic),
    }
}

/// The header's version requirement, if any.
pub open spec fn header_version(h: Option<ResolvedStmt>) -> Option<String> {
    match h {
        Some(ResolvedStmt::QueryDef { version, .. }) => version,
        _ => None,
    }
}

/// Every step calls a callable declaration of `c`.
pub open spec fn steps_callable(steps: Seq<ResolvedStep>, c: ContextView) -> bool {
    forall|i: int|
        0 <= i < steps.len() ==> (#[trigger] steps[i]).decl < c.decls.len() && (
        c.decls[steps[i].decl as int] is Function || c.decls[steps[i].decl as int] is Transform)
}

/// The frame that node `i` starts from: empty for the first.
pub open spec fn frame_before(nodes: Seq<Node>, i: int) -> Seq<FrameColumn> {
    if i == 0 { Seq::empty() } else { nodes[i - 1].frame@ }
}

/// The nodes lower the steps one by one, each from its predecessor's frame,
/// through the table lists `ts`, which start empty.
pub open spec fn pipeline_lowered_with(
    steps: Seq<ResolvedStep>,
    nodes: Seq<Node>,
    ts: Seq<Seq<String>>,
    c: ContextView,
) -> bool {
    nodes.len() == steps.len() && ts.len() == steps.len() + 1 && ts[0].len() == 0 && forall|i: int|
        0 <= i < steps.len() ==> #[trigger] step_lowered(
            steps[i],
            frame_before(nodes, i),
            ts[i],
            c,
            nodes[i],
            ts[i + 1],
        )
}

/// The nodes lower the steps one by one, through some table lists.
pub open spec fn pipeline_lowered(steps: Seq<ResolvedStep>, nodes: Seq<Node>, c: ContextView) -> bool {
    exists|ts: Seq<Seq<String>>| pipeline_lowered_with(steps, nodes, ts, c)
}

/// Lowering stopped at step `nodes.len()`: the steps before it were lowered,
/// and it could not be, given the frame and tables they left.
pub open spec fn stopped_at(steps: Seq<ResolvedStep>, nodes: Seq<Node>, ts: Seq<Seq<String>>, c: ContextView) -> bool {
    let i = nodes.len() as int;
    i < steps.len() && pipeline_lowered_with(steps.subrange(0, i), nodes, ts, c) && (!step_ok(
        steps[i],
        frame_before(nodes, i),
        ts[i],
        c,
    ) || frame_before(nodes, i).len() + steps[i].step.args@.len() > usize::MAX || ts[i].len()
        == usize::MAX)
}

/// The defined table that a node reads, if it is a `from` or `join` of one.
pub open spec fn table_read(n: Node, c: ContextView) -> Option<usize> {
    if (n.kind == NodeKind::Transform(TransformKind::From) || n.kind == NodeKind::Transform(
        TransformKind::Join,
    )) && n.table is Some {
        match lookup(c.bindings, n.table->Some_0@) {
            Some(id) => if id < c.decls.len() && c.decls[id as int] is Table {
                Some(id)
            } else {
                None
            },
            None => None,
        }
    } else {
        None
    }
}

/// `ids` lists, each once, exactly the defined tables that the nodes read.
pub open spec fn tables_listed(ids: Seq<usize>, nodes: Seq<Node>, c: ContextView) -> bool {
    (forall|i: int, j: int| 0 <= i < j < ids.len() ==> ids[i] != ids[j]) && (forall|i: int|
        0 <= i < ids.len() ==> exists|k: int| 0 <= k < nodes.len() && table_read(nodes[k], c) == Some(
            #[trigger] ids[i],
        )) && forall|k: int|
        0 <= k < nodes.len() ==> (#[trigger] table_read(nodes[k], c) matches Some(id) ==> ids.contains(
            id,
        ))
}

/// The defined table a node reads, if any.
fn node_table(n: &Node, ctx: &Context) -> (r: Option<usize>)
    ensures
        r == table_read(*n, ctx@),
{
    if n.kind != NodeKind::Transform(TransformKind::From) && n.kind != NodeKind::Transform(
        TransformKind::Join,
    ) {
        return None;
    }
    match &n.table {
        Some(t) => match ctx.scope.resolve(t) {
            Some(id) => match ctx.declarations.get(id) {
                Ok(Declaration::Table { .. }) => Some(id),
                _ => None,
            },
            None => None,
        },
        None => None,
    }
}

/// Separates the header from the steps of all pipelines.
#[verifier::loop_isolation(false)]
fn split_statements(stmts: Vec<ResolvedStmt>) -> (r: (Option<ResolvedStmt>, Vec<ResolvedStep>))
    ensures
        r.0 == header_of(stmts@),
        r.1@ == all_steps(stmts@),
{
    let ghost orig = stmts@;
    let mut stmts = stmts;
    let mut header: Option<ResolvedStmt> = None;
    let mut steps: Vec<ResolvedStep> = Vec::new();
    let mut i: usize = 0;
    let n = stmts.len();
    while stmts.len() > 0
        invariant
            n == orig.len(),
            i <= orig.len(),
            stmts@ == orig.subrange(i as int, orig.len() as int),
            header == header_of(orig.subrange(0, i as int)),
            steps@ == all_steps(orig.subrange(0, i as int)),
        decreases stmts@.len(),
    {
        let s = stmts.remove(0);
        proof {
            assert(orig.subrange(0, i + 1).drop_last() == orig.subrange(0, i as int));
            assert(orig.subrange(0, i + 1).last() == s);
        }
        match s {
            ResolvedStmt::Pipeline(rs) => {
                let mut rs = rs;
                steps.append(&mut rs);
            },
            ResolvedStmt::QueryDef { version, dialect } => {
                if header.is_none() {
                    header = Some(ResolvedStmt::QueryDef { version, dialect });
                }
            },
        }
        i = i + 1;
    }
    proof {
        assert(orig.subrange(0, i as int) == orig);
    }
    (header, steps)
}

/// Builds the query from resolved statements: the header's version and
/// dialect, and one node per pipeline step, threading the frame through them.
#[verifier::loop_isolation(false)]
pub fn lower_ast_to_ir(stmts: Vec<ResolvedStmt>, ctx: &Context) -> (r: Result<Query, Error>)
    requires
        steps_callable(all_steps(stmts@), ctx@),
    ensures
        r matches Err(x) ==> !is_version_error(x.kind),
        header_dialect(header_of(stmts@)) is None ==> (r matches Err(x) && x.kind
            == ErrorKind::UnsupportedDialect),
        r matches Ok(q) ==> header_dialect(header_of(stmts@)) == Some(q.def.dialect) && q.def.version
            == header_version(header_of(stmts@)) && tables_listed(q.tables@, q.main_pipeline@, ctx@) && q.refs_below(
            ctx@.decls.len(),
        ) && pipeline_lowered(all_steps(stmts@), q.main_pipeline@, ctx@),
        (r is Err && header_dialect(header_of(stmts@)) is Some) ==> exists|
            nodes: Seq<Node>,
            ts: Seq<Seq<String>>,
        | stopped_at(all_steps(stmts@), nodes, ts, ctx@),
{
    let (header, steps) = split_statements(stmts);
    let (version, dialect) = match header {
        Some(ResolvedStmt::QueryDef { version, dialect: Some(d) }) => match dialect_of(&d) {
            Some(x) => (version, x),
            None => {
                return Err(Error::new(ErrorKind::UnsupportedDialect));
            },
        },
        Some(ResolvedStmt::QueryDef { version, dialect: None }) => (version, Dialect::Generic),
        _ => (None, Dialect::Generic),
    };
    let mut frame: Vec<FrameColumn> = Vec::new();
    let mut tables: Vec<String> = Vec::new();
    let mut nodes: Vec<Node> = Vec::new();
    let mut read: Vec<usize> = Vec::new();
    let ghost mut tss: Seq<Seq<String>> = seq![tables@];
    let mut i: usize = 0;
    while i < steps.len()
        invariant
            i <= steps@.len(),
            nodes@.len() == i,
            frame_wf(frame@),
            frame_refs_below(frame@, ctx@.decls.len()),
            frame@ == frame_before(nodes@, i as int),
            tss.len() == i + 1,
            tss[0].len() == 0,
            tss[i as int] == tables@,
            forall|j: int| 0 <= j < i ==> (#[trigger] nodes@[j]).refs_below(ctx@.decls.len()),
            tables_listed(read@, nodes@, ctx@),
            forall|j: int| 0 <= j < read@.len() ==> #[trigger] read@[j] < ctx@.decls.len(),
            forall|j: int|
                0 <= j < i ==> #[trigger] step_lowered(
                    steps@[j],
                    frame_before(nodes@, j),
                    tss[j],
                    ctx@,
                    nodes@[j],
                    tss[j + 1],
                ),
        decreases steps@.len() - i,
    {
        let nargs = steps[i].step.args.len();
        proof {
            assert(pipeline_lowered_with(steps@.subrange(0, i as int), nodes@, tss, ctx@)) by {
                assert forall|j: int| 0 <= j < i implies #[trigger] step_lowered(
                    steps@.subrange(0, i as int)[j],
                    frame_before(nodes@, j),
                    tss[j],
                    ctx@,
                    nodes@[j],
                    tss[j + 1],
                ) by {
                    assert(steps@.subrange(0, i as int)[j] == steps@[j]);
                }
            }
        }
        if frame.len() > usize::MAX - nargs || tables.len() == usize::MAX {
            proof {
                assert(stopped_at(steps@, nodes@, tss, ctx@));
            }
            return Err(Error::new(ErrorKind::ArityMismatch));
        }
        assert(steps@[i as int].decl < ctx@.decls.len());
        let ghost before = frame@;
        let ghost old_nodes = nodes@;
        let ghost old_tss = tss;
        let ghost old_tables = tables@;
        let node = match lower_step(&steps[i], frame, &mut tables, ctx) {
            Ok(node) => node,
            Err(e) => {
                proof {
                    assert(stopped_at(steps@, nodes@, tss, ctx@));
                }
                return Err(e);
            },
        };
        frame = copy_frame(&node.frame);
        let ghost gnode = node;
        let ghost old_read = read@;
        let tr = node_table(&node, ctx);
        match tr {
            Some(id) => {
                let mut seen = false;
                let mut k: usize = 0;
                while k < read.len()
                    invariant
                        k <= read@.len(),
                        seen <==> exists|x: int| 0 <= x < k && read@[x] == id,
                    decreases read@.len() - k,
                {
                    if read[k] == id {
                        seen = true;
                    }
                    k = k + 1;
                }
                if !seen {
                    read.push(id);
                }
            },
            None => {},
        }
        nodes.push(node);
        proof {
            tss = tss.push(tables@);
            assert(nodes@[i as int] == gnode);
            assert(tss[i as int] == old_tss[i as int]);
            assert forall|j: int| 0 <= j <= i implies frame_before(nodes@, j) == frame_before(old_nodes, j)
                || j == i by {
                if 0 < j < i {
                    assert(nodes@[j - 1] == old_nodes[j - 1]);
                }
            }
            assert(frame_before(nodes@, i as int) == before);
            assert forall|j: int| 0 <= j <= i implies #[trigger] step_lowered(
                steps@[j],
                frame_before(nodes@, j),
                tss[j],
                ctx@,
                nodes@[j],
                tss[j + 1],
            ) by {
                if j < i {
                    assert(nodes@[j] == old_nodes[j]);
                    assert(tss[j] == old_tss[j]);
                    assert(tss[j + 1] == old_tss[j + 1]);
                    assert(step_lowered(steps@[j], frame_before(old_nodes, j), old_tss[j], ctx@, old_nodes[j], old_tss[j + 1]));
                    if j > 0 {
                        assert(nodes@[j - 1] == old_nodes[j - 1]);
                    }
                    assert(frame_before(nodes@, j) == frame_before(old_nodes, j));
                } else {
                    assert(old_tables == old_tss[i as int]);
                    assert(tss[j + 1] == tables@);
                    assert(step_lowered(steps@[i as int], before, old_tables, ctx@, gnode, tables@));
                }
            }
            assert forall|j: int| 0 <= j <= i implies (#[trigger] nodes@[j]).refs_below(ctx@.decls.len()) by {
                if j < i {
                    assert(nodes@[j] == old_nodes[j]);
                }
            }
            assert forall|x: int| 0 <= x < read@.len() implies exists|k: int|
                0 <= k < nodes@.len() && table_read(nodes@[k], ctx@) == Some(#[trigger] read@[x]) by {
                if x < old_read.len() {
                    assert(read@[x] == old_read[x]);
                    let k = choose|k: int| 0 <= k < old_nodes.len() && table_read(old_nodes[k], ctx@) == Some(old_read[x]);
                    assert(nodes@[k] == old_nodes[k]);
                } else {
                    assert(nodes@[i as int] == gnode);
                }
            }
            assert forall|k: int| 0 <= k < nodes@.len() implies (#[trigger] table_read(nodes@[k], ctx@) matches Some(id) ==> read@.contains(id)) by {
                if k < i {
                    assert(nodes@[k] == old_nodes[k]);
                    if let Some(id) = table_read(old_nodes[k], ctx@) {
                        assert(old_read.contains(id));
                        let x = choose|x: int| 0 <= x < old_read.len() && old_read[x] == id;
                        assert(read@[x] == old_read[x]);
                    }
                } else {
                    assert(nodes@[k] == gnode);
                    if let Some(id) = table_read(gnode, ctx@) {
                        if read@.len() > old_read.len() {
                            assert(read@[read@.len() - 1] == id);
                        } else {
                            let x = choose|x: int| 0 <= x < old_read.len() && old_read[x] == id;
                            assert(read@[x] == id);
                        }
                    }
                }
            }
        }
        i = i + 1;
    }
    let q = Query { def: QueryDef { version, dialect }, tables: read, main_pipeline: nodes };
    proof {
        assert(pipeline_lowered_with(steps@, q.main_pipeline@, tss, ctx@));
    }
    Ok(q)
}

} // verus!
