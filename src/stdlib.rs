use vstd::prelude::*;
use crate::ast::TransformKind;
use crate::context::{Context, ContextView};
use crate::declarations::Declaration;
use crate::scope::{lookup, Binding};

verus! {

/// The name under which the standard library declares an operator.
pub open spec fn transform_name(k: TransformKind) -> Seq<char> {
    match k {
        TransformKind::From => "from"@,
        TransformKind::Select => "select"@,
        TransformKind::Filter => "filter"@,
        TransformKind::Derive => "derive"@,
        TransformKind::Aggregate => "aggregate"@,
        TransformKind::Sort => "sort"@,
        TransformKind::Take => "take"@,
        TransformKind::Join => "join"@,
        TransformKind::Group => "group"@,
    }
}

/// The binding at `i` is the latest of its name, so lookup finds it.
proof fn lemma_lookup_latest(bs: Seq<Binding>, i: int, n: Seq<char>)
    requires
        0 <= i < bs.len(),
        bs[i].name@ == n,
        forall|j: int| i < j < bs.len() ==> bs[j].name@ != n,
    ensures
        lookup(bs, n) == Some(bs[i].id),
    decreases bs.len(),
{
    if bs.len() - 1 != i {
        assert(bs.last() == bs[bs.len() - 1]);
        lemma_lookup_latest(bs.drop_last(), i, n);
    }
}

/// `c` binds the operator's name to its standard declaration.
pub open spec fn binds_transform(c: ContextView, k: TransformKind) -> bool {
    match lookup(c.bindings, transform_name(k)) {
        Some(id) => id < c.decls.len() && c.decls[id as int] is Transform && c.decls[id as int]->Transform_kind == k,
        None => false,
    }
}

/// The operator declared at position `i` of the standard library.
pub open spec fn std_kind(i: int) -> TransformKind {
    if i == 0 {
        TransformKind::From
    } else if i == 1 {
        TransformKind::Select
    } else if i == 2 {
        TransformKind::Filter
    } else if i == 3 {
        TransformKind::Derive
    } else if i == 4 {
        TransformKind::Aggregate
    } else if i == 5 {
        TransformKind::Sort
    } else if i == 6 {
        TransformKind::Take
    } else if i == 7 {
        TransformKind::Join
    } else {
        TransformKind::Group
    }
}

/// The parameter names the standard library gives an operator.
pub open spec fn std_params(k: TransformKind) -> Seq<Seq<char>> {
    match k {
        TransformKind::From => seq!["table"@],
        TransformKind::Filter => seq!["condition"@],
        TransformKind::Sort | TransformKind::Group => seq!["by"@],
        TransformKind::Take => seq!["count"@],
        TransformKind::Join => seq!["with"@, "condition"@],
        _ => seq!["columns"@],
    }
}

/// The names of a list of strings.
pub open spec fn names_of(v: Seq<String>) -> Seq<Seq<char>> {
    v.map_values(|s: String| s@)
}

/// A context that holds exactly the standard library: the nine operators in
/// a fixed order, each declared once with its parameter names and bound under
/// its name at the outermost level.
pub open spec fn is_std_lib(c: ContextView) -> bool {
    c.depth == 0 && c.decls.len() == 9 && c.bindings.len() == 9 && (forall|k: TransformKind|
        #[trigger] binds_transform(c, k)) && forall|i: int|
        #![trigger c.decls[i]]
        0 <= i < 9 ==> c.bindings[i].name@ == transform_name(std_kind(i)) && c.bindings[i].id == i
            && c.bindings[i].depth == 0 && c.decls[i] is Transform && c.decls[i]->Transform_kind
            == std_kind(i) && names_of(c.decls[i]->Transform_params@) == std_params(std_kind(i))
}

/// Any two standard-library contexts agree in every name, id, operator and
/// parameter name: loading the library always gives the same environment.
pub proof fn lemma_std_lib_unique(c1: ContextView, c2: ContextView)
    requires
        is_std_lib(c1),
        is_std_lib(c2),
    ensures
        c1.depth == c2.depth,
        c1.decls.len() == c2.decls.len(),
        c1.bindings.len() == c2.bindings.len(),
        forall|i: int|
            #![trigger c1.decls[i], c2.decls[i]]
            0 <= i < c1.decls.len() ==> c1.bindings[i].name@ == c2.bindings[i].name@ && c1.bindings[i].id
                == c2.bindings[i].id && c1.bindings[i].depth == c2.bindings[i].depth
                && c1.decls[i]->Transform_kind == c2.decls[i]->Transform_kind && names_of(
                c1.decls[i]->Transform_params@,
            ) == names_of(c2.decls[i]->Transform_params@),
{
    assert forall|i: int| 0 <= i < c1.decls.len() implies c1.bindings[i].name@ == c2.bindings[i].name@
        && c1.bindings[i].id == c2.bindings[i].id && c1.bindings[i].depth == c2.bindings[i].depth
        && c1.decls[i]->Transform_kind == c2.decls[i]->Transform_kind && names_of(
        c1.decls[i]->Transform_params@,
    ) == names_of(c2.decls[i]->Transform_params@) by {
        assert(c1.decls[i] is Transform);
        assert(c2.decls[i] is Transform);
    }
}

fn declare_transform(ctx: &mut Context, name: &str, kind: TransformKind, params: Vec<String>)
    requires
        old(ctx)@.decls.len() < usize::MAX,
    ensures
        final(ctx)@.decls.last()->Transform_params == params,
        final(ctx)@.bindings.last().depth == old(ctx)@.depth,
        final(ctx)@.depth == old(ctx)@.depth,
        final(ctx)@.decls == old(ctx)@.decls.push(final(ctx)@.decls.last()),
        final(ctx)@.decls.last() is Transform,
        final(ctx)@.decls.last()->Transform_kind == kind,
        final(ctx)@.bindings == old(ctx)@.bindings.push(final(ctx)@.bindings.last()),
        final(ctx)@.bindings.last().name@ == name@,
        final(ctx)@.bindings.last().id == old(ctx)@.decls.len(),
{
    ctx.declare(name.to_owned(), Declaration::Transform { kind, params });
}

fn params_of(names: &[&str]) -> (r: Vec<String>)
    ensures
        r@.len() == names@.len(),
        forall|j: int| 0 <= j < r@.len() ==> (#[trigger] r@[j])@ == names@[j]@,
{
    let mut out: Vec<String> = Vec::new();
    let mut i: usize = 0;
    while i < names.len()
        invariant
            i <= names@.len(),
            out@.len() == i,
            forall|j: int| 0 <= j < i ==> (#[trigger] out@[j])@ == names@[j]@,
        decreases names@.len() - i,
    {
        out.push(names[i].to_owned());
        i = i + 1;
    }
    out
}

/// Declares the relational operators in a fresh context.
pub fn load_std_lib() -> (r: Context)
    ensures
        is_std_lib(r@),
{
    let mut ctx = Context::new();
    declare_transform(&mut ctx, "from", TransformKind::From, params_of(&["table"]));
    declare_transform(&mut ctx, "select", TransformKind::Select, params_of(&["columns"]));
    declare_transform(&mut ctx, "filter", TransformKind::Filter, params_of(&["condition"]));
    declare_transform(&mut ctx, "derive", TransformKind::Derive, params_of(&["columns"]));
    declare_transform(&mut ctx, "aggregate", TransformKind::Aggregate, params_of(&["columns"]));
    declare_transform(&mut ctx, "sort", TransformKind::Sort, params_of(&["by"]));
    declare_transform(&mut ctx, "take", TransformKind::Take, params_of(&["count"]));
    declare_transform(&mut ctx, "join", TransformKind::Join, params_of(&["with", "condition"]));
    declare_transform(&mut ctx, "group", TransformKind::Group, params_of(&["by"]));
    proof {
        reveal_strlit("from");
        reveal_strlit("select");
        reveal_strlit("filter");
        reveal_strlit("derive");
        reveal_strlit("aggregate");
        reveal_strlit("sort");
        reveal_strlit("take");
        reveal_strlit("join");
        reveal_strlit("group");
        let c = ctx@;
        let b = c.bindings;
        assert(b.len() == 9);
        assert(names_of(c.decls[0]->Transform_params@) =~= seq!["table"@]);
        assert(names_of(c.decls[1]->Transform_params@) =~= seq!["columns"@]);
        assert(names_of(c.decls[2]->Transform_params@) =~= seq!["condition"@]);
        assert(names_of(c.decls[3]->Transform_params@) =~= seq!["columns"@]);
        assert(names_of(c.decls[4]->Transform_params@) =~= seq!["columns"@]);
        assert(names_of(c.decls[5]->Transform_params@) =~= seq!["by"@]);
        assert(names_of(c.decls[6]->Transform_params@) =~= seq!["count"@]);
        assert(names_of(c.decls[7]->Transform_params@) =~= seq!["with"@, "condition"@]);
        assert(names_of(c.decls[8]->Transform_params@) =~= seq!["by"@]);
        assert(b[0].name@ == "from"@ && b[0].id == 0 && c.decls[0]->Transform_kind == TransformKind::From);
        assert(b[1].name@ == "select"@ && b[1].id == 1 && c.decls[1]->Transform_kind == TransformKind::Select);
        assert(b[2].name@ == "filter"@ && b[2].id == 2 && c.decls[2]->Transform_kind == TransformKind::Filter);
        assert(b[3].name@ == "derive"@ && b[3].id == 3 && c.decls[3]->Transform_kind == TransformKind::Derive);
        assert(b[4].name@ == "aggregate"@ && b[4].id == 4 && c.decls[4]->Transform_kind == TransformKind::Aggregate);
        assert(b[5].name@ == "sort"@ && b[5].id == 5 && c.decls[5]->Transform_kind == TransformKind::Sort);
        assert(b[6].name@ == "take"@ && b[6].id == 6 && c.decls[6]->Transform_kind == TransformKind::Take);
        assert(b[7].name@ == "join"@ && b[7].id == 7 && c.decls[7]->Transform_kind == TransformKind::Join);
        assert(b[8].name@ == "group"@ && b[8].id == 8 && c.decls[8]->Transform_kind == TransformKind::Group);
        assert forall|k: TransformKind| #[trigger] binds_transform(c, k) by {
            let i: int = match k {
                TransformKind::From => 0,
                TransformKind::Select => 1,
                TransformKind::Filter => 2,
                TransformKind::Derive => 3,
                TransformKind::Aggregate => 4,
                TransformKind::Sort => 5,
                TransformKind::Take => 6,
                TransformKind::Join => 7,
                TransformKind::Group => 8,
            };
            assert forall|j: int| i < j < b.len() implies b[j].name@ != transform_name(k) by {
                assert(b[j].name@.len() != transform_name(k).len() || b[j].name@[0] != transform_name(k)[0]
                    || b[j].name@[1] != transform_name(k)[1]);
            }
            lemma_lookup_latest(b, i, transform_name(k));
        }
    }
    ctx
}

} // verus!
