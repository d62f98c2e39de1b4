use vstd::prelude::*;
use crate::ir::{copy_frame, FrameColumn, Node, Query};

verus! {

/// The frame after each pipeline step, with the step's position.
pub fn collect_frames(q: &Query) -> (r: Vec<(usize, Vec<FrameColumn>)>)
    ensures
        r@.len() == q.main_pipeline@.len(),
        forall|i: int|
            0 <= i < r@.len() ==> (#[trigger] r@[i]).0 == i && r@[i].1@ == q.main_pipeline@[i].frame@,
{
    let mut out: Vec<(usize, Vec<FrameColumn>)> = Vec::new();
    let mut i: usize = 0;
    while i < q.main_pipeline.len()
        invariant
            i <= q.main_pipeline@.len(),
            out@.len() == i,
            forall|j: int|
                0 <= j < i ==> (#[trigger] out@[j]).0 == j && out@[j].1@ == q.main_pipeline@[j].frame@,
        decreases q.main_pipeline@.len() - i,
    {
        out.push((i, copy_frame(&q.main_pipeline[i].frame)));
        i = i + 1;
    }
    out
}

/// The declaration each of a node's expressions refers to: its arguments
/// first, then its frame's columns.
pub open spec fn node_labels(n: Node) -> Seq<Option<usize>> {
    n.args@.map_values(|e: crate::ir::ColumnExpr| e.decl_ref()) + n.frame@.map_values(
        |c: FrameColumn| c.expr.decl_ref(),
    )
}

fn labels_of(n: &Node) -> (r: Vec<Option<usize>>)
    ensures
        r@ == node_labels(*n),
{
    let mut out: Vec<Option<usize>> = Vec::new();
    let mut i: usize = 0;
    while i < n.args.len()
        invariant
            i <= n.args@.len(),
            out@ == n.args@.subrange(0, i as int).map_values(|e: crate::ir::ColumnExpr| e.decl_ref()),
        decreases n.args@.len() - i,
    {
        let l = match &n.args[i] {
            crate::ir::ColumnExpr::Decl(id) => Some(*id),
            _ => None,
        };
        out.push(l);
        proof {
            assert(n.args@.subrange(0, i + 1).map_values(|e: crate::ir::ColumnExpr| e.decl_ref()) =~= n.args@.subrange(
                0,
                i as int,
            ).map_values(|e: crate::ir::ColumnExpr| e.decl_ref()).push(l));
        }
        i = i + 1;
    }
    let ghost na = out@;
    let mut k: usize = 0;
    while k < n.frame.len()
        invariant
            k <= n.frame@.len(),
            out@ == na + n.frame@.subrange(0, k as int).map_values(|c: FrameColumn| c.expr.decl_ref()),
        decreases n.frame@.len() - k,
    {
        let l = match &n.frame[k].expr {
            crate::ir::ColumnExpr::Decl(id) => Some(*id),
            _ => None,
        };
        out.push(l);
        proof {
            assert(n.frame@.subrange(0, k + 1).map_values(|c: FrameColumn| c.expr.decl_ref()) =~= n.frame@.subrange(
                0,
                k as int,
            ).map_values(|c: FrameColumn| c.expr.decl_ref()).push(l));
        }
        k = k + 1;
    }
    proof {
        assert(n.args@.subrange(0, n.args@.len() as int) =~= n.args@);
        assert(n.frame@.subrange(0, n.frame@.len() as int) =~= n.frame@);
    }
    out
}

/// For each pipeline node, the declaration that each of its expressions
/// refers to, or `None` where it refers to none.
pub fn label_references(q: &Query) -> (r: Vec<Vec<Option<usize>>>)
    ensures
        r@.len() == q.main_pipeline@.len(),
        forall|i: int| 0 <= i < r@.len() ==> (#[trigger] r@[i])@ == node_labels(q.main_pipeline@[i]),
{
    let mut out: Vec<Vec<Option<usize>>> = Vec::new();
    let mut i: usize = 0;
    while i < q.main_pipeline.len()
        invariant
            i <= q.main_pipeline@.len(),
            out@.len() == i,
            forall|j: int| 0 <= j < i ==> (#[trigger] out@[j])@ == node_labels(q.main_pipeline@[j]),
        decreases q.main_pipeline@.len() - i,
    {
        out.push(labels_of(&q.main_pipeline[i]));
        i = i + 1;
    }
    out
}

} // verus!
