//! Laws of the editing core, stated once for all states and proved.
//!
//! Every session operation ensures that the graph stays well-formed
//! ([`PlanarGraph::wf`]), so a law proved of every well-formed graph holds
//! of every graph reachable by any sequence of core operations.

use vstd::prelude::*;
use crate::geom::COORD_LIMIT;
use crate::geom::Vec2;
use crate::geom::clamp_coord;
use crate::graph::PlanarGraph;
use crate::graph::has_key;
use crate::graph::lemma_key_at;
use crate::graph::lemma_occ_contains;
use crate::graph::nbs;
use crate::graph::occ;
use crate::graph::parts_error;
use crate::graph::vhas;
use crate::session::DrawOutcome;
use crate::session::PendPoint;
use crate::session::Vecdraw;
use crate::session::finish_draw_post;
use crate::session::lemma_moved_verts;
use crate::session::move_select_post;
use crate::session::moved_verts;
use crate::session::resolve_pt;

verus! {

/// Adjacency symmetry: in a well-formed graph — and every operation keeps
/// the graph well-formed — `b` is listed among the neighbors of `a` exactly
/// when `a` is listed among the neighbors of `b`.
pub proof fn lemma_adjacency_symmetric(g: PlanarGraph, a: u64, b: u64)
    requires
        g.wf(),
    ensures
        g.neighbors(a).contains(b) <==> g.neighbors(b).contains(a),
{
    lemma_occ_contains(g.neighbors(a), b);
    lemma_occ_contains(g.neighbors(b), a);
    assert(occ(g.neighbors(a), b) == occ(g.neighbors(b), a));
}

/// No duplicate edges: in a well-formed graph, an unordered pair of
/// distinct vertices is connected at most once — `b` occurs at most once in
/// the neighbor list of `a`.  (For the two endpoints of a permitted
/// degenerate self loop the pair is not distinct: such a loop lists its own
/// vertex twice in its single list, once per direction.)
pub proof fn lemma_no_duplicate_edges(g: PlanarGraph, a: u64, b: u64)
    requires
        g.wf(),
        a != b,
    ensures
        occ(g.neighbors(a), b) <= 1,
{
}

/// Persistence round trip: the persisted parts of a well-formed graph —
/// its vertices, adjacency and edge attributes — pass validation, so
/// [`PlanarGraph::from_parts`] accepts them back unchanged.  (The derived
/// faces and border set are a cache and are not persisted.)
pub proof fn lemma_parts_round_trip(g: PlanarGraph)
    requires
        g.wf(),
    ensures
        parts_error(g.verts@, g.amodel(), g.dcs@) is None,
{
    let m = g.amodel();
    assert forall|i: int| 0 <= i < g.verts@.len() implies (#[trigger] g.verts@[i]).id
        < u64::MAX by {
        assert(g.verts@[i].id < g.next_id);
    }
    assert forall|i: int| 0 <= i < m.len() implies vhas(g.verts@, (#[trigger] m[i]).0) by {
        assert(has_key(m, m[i].0)) by {
            assert((#[trigger] m[i]).0 == m[i].0);
        }
    }
    assert forall|i: int, j: int| 0 <= i < m.len() && 0 <= j < m[i].1.len() implies vhas(
        g.verts@,
        #[trigger] m[i].1[j],
    ) by {
        lemma_key_at(m, i);
        assert(nbs(m, m[i].0) == m[i].1);
        assert(g.has_vert(nbs(m, m[i].0)[j]));
    }
}

/// Move delta accumulation: two pointer samples starting with no drag
/// anchor displace a selected vertex by exactly the difference of the two
/// samples — the first sample only plants the anchor — provided no
/// coordinate reaches the clamping range.
pub proof fn lemma_move_delta_accumulation(
    s0: Vecdraw,
    s1: Vecdraw,
    s2: Vecdraw,
    p1: Vec2,
    p2: Vec2,
    v: u64,
)
    requires
        s0.inv(),
        s0.move_anchor is None,
        move_select_post(s0, s1, p1),
        move_select_post(s1, s2, p2),
        s0.selected@.contains(v),
        s0.graph.has_vert(v),
        -COORD_LIMIT <= s0.graph.vert_of(v).pos.x + (p2.x - p1.x) <= COORD_LIMIT,
        -COORD_LIMIT <= s0.graph.vert_of(v).pos.y + (p2.y - p1.y) <= COORD_LIMIT,
    ensures
        s2.graph.has_vert(v),
        s2.graph.vert_of(v).pos.x == s0.graph.vert_of(v).pos.x + (p2.x - p1.x),
        s2.graph.vert_of(v).pos.y == s0.graph.vert_of(v).pos.y + (p2.y - p1.y),
{
    assert(s1.graph == s0.graph);
    assert(s1.move_anchor == Some(p1));
    assert(s1.selected@ == s0.selected@);
    let dx = p2.x - p1.x;
    let dy = p2.y - p1.y;
    assert(s2.graph.verts@ == moved_verts(s1.graph.verts@, s1.selected@, dx as int, dy as int));
    lemma_moved_verts(s1.graph.verts@, s1.selected@, dx as int, dy as int);
    assert(s2.graph.vert_of(v).pos.x == clamp_coord(s0.graph.vert_of(v).pos.x + dx));
    assert(s2.graph.vert_of(v).pos.y == clamp_coord(s0.graph.vert_of(v).pos.y + dy));
}

/// Duplicate-edge rejection: committing a draw gesture whose two pending
/// points name two already-connected existing vertices reports the
/// duplicate and leaves the whole graph unchanged — vertex map, adjacency,
/// attributes, derived caches, and even the identifier counter, since no
/// point was new.
pub proof fn lemma_duplicate_edge_rejected(
    s0: Vecdraw,
    s1: Vecdraw,
    r: DrawOutcome,
    a: u64,
    b: u64,
)
    requires
        s0.inv(),
        s0.drawing@ == seq![PendPoint::Exist(a), PendPoint::Exist(b)],
        s0.graph.neighbors(a).contains(b) || s0.graph.neighbors(b).contains(a),
        finish_draw_post(s0, s1, r),
    ensures
        r == DrawOutcome::DuplicateEdge,
        s1.graph.verts@ == s0.graph.verts@,
        s1.graph.amodel() == s0.graph.amodel(),
        s1.graph.dcs@ == s0.graph.dcs@,
        s1.graph.faces@ == s0.graph.faces@,
        s1.graph.border@ == s0.graph.border@,
        s1.graph.next_id == s0.graph.next_id,
{
    assert(s0.drawing@.len() == 2);
    assert(s0.drawing@[0] == PendPoint::Exist(a));
    assert(s0.drawing@[1] == PendPoint::Exist(b));
    assert(resolve_pt(s0.drawing@[0], s0.graph.next_id) == a);
}

} // verus!
