//! The edit session: a planar graph plus all transient interaction state,
//! with one operation per user intent.
//!
//! Transient state comprises the pending draw points (at most two), the
//! selection-rectangle corners (at most two), the selection set, the snap
//! highlight, the drag anchor and the active edge-attribute value.  The
//! session invariant [`Vecdraw::inv`] keeps every transient reference to a
//! vertex alive: no operation can leave a dangling identifier behind.

use vstd::prelude::*;
use crate::geom::Vec2;
use crate::geom::SNAP_RADIUS;
use crate::geom::clamp_coord;
use crate::geom::clamped_add;
use crate::geom::dist_sq;
use crate::geom::dist_sq_exec;
use crate::geom::inside_rect;
use crate::graph::AdjModel;
use crate::graph::DcEntry;
use crate::graph::GraphError;
use crate::graph::PlanarGraph;
use crate::graph::Tri;
use crate::graph::VertEntry;
use crate::graph::Vertex;
use crate::graph::list_has;
use crate::graph::occ;
use crate::graph::push_nb;
use crate::graph::scrub;
use crate::graph::vget;
use crate::graph::vhas;
use crate::graph::verts_without;
use crate::graph::vunique;

verus! {

/// A pending draw point: a snapped existing vertex, or a new position.
#[derive(Clone, Copy, PartialEq, Eq, Structural, Debug)]
pub enum PendPoint {
    Exist(u64),
    New(Vec2),
}

/// The outcome of committing a draw gesture.
#[derive(Clone, Copy, PartialEq, Eq, Structural, Debug)]
pub enum DrawOutcome {
    /// Fewer than two points were pending; nothing was committed.
    Incomplete,
    /// The two resolved identifiers were already connected; nothing was
    /// created.
    DuplicateEdge,
    /// An edge was created between these two identifiers.
    Connected(u64, u64),
}

/// No identifier is listed twice.
pub open spec fn ids_unique(s: Seq<u64>) -> bool {
    forall|i: int, j: int| 0 <= i < j < s.len() ==> s[i] != s[j]
}

/// The snap scan over the first `n` vertex entries: the current best
/// highlight and the distance bound it beat.  The bound starts at the
/// squared capture radius and only a strictly smaller distance takes over,
/// so the earliest vertex at the minimal distance wins and a vertex exactly
/// at the radius is not captured.
pub open spec fn snap_state(vs: Seq<VertEntry>, w: Vec2, n: int) -> (Option<u64>, int)
    decreases n,
{
    if n <= 0 {
        (None, SNAP_RADIUS * SNAP_RADIUS)
    } else {
        let prev = snap_state(vs, w, n - 1);
        let d = dist_sq(vs[n - 1].v.pos, w);
        if d < prev.1 {
            (Some(vs[n - 1].id), d)
        } else {
            prev
        }
    }
}

/// The snap result over the whole vertex map.
pub open spec fn snap_spec(vs: Seq<VertEntry>, w: Vec2) -> Option<u64> {
    snap_state(vs, w, vs.len() as int).0
}

/// What the snap scan guarantees: the bound never exceeds the squared
/// radius; without a winner every vertex is at least the radius away; a
/// winner is a vertex strictly inside the radius at the minimal distance.
pub proof fn lemma_snap_state(vs: Seq<VertEntry>, w: Vec2, n: int)
    requires
        0 <= n <= vs.len(),
    ensures
        ({
            let st = snap_state(vs, w, n);
            &&& st.1 <= SNAP_RADIUS * SNAP_RADIUS
            &&& (st.0 is None ==> st.1 == SNAP_RADIUS * SNAP_RADIUS && (forall|i: int|
                0 <= i < n ==> dist_sq((#[trigger] vs[i]).v.pos, w) >= SNAP_RADIUS * SNAP_RADIUS))
            &&& (st.0 is Some ==> (exists|i: int|
                0 <= i < n && (#[trigger] vs[i]).id == st.0->Some_0 && dist_sq(vs[i].v.pos, w)
                    == st.1) && st.1 < SNAP_RADIUS * SNAP_RADIUS && (forall|i: int|
                0 <= i < n ==> dist_sq((#[trigger] vs[i]).v.pos, w) >= st.1))
        }),
    decreases n,
{
    if n > 0 {
        lemma_snap_state(vs, w, n - 1);
    }
}

/// The identifiers of the vertices strictly inside the rectangle spanned by
/// `c1` and `c2`, in vertex-map order.
pub open spec fn sel_spec(vs: Seq<VertEntry>, c1: Vec2, c2: Vec2) -> Seq<u64>
    decreases vs.len(),
{
    if vs.len() == 0 {
        Seq::empty()
    } else {
        let rest = sel_spec(vs.drop_last(), c1, c2);
        if inside_rect(vs.last().v.pos, c1, c2) {
            rest.push(vs.last().id)
        } else {
            rest
        }
    }
}

/// Membership and uniqueness of the rectangle selection.
pub proof fn lemma_sel_spec(vs: Seq<VertEntry>, c1: Vec2, c2: Vec2)
    requires
        vunique(vs),
    ensures
        ids_unique(sel_spec(vs, c1, c2)),
        forall|id: u64|
            #[trigger] sel_spec(vs, c1, c2).contains(id) <==> (vhas(vs, id) && inside_rect(
                vget(vs, id).pos,
                c1,
                c2,
            )),
    decreases vs.len(),
{
    let sel = sel_spec(vs, c1, c2);
    if vs.len() == 0 {
        assert forall|id: u64| #[trigger] sel.contains(id) <==> (vhas(vs, id) && inside_rect(
            vget(vs, id).pos,
            c1,
            c2,
        )) by {
            if sel.contains(id) {
                let i = choose|i: int| 0 <= i < sel.len() && sel[i] == id;
            }
        }
    } else {
        let t = vs.drop_last();
        assert(vunique(t)) by {
            assert forall|i: int, j: int| 0 <= i < j < t.len() implies (#[trigger] t[i]).id != (
            #[trigger] t[j]).id by {
                assert(t[i] == vs[i] && t[j] == vs[j]);
            }
        }
        lemma_sel_spec(t, c1, c2);
        let selt = sel_spec(t, c1, c2);
        let e = vs.last();
        // relate membership in vs with membership in t plus the last entry
        assert forall|id: u64| #[trigger] vhas(vs, id) implies (vhas(t, id) || e.id == id) by {
            let i = choose|i: int| 0 <= i < vs.len() && (#[trigger] vs[i]).id == id;
            if i < vs.len() - 1 {
                assert(t[i] == vs[i]);
            }
        }
        assert forall|id: u64| vhas(t, id) implies #[trigger] vhas(vs, id) by {
            let i = choose|i: int| 0 <= i < t.len() && (#[trigger] t[i]).id == id;
            assert(vs[i] == t[i]);
        }
        assert(!vhas(t, e.id)) by {
            if vhas(t, e.id) {
                let i = choose|i: int| 0 <= i < t.len() && (#[trigger] t[i]).id == e.id;
                assert(vs[i].id == e.id && vs[vs.len() - 1].id == e.id);
                assert(false);
            }
        }
        assert forall|id: u64| vhas(t, id) implies #[trigger] vget(vs, id) == vget(t, id) by {
            let i = crate::graph::vidx(t, id);
            crate::graph::lemma_ventry_at(t, i);
            assert(vs[i] == t[i]);
            crate::graph::lemma_ventry_at(vs, i);
        }
        if inside_rect(e.v.pos, c1, c2) {
            assert(sel == selt.push(e.id));
            assert(ids_unique(sel)) by {
                assert forall|i: int, j: int| 0 <= i < j < sel.len() implies sel[i] != sel[j] by {
                    if j == sel.len() - 1 {
                        assert(sel[i] == selt[i]);
                        assert(selt.contains(selt[i]));
                        if selt[i] == e.id {
                            assert(vhas(t, e.id));
                        }
                    } else {
                        assert(sel[i] == selt[i] && sel[j] == selt[j]);
                    }
                }
            }
            assert forall|id: u64| #[trigger] sel.contains(id) <==> (vhas(vs, id) && inside_rect(
                vget(vs, id).pos,
                c1,
                c2,
            )) by {
                crate::graph::lemma_ventry_at(vs, vs.len() - 1);
                if sel.contains(id) {
                    let i = choose|i: int| 0 <= i < sel.len() && sel[i] == id;
                    if i < sel.len() - 1 {
                        assert(selt[i] == id);
                        assert(selt.contains(id));
                    } else {
                        assert(id == e.id);
                        assert(vget(vs, e.id) == e.v);
                    }
                }
                if vhas(vs, id) && inside_rect(vget(vs, id).pos, c1, c2) {
                    if id == e.id {
                        assert(sel[sel.len() - 1] == id);
                    } else {
                        assert(vhas(t, id));
                        assert(vget(vs, id) == vget(t, id));
                        assert(selt.contains(id));
                        let i = choose|i: int| 0 <= i < selt.len() && selt[i] == id;
                        assert(sel[i] == id);
                    }
                }
            }
        } else {
            assert(sel == selt);
            assert forall|id: u64| #[trigger] sel.contains(id) <==> (vhas(vs, id) && inside_rect(
                vget(vs, id).pos,
                c1,
                c2,
            )) by {
                crate::graph::lemma_ventry_at(vs, vs.len() - 1);
                if sel.contains(id) {
                    assert(selt.contains(id));
                    assert(vhas(t, id));
                    assert(vget(vs, id) == vget(t, id));
                }
                if vhas(vs, id) && inside_rect(vget(vs, id).pos, c1, c2) {
                    if id == e.id {
                        assert(vget(vs, e.id) == e.v);
                        assert(false);
                    } else {
                        assert(vhas(t, id));
                        assert(vget(vs, id) == vget(t, id));
                    }
                }
            }
        }
    }
}

/// The vertex map after displacing every selected vertex by `(dx, dy)`,
/// each coordinate clamped to the representable range.
pub open spec fn moved_verts(vs: Seq<VertEntry>, sel: Seq<u64>, dx: int, dy: int) -> Seq<
    VertEntry,
> {
    vs.map_values(
        |e: VertEntry|
            if sel.contains(e.id) {
                VertEntry {
                    id: e.id,
                    v: Vertex {
                        pos: Vec2 {
                            x: clamp_coord(e.v.pos.x + dx) as i64,
                            y: clamp_coord(e.v.pos.y + dy) as i64,
                        },
                        tex: e.v.tex,
                        im: e.v.im,
                    },
                }
            } else {
                e
            },
    )
}

/// Displacement keeps identifiers, records of unselected vertices, and the
/// texture and mass fields; selected positions move, clamped.
pub proof fn lemma_moved_verts(vs: Seq<VertEntry>, sel: Seq<u64>, dx: int, dy: int)
    requires
        vunique(vs),
    ensures
        vunique(moved_verts(vs, sel, dx, dy)),
        moved_verts(vs, sel, dx, dy).len() == vs.len(),
        forall|id: u64| #[trigger] vhas(moved_verts(vs, sel, dx, dy), id) <==> vhas(vs, id),
        forall|id: u64|
            vhas(vs, id) && sel.contains(id) ==> #[trigger] vget(moved_verts(vs, sel, dx, dy), id)
                == (Vertex {
                pos: Vec2 {
                    x: clamp_coord(vget(vs, id).pos.x + dx) as i64,
                    y: clamp_coord(vget(vs, id).pos.y + dy) as i64,
                },
                tex: vget(vs, id).tex,
                im: vget(vs, id).im,
            }),
        forall|id: u64|
            vhas(vs, id) && !sel.contains(id) ==> #[trigger] vget(moved_verts(vs, sel, dx, dy), id)
                == vget(vs, id),
{
    let mv = moved_verts(vs, sel, dx, dy);
    assert(forall|i: int| 0 <= i < vs.len() ==> (#[trigger] mv[i]).id == vs[i].id);
    assert forall|id: u64| #[trigger] vhas(mv, id) <==> vhas(vs, id) by {
        if vhas(mv, id) {
            let i = choose|i: int| 0 <= i < mv.len() && (#[trigger] mv[i]).id == id;
            assert(vs[i].id == id);
        }
        if vhas(vs, id) {
            let i = choose|i: int| 0 <= i < vs.len() && (#[trigger] vs[i]).id == id;
            assert(mv[i].id == id);
        }
    }
    assert forall|id: u64| vhas(vs, id) implies (#[trigger] vget(mv, id) == (if sel.contains(
        id,
    ) {
        Vertex {
            pos: Vec2 {
                x: clamp_coord(vget(vs, id).pos.x + dx) as i64,
                y: clamp_coord(vget(vs, id).pos.y + dy) as i64,
            },
            tex: vget(vs, id).tex,
            im: vget(vs, id).im,
        }
    } else {
        vget(vs, id)
    })) by {
        let i = crate::graph::vidx(vs, id);
        crate::graph::lemma_ventry_at(vs, i);
        crate::graph::lemma_ventry_at(mv, i);
        assert(mv[i].id == id);
    }
}

/// The vertex map after removing the first `k` of the listed identifiers,
/// in order.
pub open spec fn del_verts(vs: Seq<VertEntry>, ids: Seq<u64>, k: int) -> Seq<VertEntry>
    decreases k,
{
    if k <= 0 {
        vs
    } else {
        verts_without(del_verts(vs, ids, k - 1), ids[k - 1])
    }
}

/// The adjacency after scrubbing the first `k` of the listed identifiers,
/// in order.
pub open spec fn del_adj(m: AdjModel, ids: Seq<u64>, k: int) -> AdjModel
    decreases k,
{
    if k <= 0 {
        m
    } else {
        scrub(del_adj(m, ids, k - 1), ids[k - 1])
    }
}

/// A pending point survives a deletion when it is a new position or an
/// existing vertex that was not selected.
pub open spec fn keep_pend(p: PendPoint, sel: Seq<u64>) -> bool {
    match p {
        PendPoint::Exist(id) => !sel.contains(id),
        PendPoint::New(_) => true,
    }
}

/// The pending points that survive a deletion, in order.
pub open spec fn prune_pend(d: Seq<PendPoint>, sel: Seq<u64>) -> Seq<PendPoint>
    decreases d.len(),
{
    if d.len() == 0 {
        d
    } else {
        let rest = prune_pend(d.drop_last(), sel);
        if keep_pend(d.last(), sel) {
            rest.push(d.last())
        } else {
            rest
        }
    }
}

/// How many fresh identifiers committing the pending points would
/// allocate: one per new point, and none at all unless exactly two points
/// are pending.
pub open spec fn pend_allocs(d: Seq<PendPoint>) -> int {
    if d.len() != 2 {
        0
    } else {
        (if d[0] is New {
            1int
        } else {
            0int
        }) + (if d[1] is New {
            1int
        } else {
            0int
        })
    }
}

/// The identifier a pending point resolves to: an existing point keeps its
/// own, a new point takes the next fresh identifier.
pub open spec fn resolve_pt(p: PendPoint, next: u64) -> u64 {
    match p {
        PendPoint::Exist(id) => id,
        PendPoint::New(_) => next,
    }
}

/// The vertex map after committing one pending point: a new point is
/// inserted at its clicked position, an existing point is left untouched.
pub open spec fn commit_verts(vs: Seq<VertEntry>, p: PendPoint, id: u64) -> Seq<VertEntry> {
    match p {
        PendPoint::New(w) => vs.push(
            VertEntry { id, v: Vertex { pos: w, tex: w, im: crate::geom::SCALE } },
        ),
        PendPoint::Exist(_) => vs,
    }
}

/// The edge attributes after stamping `v` onto every edge whose both
/// endpoints are selected.
pub open spec fn stamp_dcs(d: Seq<DcEntry>, sel: Seq<u64>, v: i64) -> Seq<DcEntry> {
    d.map_values(
        |e: DcEntry|
            if sel.contains(e.a) && sel.contains(e.b) {
                DcEntry { a: e.a, b: e.b, val: v }
            } else {
                e
            },
    )
}

/// Every face corner names a live vertex of `vs`.
pub open spec fn faces_live(vs: Seq<VertEntry>, fs: Seq<Tri>) -> bool {
    forall|i: int|
        0 <= i < fs.len() ==> (vhas(vs, (#[trigger] fs[i]).a) && vhas(vs, fs[i].b) && vhas(
            vs,
            fs[i].c,
        ))
}

/// Every border flag names a live vertex of `vs`.
pub open spec fn border_live(vs: Seq<VertEntry>, bs: Seq<u64>) -> bool {
    forall|i: int| 0 <= i < bs.len() ==> vhas(vs, #[trigger] bs[i])
}

/// What one snap recomputation does: the highlight becomes the scan result
/// over the (unchanged) vertex map — a vertex strictly inside the capture
/// radius at the minimal distance, or nothing — and all else stays.
pub open spec fn snap_post(pre: Vecdraw, post: Vecdraw, w: Vec2) -> bool {
    &&& post.snap_highlight == snap_spec(pre.graph.verts@, w)
    &&& (match post.snap_highlight {
        Some(id) => post.graph.has_vert(id) && dist_sq(post.graph.vert_of(id).pos, w)
            < SNAP_RADIUS * SNAP_RADIUS && (forall|i: int|
            0 <= i < post.graph.verts@.len() ==> dist_sq((#[trigger] post.graph.verts@[i]).v.pos, w)
                >= dist_sq(post.graph.vert_of(id).pos, w)),
        None => forall|i: int|
            0 <= i < post.graph.verts@.len() ==> dist_sq((#[trigger] post.graph.verts@[i]).v.pos, w)
                >= SNAP_RADIUS * SNAP_RADIUS,
    })
    &&& post.graph == pre.graph
    &&& post.drawing@ == pre.drawing@
    &&& post.select_range@ == pre.select_range@
    &&& post.selected@ == pre.selected@
    &&& post.move_anchor == pre.move_anchor
    &&& post.dc == pre.dc
}

/// What committing a rectangle selection does: with two corners the
/// selection becomes exactly the vertices strictly inside the spanned box,
/// otherwise it empties; the rectangle clears, and all else stays.
pub open spec fn finish_select_post(pre: Vecdraw, post: Vecdraw) -> bool {
    &&& post.selected@ == (if pre.select_range@.len() == 2 {
        sel_spec(pre.graph.verts@, pre.select_range@[0], pre.select_range@[1])
    } else {
        Seq::<u64>::empty()
    })
    &&& (pre.select_range@.len() == 2 ==> (forall|id: u64|
        #[trigger] post.selected@.contains(id) <==> (pre.graph.has_vert(id) && inside_rect(
            pre.graph.vert_of(id).pos,
            pre.select_range@[0],
            pre.select_range@[1],
        ))))
    &&& post.select_range@ == Seq::<Vec2>::empty()
    &&& post.graph == pre.graph
    &&& post.drawing@ == pre.drawing@
    &&& post.snap_highlight == pre.snap_highlight
    &&& post.move_anchor == pre.move_anchor
    &&& post.dc == pre.dc
}

/// What one move sample does: with an anchor, every selected vertex is
/// displaced by the sample minus the anchor (clamped); the anchor becomes
/// the sample; and all else stays.  Without an anchor only the anchor is
/// set.
pub open spec fn move_select_post(pre: Vecdraw, post: Vecdraw, o: Vec2) -> bool {
    &&& post.move_anchor == Some(o)
    &&& (match pre.move_anchor {
        None => post.graph == pre.graph,
        Some(prev) => {
            &&& post.graph.verts@ == moved_verts(
                pre.graph.verts@,
                pre.selected@,
                o.x - prev.x,
                o.y - prev.y,
            )
            &&& post.graph.adj@ == pre.graph.adj@
            &&& post.graph.dcs@ == pre.graph.dcs@
            &&& post.graph.faces@ == pre.graph.faces@
            &&& post.graph.border@ == pre.graph.border@
            &&& post.graph.next_id == pre.graph.next_id
        },
    })
    &&& post.drawing@ == pre.drawing@
    &&& post.select_range@ == pre.select_range@
    &&& post.snap_highlight == pre.snap_highlight
    &&& post.selected@ == pre.selected@
    &&& post.dc == pre.dc
}

/// What deleting the selection does: every selected vertex vanishes from
/// the vertex map and from every neighbor list, the derived caches and the
/// selection empty, unselected vertices survive untouched, and transient
/// references to deleted vertices are dropped.
pub open spec fn delete_select_post(pre: Vecdraw, post: Vecdraw) -> bool {
    &&& post.graph.verts@ == del_verts(
        pre.graph.verts@,
        pre.selected@,
        pre.selected@.len() as int,
    )
    &&& post.graph.amodel() == del_adj(
        pre.graph.amodel(),
        pre.selected@,
        pre.selected@.len() as int,
    )
    &&& post.graph.dcs@ == pre.graph.dcs@
    &&& post.graph.next_id == pre.graph.next_id
    &&& post.graph.faces@ == Seq::<Tri>::empty()
    &&& post.graph.border@ == Seq::<u64>::empty()
    &&& post.selected@ == Seq::<u64>::empty()
    &&& (forall|v: u64| pre.selected@.contains(v) ==> !(#[trigger] post.graph.has_vert(v)))
    &&& (forall|v: u64, c: u64|
        pre.selected@.contains(v) ==> #[trigger] occ(post.graph.neighbors(c), v) == 0)
    &&& (forall|c: u64|
        !pre.selected@.contains(c) ==> (#[trigger] post.graph.has_vert(c) <==> pre.graph.has_vert(
            c,
        )))
    &&& (forall|c: u64|
        !pre.selected@.contains(c) && pre.graph.has_vert(c) ==> #[trigger] post.graph.vert_of(c)
            == pre.graph.vert_of(c))
    &&& post.drawing@ == prune_pend(pre.drawing@, pre.selected@)
    &&& post.select_range@ == pre.select_range@
    &&& post.snap_highlight == (match pre.snap_highlight {
        Some(id) => if pre.selected@.contains(id) {
            None
        } else {
            Some(id)
        },
        None => None,
    })
    &&& post.move_anchor == pre.move_anchor
    &&& post.dc == pre.dc
}

/// What committing a draw gesture does.  With fewer than two pending
/// points, only the pending points clear.  With two, they resolve to
/// identifiers (new points take fresh ones, so the counter advances for
/// them in any case); an already-connected pair is rejected with nothing
/// created, otherwise new points are inserted at their positions and the
/// pair is connected symmetrically.
pub open spec fn finish_draw_post(pre: Vecdraw, post: Vecdraw, r: DrawOutcome) -> bool {
    &&& post.drawing@ == Seq::<PendPoint>::empty()
    &&& post.select_range@ == pre.select_range@
    &&& post.snap_highlight == pre.snap_highlight
    &&& post.selected@ == pre.selected@
    &&& post.move_anchor == pre.move_anchor
    &&& post.dc == pre.dc
    &&& post.graph.dcs@ == pre.graph.dcs@
    &&& (pre.drawing@.len() != 2 ==> (r == DrawOutcome::Incomplete && post.graph == pre.graph))
    &&& (pre.drawing@.len() == 2 ==> ({
        let g0 = pre.graph;
        let p0 = pre.drawing@[0];
        let p1 = pre.drawing@[1];
        let id1 = resolve_pt(p0, g0.next_id);
        let id2 = resolve_pt(
            p1,
            (g0.next_id + (if p0 is New {
                1u64
            } else {
                0u64
            })) as u64,
        );
        &&& post.graph.next_id == g0.next_id + (if p0 is New {
            1int
        } else {
            0int
        }) + (if p1 is New {
            1int
        } else {
            0int
        })
        &&& (if g0.neighbors(id1).contains(id2) || g0.neighbors(id2).contains(id1) {
            &&& r == DrawOutcome::DuplicateEdge
            &&& post.graph.verts@ == g0.verts@
            &&& post.graph.adj@ == g0.adj@
            &&& post.graph.amodel() == g0.amodel()
            &&& post.graph.faces@ == g0.faces@
            &&& post.graph.border@ == g0.border@
        } else {
            &&& r == DrawOutcome::Connected(id1, id2)
            &&& post.graph.verts@ == commit_verts(commit_verts(g0.verts@, p0, id1), p1, id2)
            &&& post.graph.amodel() == push_nb(push_nb(g0.amodel(), id1, id2), id2, id1)
            &&& post.graph.faces@ == g0.faces@
            &&& post.graph.border@ == g0.border@
            &&& (id1 != id2 ==> post.graph.neighbors(id1) == g0.neighbors(id1).push(id2))
            &&& (id1 != id2 ==> post.graph.neighbors(id2) == g0.neighbors(id2).push(id1))
            &&& (id1 == id2 ==> post.graph.neighbors(id1) == g0.neighbors(id1).push(id2).push(
                id1,
            ))
            &&& (forall|c: u64|
                c != id1 && c != id2 ==> #[trigger] post.graph.neighbors(c) == g0.neighbors(c))
        })
    }))
}

/// The edit session: the graph and the transient interaction state.
pub struct Vecdraw {
    /// The persistent graph being edited.
    pub graph: PlanarGraph,
    /// Pending draw points, at most two.
    pub drawing: Vec<PendPoint>,
    /// Selection-rectangle corners, at most two.
    pub select_range: Vec<Vec2>,
    /// The vertex currently within snap range, if any.
    pub snap_highlight: Option<u64>,
    /// The selected vertices, without duplicates.
    pub selected: Vec<u64>,
    /// The previous pointer sample of an ongoing move gesture.
    pub move_anchor: Option<Vec2>,
    /// The active edge-attribute value, stamped on demand.
    pub dc: i64,
}

impl Vecdraw {
    /// A pending point refers to a live vertex or a representable position.
    pub open spec fn pend_ok(self, p: PendPoint) -> bool {
        match p {
            PendPoint::Exist(id) => self.graph.has_vert(id),
            PendPoint::New(w) => w.in_bounds(),
        }
    }

    /// The session invariant: the graph is well-formed and every transient
    /// field refers only to live vertices and representable positions.
    pub open spec fn inv(self) -> bool {
        &&& self.graph.wf()
        &&& self.drawing@.len() <= 2
        &&& forall|i: int|
            0 <= i < self.drawing@.len() ==> self.pend_ok(#[trigger] self.drawing@[i])
        &&& self.select_range@.len() <= 2
        &&& forall|i: int|
            0 <= i < self.select_range@.len() ==> (#[trigger] self.select_range@[i]).in_bounds()
        &&& match self.snap_highlight {
            Some(id) => self.graph.has_vert(id),
            None => true,
        }
        &&& ids_unique(self.selected@)
        &&& forall|i: int|
            0 <= i < self.selected@.len() ==> self.graph.has_vert(#[trigger] self.selected@[i])
        &&& match self.move_anchor {
            Some(w) => w.in_bounds(),
            None => true,
        }
    }

    /// A fresh session around a well-formed graph: no pending gesture, no
    /// selection, attribute value zero.
    pub fn new(graph: PlanarGraph) -> (s: Vecdraw)
        requires
            graph.wf(),
        ensures
            s.inv(),
            s.graph == graph,
            s.drawing@ == Seq::<PendPoint>::empty(),
            s.select_range@ == Seq::<Vec2>::empty(),
            s.snap_highlight is None,
            s.selected@ == Seq::<u64>::empty(),
            s.move_anchor is None,
            s.dc == 0,
    {
        Vecdraw {
            graph,
            drawing: Vec::new(),
            select_range: Vec::new(),
            snap_highlight: None,
            selected: Vec::new(),
            move_anchor: None,
            dc: 0,
        }
    }

    /// Sets the active edge-attribute value.
    pub fn set_dcv(&mut self, dc: i64)
        requires
            old(self).inv(),
        ensures
            final(self).inv(),
            final(self).dc == dc,
            final(self).graph == old(self).graph,
            final(self).drawing@ == old(self).drawing@,
            final(self).select_range@ == old(self).select_range@,
            final(self).snap_highlight == old(self).snap_highlight,
            final(self).selected@ == old(self).selected@,
            final(self).move_anchor == old(self).move_anchor,
    {
        self.dc = dc;
    }

    /// Clears the selection.
    pub fn unselect(&mut self)
        requires
            old(self).inv(),
        ensures
            final(self).inv(),
            final(self).selected@ == Seq::<u64>::empty(),
            final(self).graph == old(self).graph,
            final(self).drawing@ == old(self).drawing@,
            final(self).select_range@ == old(self).select_range@,
            final(self).snap_highlight == old(self).snap_highlight,
            final(self).move_anchor == old(self).move_anchor,
            final(self).dc == old(self).dc,
    {
        self.selected.clear();
    }

    /// Clears the snap highlight (the snap modifier was released).
    pub fn snap_off(&mut self)
        requires
            old(self).inv(),
        ensures
            final(self).inv(),
            final(self).snap_highlight is None,
            final(self).graph == old(self).graph,
            final(self).drawing@ == old(self).drawing@,
            final(self).select_range@ == old(self).select_range@,
            final(self).selected@ == old(self).selected@,
            final(self).move_anchor == old(self).move_anchor,
            final(self).dc == old(self).dc,
    {
        self.snap_highlight = None;
    }

    /// Ends the move gesture by dropping the drag anchor.
    pub fn move_end(&mut self)
        requires
            old(self).inv(),
        ensures
            final(self).inv(),
            final(self).move_anchor is None,
            final(self).graph == old(self).graph,
            final(self).drawing@ == old(self).drawing@,
            final(self).select_range@ == old(self).select_range@,
            final(self).snap_highlight == old(self).snap_highlight,
            final(self).selected@ == old(self).selected@,
            final(self).dc == old(self).dc,
    {
        self.move_anchor = None;
    }

    /// Accumulates a selection-rectangle corner: appends while fewer than
    /// two corners are buffered, afterwards replaces the second.
    pub fn select_update(&mut self, wpos: Vec2)
        requires
            old(self).inv(),
            wpos.in_bounds(),
        ensures
            final(self).inv(),
            final(self).select_range@ == (if old(self).select_range@.len() < 2 {
                old(self).select_range@.push(wpos)
            } else {
                old(self).select_range@.update(1, wpos)
            }),
            final(self).graph == old(self).graph,
            final(self).drawing@ == old(self).drawing@,
            final(self).snap_highlight == old(self).snap_highlight,
            final(self).selected@ == old(self).selected@,
            final(self).move_anchor == old(self).move_anchor,
            final(self).dc == old(self).dc,
    {
        if self.select_range.len() < 2 {
            self.select_range.push(wpos);
        } else {
            self.select_range[1] = wpos;
        }
    }

    /// Accumulates a pending draw point, snapped to the highlighted vertex
    /// when one exists; the same two-slot rule as `select_update`.
    pub fn drawing_update(&mut self, wpos: Vec2)
        requires
            old(self).inv(),
            wpos.in_bounds(),
        ensures
            final(self).inv(),
            ({
                let p = match old(self).snap_highlight {
                    Some(id) => PendPoint::Exist(id),
                    None => PendPoint::New(wpos),
                };
                final(self).drawing@ == (if old(self).drawing@.len() < 2 {
                    old(self).drawing@.push(p)
                } else {
                    old(self).drawing@.update(1, p)
                })
            }),
            final(self).graph == old(self).graph,
            final(self).select_range@ == old(self).select_range@,
            final(self).snap_highlight == old(self).snap_highlight,
            final(self).selected@ == old(self).selected@,
            final(self).move_anchor == old(self).move_anchor,
            final(self).dc == old(self).dc,
    {
        let p = match self.snap_highlight {
            Some(id) => PendPoint::Exist(id),
            None => PendPoint::New(wpos),
        };
        if self.drawing.len() < 2 {
            self.drawing.push(p);
        } else {
            self.drawing[1] = p;
        }
    }

    /// Recomputes the snap highlight from scratch: the earliest vertex at
    /// the minimal distance from `wpos` wins, and only when that distance is
    /// strictly below the capture radius; otherwise the highlight clears.
    pub fn snap_update(&mut self, wpos: Vec2)
        requires
            old(self).inv(),
            wpos.in_bounds(),
        ensures
            final(self).inv(),
            snap_post(*old(self), *final(self), wpos),
    {
        let ghost vs = self.graph.verts@;
        let n = self.graph.verts.len();
        let mut best: Option<u64> = None;
        let mut bound: i64 = SNAP_RADIUS * SNAP_RADIUS;
        let mut i: usize = 0;
        while i < n
            invariant
                self.inv(),
                wpos.in_bounds(),
                vs == self.graph.verts@,
                n == vs.len(),
                i <= n,
                best == snap_state(vs, wpos, i as int).0,
                bound == snap_state(vs, wpos, i as int).1,
            decreases n - i,
        {
            let e = self.graph.verts[i];
            proof {
                assert(e.v.pos.in_bounds());
            }
            let d = dist_sq_exec(e.v.pos, wpos);
            if d < bound {
                best = Some(e.id);
                bound = d;
            }
            i = i + 1;
        }
        self.snap_highlight = best;
        proof {
            lemma_snap_state(vs, wpos, vs.len() as int);
            match self.snap_highlight {
                Some(id) => {
                    let st = snap_state(vs, wpos, vs.len() as int);
                    let w = choose|w: int|
                        0 <= w < vs.len() && (#[trigger] vs[w]).id == id && dist_sq(
                            vs[w].v.pos,
                            wpos,
                        ) == st.1;
                    crate::graph::lemma_ventry_at(vs, w);
                },
                None => {},
            }
        }
    }

    /// Replaces the selection with the vertices strictly inside the
    /// rectangle spanned by the two recorded corners (none with fewer than
    /// two corners), then clears the rectangle.
    pub fn finish_select(&mut self)
        requires
            old(self).inv(),
        ensures
            final(self).inv(),
            finish_select_post(*old(self), *final(self)),
    {
        self.selected.clear();
        if self.select_range.len() == 2 {
            let c1 = self.select_range[0];
            let c2 = self.select_range[1];
            let ghost vs = self.graph.verts@;
            let n = self.graph.verts.len();
            let mut i: usize = 0;
            proof {
                assert(vs.take(0) =~= Seq::<VertEntry>::empty());
            }
            while i < n
                invariant
                    old(self).inv(),
                    self.graph == old(self).graph,
                    self.drawing@ == old(self).drawing@,
                    self.select_range@ == old(self).select_range@,
                    self.snap_highlight == old(self).snap_highlight,
                    self.move_anchor == old(self).move_anchor,
                    self.dc == old(self).dc,
                    vs == self.graph.verts@,
                    n == vs.len(),
                    i <= n,
                    self.selected@ == sel_spec(vs.take(i as int), c1, c2),
                decreases n - i,
            {
                proof {
                    assert(vs.take(i + 1).drop_last() =~= vs.take(i as int));
                    assert(vs.take(i + 1).last() == vs[i as int]);
                }
                let e = self.graph.verts[i];
                let min_x = if c1.x <= c2.x {
                    c1.x
                } else {
                    c2.x
                };
                let max_x = if c1.x <= c2.x {
                    c2.x
                } else {
                    c1.x
                };
                let min_y = if c1.y <= c2.y {
                    c1.y
                } else {
                    c2.y
                };
                let max_y = if c1.y <= c2.y {
                    c2.y
                } else {
                    c1.y
                };
                if e.v.pos.x > min_x && e.v.pos.x < max_x && e.v.pos.y > min_y && e.v.pos.y
                    < max_y {
                    self.selected.push(e.id);
                }
                i = i + 1;
            }
            proof {
                assert(vs.take(n as int) =~= vs);
                lemma_sel_spec(vs, c1, c2);
                assert forall|k: int|
                    0 <= k < self.selected@.len() implies self.graph.has_vert(
                    #[trigger] self.selected@[k],
                ) by {
                    assert(self.selected@.contains(self.selected@[k]));
                }
            }
        }
        self.select_range.clear();
    }

    /// Applies one sample of a move gesture.  With a drag anchor present,
    /// every selected vertex is displaced by the difference between this
    /// pointer sample and the anchor (each coordinate clamped to the
    /// representable range); the anchor is then set to this sample, so each
    /// call contributes only its incremental displacement.  The first sample
    /// of a gesture only sets the anchor.
    pub fn move_select(&mut self, o: Vec2)
        requires
            old(self).inv(),
            o.in_bounds(),
        ensures
            final(self).inv(),
            move_select_post(*old(self), *final(self), o),
    {
        match self.move_anchor {
            Some(prev) => {
                let dx = o.x - prev.x;
                let dy = o.y - prev.y;
                let ghost vs0 = self.graph.verts@;
                let ghost sel = self.selected@;
                proof {
                    assert(sel.take(0) =~= Seq::<u64>::empty());
                    assert(self.graph.verts@ =~= moved_verts(vs0, sel.take(0), dx as int, dy as int));
                }
                let n = self.selected.len();
                let mut k: usize = 0;
                while k < n
                    invariant
                        old(self).inv(),
                        o.in_bounds(),
                        old(self).move_anchor == Some(prev),
                        dx == o.x - prev.x,
                        dy == o.y - prev.y,
                        vs0 == old(self).graph.verts@,
                        sel == old(self).selected@,
                        n == sel.len(),
                        k <= n,
                        self.graph.verts@ == moved_verts(vs0, sel.take(k as int), dx as int, dy as int),
                        self.graph.adj@ == old(self).graph.adj@,
                        self.graph.dcs@ == old(self).graph.dcs@,
                        self.graph.faces@ == old(self).graph.faces@,
                        self.graph.border@ == old(self).graph.border@,
                        self.graph.next_id == old(self).graph.next_id,
                        self.drawing@ == old(self).drawing@,
                        self.select_range@ == old(self).select_range@,
                        self.snap_highlight == old(self).snap_highlight,
                        self.selected@ == old(self).selected@,
                        self.move_anchor == old(self).move_anchor,
                        self.dc == old(self).dc,
                    decreases n - k,
                {
                    let ghost cur = self.graph.verts@;
                    proof {
                        lemma_moved_verts(vs0, sel.take(k as int), dx as int, dy as int);
                    }
                    let id = self.selected[k];
                    proof {
                        // the selected vertex is still present
                        assert(old(self).graph.has_vert(sel[k as int]));
                        assert(vhas(cur, id));
                    }
                    let found = self.graph.find_vert(id);
                    match found {
                        Some(i) => {
                            let e = self.graph.verts[i];
                            proof {
                                // sel[k] was not among the first k ids, so this
                                // entry has not been displaced yet
                                assert(forall|j: int|
                                    0 <= j < k ==> sel.take(k as int)[j] == #[trigger] sel[j]);
                                assert(!sel.take(k as int).contains(id)) by {
                                    if sel.take(k as int).contains(id) {
                                        let j = choose|j: int|
                                            0 <= j < k && sel.take(k as int)[j] == id;
                                        assert(sel[j] == sel[k as int]);
                                        assert(false);
                                    }
                                }
                                assert(cur[i as int] == vs0[i as int]) by {
                                    assert(cur[i as int] == (if sel.take(k as int).contains(
                                        (#[trigger] vs0[i as int]).id,
                                    ) {
                                        moved_verts(vs0, sel.take(k as int), dx as int, dy as int)[i as int]
                                    } else {
                                        vs0[i as int]
                                    }));
                                }
                                assert((#[trigger] vs0[i as int]).v.pos.in_bounds()
                                    && vs0[i as int].id < old(self).graph.next_id);
                            }
                            let nx = clamped_add(e.v.pos.x, dx);
                            let ny = clamped_add(e.v.pos.y, dy);
                            let e2 = VertEntry {
                                id: e.id,
                                v: Vertex { pos: Vec2 { x: nx, y: ny }, tex: e.v.tex, im: e.v.im },
                            };
                            self.graph.verts[i] = e2;
                            proof {
                                let tgt = moved_verts(
                                    vs0,
                                    sel.take(k + 1),
                                    dx as int,
                                    dy as int,
                                );
                                assert(sel.take(k + 1) =~= sel.take(k as int).push(
                                    sel[k as int],
                                ));
                                assert forall|x: u64|
                                    #[trigger] sel.take(k + 1).contains(x) <==> (sel.take(
                                        k as int,
                                    ).contains(x) || x == id) by {
                                    let tk1 = sel.take(k as int).push(sel[k as int]);
                                    if sel.take(k + 1).contains(x) {
                                        let j = choose|j: int|
                                            0 <= j < sel.take(k + 1).len() && #[trigger] sel.take(
                                                k + 1,
                                            )[j] == x;
                                        if j < k {
                                            assert(sel.take(k as int)[j] == x);
                                        }
                                    }
                                    if sel.take(k as int).contains(x) {
                                        let j = choose|j: int|
                                            0 <= j < k && sel.take(k as int)[j] == x;
                                        assert(sel.take(k + 1)[j] == x);
                                    }
                                    if x == id {
                                        assert(sel.take(k + 1)[k as int] == x);
                                    }
                                }
                                assert forall|j: int|
                                    0 <= j < vs0.len() implies #[trigger] self.graph.verts@[j]
                                    == tgt[j] by {
                                    if j == i as int {
                                        assert(sel.take(k + 1).contains(vs0[j].id));
                                        assert(tgt[j] == (VertEntry {
                                            id: vs0[j].id,
                                            v: Vertex {
                                                pos: Vec2 {
                                                    x: clamp_coord(vs0[j].v.pos.x + dx) as i64,
                                                    y: clamp_coord(vs0[j].v.pos.y + dy) as i64,
                                                },
                                                tex: vs0[j].v.tex,
                                                im: vs0[j].v.im,
                                            },
                                        }));
                                    } else {
                                        assert(vs0[j].id != vs0[i as int].id);
                                        assert(self.graph.verts@[j] == cur[j]);
                                        assert(cur[j] == (if sel.take(k as int).contains(
                                            (#[trigger] vs0[j]).id,
                                        ) {
                                            moved_verts(
                                                vs0,
                                                sel.take(k as int),
                                                dx as int,
                                                dy as int,
                                            )[j]
                                        } else {
                                            vs0[j]
                                        }));
                                    }
                                }
                                assert(self.graph.verts@ =~= tgt);
                            }
                        },
                        None => {
                            proof {
                                assert(false);
                            }
                        },
                    }
                    k = k + 1;
                }
                proof {
                    assert(sel.take(n as int) =~= sel);
                    lemma_moved_verts(vs0, sel, dx as int, dy as int);
                    // well-formedness of the moved graph
                    let mv = self.graph.verts@;
                    assert forall|i: int|
                        0 <= i < mv.len() implies ((#[trigger] mv[i]).v.pos.in_bounds()
                        && mv[i].id < self.graph.next_id) by {
                        assert(mv[i] == (if sel.contains((#[trigger] vs0[i]).id) {
                            moved_verts(vs0, sel, dx as int, dy as int)[i]
                        } else {
                            vs0[i]
                        }));
                        assert((#[trigger] vs0[i]).v.pos.in_bounds() && vs0[i].id < old(
                            self,
                        ).graph.next_id);
                    }
                    assert forall|c: u64| old(self).graph.has_vert(c) implies #[trigger] self
                        .graph.has_vert(c) by {}
                    self.graph.lemma_wf_after_vert_change(old(self).graph);
                }
            },
            None => {},
        }
        self.move_anchor = Some(o);
    }

    /// Deletes every selected vertex: clears the derived faces and border
    /// set up front, removes each selected vertex (with its adjacency and
    /// its appearances in other neighbor lists), and clears the selection.
    /// A pending draw point or snap highlight that named a deleted vertex is
    /// dropped too, so no transient state dangles.  Stale edge-attribute
    /// entries are left in place, matching the accepted leak of the design.
    pub fn delete_select(&mut self)
        requires
            old(self).inv(),
        ensures
            final(self).inv(),
            delete_select_post(*old(self), *final(self)),
    {
        let ghost vs0 = self.graph.verts@;
        let ghost m0 = self.graph.amodel();
        let ghost sel = self.selected@;
        let ghost d0 = self.drawing@;
        // structural change: the derived caches are invalidated once, up
        // front, whether or not anything is selected
        self.graph.faces.clear();
        self.graph.border.clear();
        proof {
            assert(self.graph.amodel() == m0);
        }
        let n = self.selected.len();
        let mut k: usize = 0;
        while k < n
            invariant
                old(self).inv(),
                vs0 == old(self).graph.verts@,
                m0 == old(self).graph.amodel(),
                sel == old(self).selected@,
                d0 == old(self).drawing@,
                n == sel.len(),
                k <= n,
                self.graph.wf(),
                self.graph.verts@ == del_verts(vs0, sel, k as int),
                self.graph.amodel() == del_adj(m0, sel, k as int),
                self.graph.dcs@ == old(self).graph.dcs@,
                self.graph.next_id == old(self).graph.next_id,
                self.graph.faces@ == Seq::<Tri>::empty(),
                self.graph.border@ == Seq::<u64>::empty(),
                forall|j: int| 0 <= j < k ==> !self.graph.has_vert(#[trigger] sel[j]),
                forall|j: int, c: u64|
                    0 <= j < k ==> #[trigger] occ(self.graph.neighbors(c), sel[j]) == 0,
                forall|c: u64|
                    !sel.contains(c) ==> (#[trigger] self.graph.has_vert(c) <==> vhas(vs0, c)),
                forall|c: u64|
                    !sel.contains(c) && vhas(vs0, c) ==> #[trigger] self.graph.vert_of(c) == vget(
                        vs0,
                        c,
                    ),
                self.drawing@ == old(self).drawing@,
                self.select_range@ == old(self).select_range@,
                self.snap_highlight == old(self).snap_highlight,
                self.selected@ == old(self).selected@,
                self.move_anchor == old(self).move_anchor,
                self.dc == old(self).dc,
            decreases n - k,
        {
            let id = self.selected[k];
            let ghost gpre = self.graph;
            self.graph.remove_vertex(id);
            proof {
                assert(self.graph.verts@ == del_verts(vs0, sel, k + 1));
                assert(self.graph.amodel() == del_adj(m0, sel, k + 1));
                assert forall|j: int| 0 <= j < k + 1 implies !self.graph.has_vert(
                    #[trigger] sel[j],
                ) by {
                    if sel[j] != id {
                        assert(!gpre.has_vert(sel[j]));
                    }
                }
                assert forall|j: int, c: u64| 0 <= j < k + 1 implies #[trigger] occ(
                    self.graph.neighbors(c),
                    sel[j],
                ) == 0 by {
                    if sel[j] == id {
                        assert(occ(self.graph.neighbors(c), id) == 0);
                    } else if c == id {
                        assert(self.graph.neighbors(id) == Seq::<u64>::empty());
                    } else {
                        assert(occ(self.graph.neighbors(c), sel[j]) == occ(
                            gpre.neighbors(c),
                            sel[j],
                        ));
                        assert(occ(gpre.neighbors(c), sel[j]) == 0);
                    }
                }
                assert forall|c: u64| !sel.contains(c) implies (#[trigger] self.graph.has_vert(c)
                    <==> vhas(vs0, c)) by {
                    assert(sel[k as int] == id);
                    assert(sel.contains(id)) by {
                        assert(sel[k as int] == id);
                    }
                    assert(c != id);
                }
                assert forall|c: u64|
                    !sel.contains(c) && vhas(vs0, c) implies #[trigger] self.graph.vert_of(c)
                    == vget(vs0, c) by {
                    assert(sel.contains(id)) by {
                        assert(sel[k as int] == id);
                    }
                    assert(c != id);
                    assert(gpre.has_vert(c));
                }
            }
            k = k + 1;
        }
        proof {
            assert(sel.take(n as int) =~= sel);
        }
        self.selected.clear();
        // drop a snap highlight that named a deleted vertex
        match self.snap_highlight {
            Some(id) => {
                if !self.graph.contains_vertex(id) {
                    self.snap_highlight = None;
                }
                proof {
                    assert(vhas(vs0, id));
                    if sel.contains(id) {
                        assert(!self.graph.has_vert(id));
                    } else {
                        assert(self.graph.has_vert(id));
                    }
                }
            },
            None => {},
        }
        // drop pending draw points that named deleted vertices
        let mut nd: Vec<PendPoint> = Vec::new();
        let dn = self.drawing.len();
        let mut t: usize = 0;
        proof {
            assert(d0.take(0) =~= Seq::<PendPoint>::empty());
        }
        while t < dn
            invariant
                old(self).inv(),
                vs0 == old(self).graph.verts@,
                sel == old(self).selected@,
                d0 == old(self).drawing@,
                self.drawing@ == d0,
                dn == d0.len(),
                t <= dn,
                nd@ == prune_pend(d0.take(t as int), sel),
                nd@.len() <= t,
                forall|c: u64|
                    !sel.contains(c) ==> (#[trigger] self.graph.has_vert(c) <==> vhas(vs0, c)),
                forall|v: u64|
                    sel.contains(v) ==> !(#[trigger] self.graph.has_vert(v)),
                forall|i: int|
                    0 <= i < nd@.len() ==> self.pend_ok(#[trigger] nd@[i]),
            decreases dn - t,
        {
            proof {
                assert(d0.take(t + 1).drop_last() =~= d0.take(t as int));
                assert(d0.take(t + 1).last() == d0[t as int]);
            }
            let p = self.drawing[t];
            let keep = match p {
                PendPoint::Exist(id) => {
                    proof {
                        assert(old(self).pend_ok(#[trigger] d0[t as int]));
                    }
                    self.graph.contains_vertex(id)
                },
                PendPoint::New(_) => true,
            };
            proof {
                match d0[t as int] {
                    PendPoint::Exist(id) => {
                        assert(vhas(vs0, id));
                        if sel.contains(id) {
                            assert(!self.graph.has_vert(id));
                        } else {
                            assert(self.graph.has_vert(id));
                        }
                        assert(keep == keep_pend(d0[t as int], sel));
                    },
                    PendPoint::New(_) => {},
                }
            }
            if keep {
                nd.push(p);
            }
            t = t + 1;
        }
        proof {
            assert(d0.take(dn as int) =~= d0);
        }
        self.drawing = nd;
    }

    /// Commits the draw gesture.  With exactly two pending points, each is
    /// resolved to an identifier (an existing point keeps its own, a new
    /// point is allocated a fresh one).  If the two resolved identifiers are
    /// already connected the operation is rejected and nothing is created
    /// (the allocation counter still advances for new points, as fresh
    /// identifiers are never reissued).  Otherwise each new point is
    /// inserted at its clicked position and the two identifiers are
    /// connected symmetrically.  The pending points are cleared either way.
    pub fn finish_draw(&mut self) -> (r: DrawOutcome)
        requires
            old(self).inv(),
            // room in the identifier space for the points that allocate
            old(self).graph.next_id + pend_allocs(old(self).drawing@) <= u64::MAX,
        ensures
            final(self).inv(),
            finish_draw_post(*old(self), *final(self), r),
    {
        if self.drawing.len() != 2 {
            self.drawing.clear();
            return DrawOutcome::Incomplete;
        }
        let ghost g0 = self.graph;
        let p0 = self.drawing[0];
        let p1 = self.drawing[1];
        proof {
            assert(old(self).pend_ok(#[trigger] old(self).drawing@[0]));
            assert(old(self).pend_ok(#[trigger] old(self).drawing@[1]));
        }
        let id1 = match p0 {
            PendPoint::Exist(id) => id,
            PendPoint::New(_) => self.graph.alloc_id(),
        };
        let id2 = match p1 {
            PendPoint::Exist(id) => id,
            PendPoint::New(_) => self.graph.alloc_id(),
        };
        proof {
            // fresh identifiers are not yet vertices
            if p0 is New {
                assert(!g0.has_vert(id1)) by {
                    if vhas(g0.verts@, id1) {
                        let i = choose|i: int|
                            0 <= i < g0.verts@.len() && (#[trigger] g0.verts@[i]).id == id1;
                        assert(g0.verts@[i].id < g0.next_id);
                    }
                }
            }
            if p1 is New {
                assert(!g0.has_vert(id2)) by {
                    if vhas(g0.verts@, id2) {
                        let i = choose|i: int|
                            0 <= i < g0.verts@.len() && (#[trigger] g0.verts@[i]).id == id2;
                        assert(g0.verts@[i].id < g0.next_id);
                    }
                }
            }
        }
        let dup = self.graph.has_edge(id1, id2);
        if dup {
            self.drawing.clear();
            return DrawOutcome::DuplicateEdge;
        }
        match p0 {
            PendPoint::New(w) => {
                self.graph.insert_vertex(id1, w);
            },
            PendPoint::Exist(_) => {},
        }
        let ghost g1 = self.graph;
        proof {
            assert(g1.verts@ == commit_verts(g0.verts@, p0, id1));
            assert forall|c: u64| g0.has_vert(c) implies #[trigger] g1.has_vert(c) by {
                if p0 is New && c != id1 {
                    assert(g1.has_vert(c) <==> g0.has_vert(c));
                }
            }
            if p1 is New && p0 is New {
                assert(!g1.has_vert(id2)) by {
                    if vhas(g1.verts@, id2) {
                        let i = choose|i: int|
                            0 <= i < g1.verts@.len() && (#[trigger] g1.verts@[i]).id == id2;
                        if i < g0.verts@.len() {
                            assert(g0.verts@[i].id < g0.next_id);
                        }
                    }
                }
            }
        }
        match p1 {
            PendPoint::New(w) => {
                self.graph.insert_vertex(id2, w);
            },
            PendPoint::Exist(_) => {},
        }
        let ghost g2 = self.graph;
        proof {
            assert(g2.verts@ == commit_verts(commit_verts(g0.verts@, p0, id1), p1, id2));
            assert forall|c: u64| g1.has_vert(c) implies #[trigger] g2.has_vert(c) by {
                if p1 is New && c != id2 {
                    assert(g2.has_vert(c) <==> g1.has_vert(c));
                }
            }
            assert(g2.amodel() == g0.amodel());
            assert(g2.has_vert(id1)) by {
                if p0 is Exist {
                    assert(g0.has_vert(id1));
                }
            }
            assert(g2.has_vert(id2)) by {
                if p1 is Exist {
                    assert(g0.has_vert(id2));
                }
            }
            crate::graph::lemma_occ_contains(g0.neighbors(id1), id2);
        }
        self.graph.connect(id1, id2);
        self.drawing.clear();
        proof {
            assert(self.graph.verts@ == g2.verts@);
            assert forall|i: int|
                0 <= i < self.selected@.len() implies self.graph.has_vert(
                #[trigger] self.selected@[i],
            ) by {
                let c = old(self).selected@[i];
                assert(g0.has_vert(c));
                assert(g1.has_vert(c));
                assert(g2.has_vert(c));
                assert(vhas(self.graph.verts@, c));
            }
            match self.snap_highlight {
                Some(sid) => {
                    assert(g0.has_vert(sid));
                    assert(g1.has_vert(sid));
                    assert(g2.has_vert(sid));
                    assert(vhas(self.graph.verts@, sid));
                },
                None => {},
            }
        }
        DrawOutcome::Connected(id1, id2)
    }

    /// Stamps the active attribute value onto every edge attribute whose
    /// both endpoints are selected; every other entry is untouched.  With
    /// nothing selected this is a no-op.
    pub fn select_apply_dcv(&mut self)
        requires
            old(self).inv(),
        ensures
            final(self).inv(),
            final(self).graph.dcs@ == stamp_dcs(
                old(self).graph.dcs@,
                old(self).selected@,
                old(self).dc,
            ),
            final(self).graph.verts@ == old(self).graph.verts@,
            final(self).graph.adj@ == old(self).graph.adj@,
            final(self).graph.amodel() == old(self).graph.amodel(),
            final(self).graph.faces@ == old(self).graph.faces@,
            final(self).graph.border@ == old(self).graph.border@,
            final(self).graph.next_id == old(self).graph.next_id,
            final(self).drawing@ == old(self).drawing@,
            final(self).select_range@ == old(self).select_range@,
            final(self).snap_highlight == old(self).snap_highlight,
            final(self).selected@ == old(self).selected@,
            final(self).move_anchor == old(self).move_anchor,
            final(self).dc == old(self).dc,
    {
        let ghost d0 = self.graph.dcs@;
        let ghost sel = self.selected@;
        let n = self.graph.dcs.len();
        let mut i: usize = 0;
        while i < n
            invariant
                old(self).inv(),
                d0 == old(self).graph.dcs@,
                sel == old(self).selected@,
                n == d0.len(),
                i <= n,
                self.graph.dcs@.len() == n,
                forall|j: int|
                    i <= j < n ==> #[trigger] self.graph.dcs@[j] == d0[j],
                forall|j: int|
                    0 <= j < i ==> #[trigger] self.graph.dcs@[j] == (if sel.contains(d0[j].a)
                        && sel.contains(d0[j].b) {
                        DcEntry { a: d0[j].a, b: d0[j].b, val: old(self).dc }
                    } else {
                        d0[j]
                    }),
                self.graph.verts@ == old(self).graph.verts@,
                self.graph.adj@ == old(self).graph.adj@,
                self.graph.faces@ == old(self).graph.faces@,
                self.graph.border@ == old(self).graph.border@,
                self.graph.next_id == old(self).graph.next_id,
                self.drawing@ == old(self).drawing@,
                self.select_range@ == old(self).select_range@,
                self.snap_highlight == old(self).snap_highlight,
                self.selected@ == old(self).selected@,
                self.move_anchor == old(self).move_anchor,
                self.dc == old(self).dc,
            decreases n - i,
        {
            let e = self.graph.dcs[i];
            let in_a = list_has(&self.selected, e.a);
            let in_b = list_has(&self.selected, e.b);
            if in_a && in_b {
                self.graph.dcs[i] = DcEntry { a: e.a, b: e.b, val: self.dc };
            }
            i = i + 1;
        }
        proof {
            assert(self.graph.dcs@ =~= stamp_dcs(d0, sel, old(self).dc));
            assert(self.graph.amodel() == old(self).graph.amodel());
            assert forall|j: int|
                0 <= j < self.graph.dcs@.len() implies ((#[trigger] self.graph.dcs@[j]).a
                <= self.graph.dcs@[j].b) by {
                assert((#[trigger] d0[j]).a <= d0[j].b);
            }
            assert forall|j: int, k: int|
                0 <= j < k < self.graph.dcs@.len() implies !((#[trigger] self.graph.dcs@[j]).a
                == (#[trigger] self.graph.dcs@[k]).a && self.graph.dcs@[j].b
                == self.graph.dcs@[k].b) by {
                assert(!((#[trigger] d0[j]).a == (#[trigger] d0[k]).a && d0[j].b == d0[k].b));
            }
        }
    }

    /// Installs the result of the external triangulation step: the derived
    /// faces and border set, replacing the cached ones.  A result that names
    /// an unknown vertex is rejected whole, as an invariant violation.
    pub fn build(&mut self, faces: Vec<Tri>, border: Vec<u64>) -> (r: Result<(), GraphError>)
        requires
            old(self).inv(),
        ensures
            final(self).inv(),
            (faces_live(old(self).graph.verts@, faces@) && border_live(
                old(self).graph.verts@,
                border@,
            )) ==> (r is Ok && final(self).graph.faces@ == faces@ && final(self).graph.border@
                == border@),
            !(faces_live(old(self).graph.verts@, faces@) && border_live(
                old(self).graph.verts@,
                border@,
            )) ==> (r == Result::<(), GraphError>::Err(GraphError::UnknownNeighbor)
                && final(self).graph == old(self).graph),
            final(self).graph.verts@ == old(self).graph.verts@,
            final(self).graph.adj@ == old(self).graph.adj@,
            final(self).graph.amodel() == old(self).graph.amodel(),
            final(self).graph.dcs@ == old(self).graph.dcs@,
            final(self).graph.next_id == old(self).graph.next_id,
            final(self).drawing@ == old(self).drawing@,
            final(self).select_range@ == old(self).select_range@,
            final(self).snap_highlight == old(self).snap_highlight,
            final(self).selected@ == old(self).selected@,
            final(self).move_anchor == old(self).move_anchor,
            final(self).dc == old(self).dc,
    {
        let ok_f = self.check_faces_live(&faces);
        let ok_b = self.check_border_live(&border);
        if ok_f && ok_b {
            self.graph.faces = faces;
            self.graph.border = border;
            proof {
                assert(self.graph.amodel() == old(self).graph.amodel());
            }
            Ok(())
        } else {
            Err(GraphError::UnknownNeighbor)
        }
    }

    /// Every face corner of `faces` names a live vertex.
    fn check_faces_live(&self, faces: &Vec<Tri>) -> (r: bool)
        ensures
            r == faces_live(self.graph.verts@, faces@),
    {
        let n = faces.len();
        let mut i: usize = 0;
        while i < n
            invariant
                n == faces@.len(),
                i <= n,
                forall|j: int|
                    0 <= j < i ==> (vhas(self.graph.verts@, (#[trigger] faces@[j]).a) && vhas(
                        self.graph.verts@,
                        faces@[j].b,
                    ) && vhas(self.graph.verts@, faces@[j].c)),
            decreases n - i,
        {
            let f = faces[i];
            if !self.graph.contains_vertex(f.a) || !self.graph.contains_vertex(f.b)
                || !self.graph.contains_vertex(f.c) {
                proof {
                    assert(!(vhas(self.graph.verts@, (#[trigger] faces@[i as int]).a) && vhas(
                        self.graph.verts@,
                        faces@[i as int].b,
                    ) && vhas(self.graph.verts@, faces@[i as int].c)));
                }
                return false;
            }
            i = i + 1;
        }
        true
    }

    /// Every border flag of `border` names a live vertex.
    fn check_border_live(&self, border: &Vec<u64>) -> (r: bool)
        ensures
            r == border_live(self.graph.verts@, border@),
    {
        let n = border.len();
        let mut i: usize = 0;
        while i < n
            invariant
                n == border@.len(),
                i <= n,
                forall|j: int| 0 <= j < i ==> vhas(self.graph.verts@, #[trigger] border@[j]),
            decreases n - i,
        {
            if !self.graph.contains_vertex(border[i]) {
                proof {
                    assert(!vhas(self.graph.verts@, #[trigger] border@[i as int]));
                }
                return false;
            }
            i = i + 1;
        }
        true
    }

    /// Replaces the selection with the snapped vertex alone; without a snap
    /// highlight nothing changes.
    pub fn exact_select(&mut self)
        requires
            old(self).inv(),
        ensures
            final(self).inv(),
            final(self).selected@ == (match old(self).snap_highlight {
                Some(id) => seq![id],
                None => old(self).selected@,
            }),
            final(self).graph == old(self).graph,
            final(self).drawing@ == old(self).drawing@,
            final(self).select_range@ == old(self).select_range@,
            final(self).snap_highlight == old(self).snap_highlight,
            final(self).move_anchor == old(self).move_anchor,
            final(self).dc == old(self).dc,
    {
        match self.snap_highlight {
            Some(id) => {
                self.selected.clear();
                self.selected.push(id);
                proof {
                    assert(self.selected@ =~= seq![id]);
                }
            },
            None => {},
        }
    }
}

} // verus!
