//! The render projection: a pure mapping from the session state to an
//! ordered, flat list of drawable primitives with fixed styling.
//!
//! The order is: one filled triangle per derived face; one dot per vertex
//! with at least one listed neighbor (border vertices in their own color);
//! one line per undirected edge, visited once by canonical-pair
//! deduplication, colored from the edge attribute; then the transient
//! overlays — the pending draw line, the selection rectangle, the snap
//! highlight and one highlight dot per selected vertex.
//!
//! Colors, widths and depths are fixed-point values ([`crate::geom::SCALE`]
//! units to one).  The attribute color ramp quantizes the decimal logarithm
//! of the attribute to its integer part: an attribute of one or more gets
//! the fixed non-ramp color, and smaller attributes get a ramp intensity of
//! a tenth per decade below one, so an attribute of `0.001` renders with
//! intensity `0.3`.  An edge without an attribute gets a third, default
//! color, distinct from both.

use vstd::prelude::*;
use crate::geom::Vec2;
use crate::geom::SCALE;
use crate::graph::AdjModel;
use crate::graph::PlanarGraph;
use crate::graph::Tri;
use crate::graph::canon;
use crate::graph::dc_spec;
use crate::graph::has_key;
use crate::graph::lemma_key_at;
use crate::graph::list_has;
use crate::graph::nbs;
use crate::session::PendPoint;
use crate::session::Vecdraw;

verus! {

/// An RGBA color in fixed-point units, one being full intensity.
#[derive(Clone, Copy, PartialEq, Eq, Structural, Debug)]
pub struct Rgba {
    pub r: i64,
    pub g: i64,
    pub b: i64,
    pub a: i64,
}

/// One drawable primitive: its geometry, stroke width where it applies, its
/// color and its depth.
#[derive(Clone, Copy, PartialEq, Eq, Structural, Debug)]
pub enum Prim {
    /// A filled triangle.
    Tri { a: Vec2, b: Vec2, c: Vec2, color: Rgba, z: i64 },
    /// A dot.
    Dot { p: Vec2, width: i64, color: Rgba, z: i64 },
    /// A line segment.
    Line { a: Vec2, b: Vec2, width: i64, color: Rgba, z: i64 },
    /// A rectangle outline spanned by two corners.
    Rect { a: Vec2, b: Vec2, width: i64, color: Rgba, z: i64 },
}

/// Depth of the filled face triangles.
pub const Z_FACE: i64 = 790_000;

/// Depth of the vertex dots.
pub const Z_DOT: i64 = 750_000;

/// Depth of the edge lines.
pub const Z_EDGE: i64 = 770_000;

/// Depth of the pending draw line.
pub const Z_PEND: i64 = 500_000;

/// Depth of the selection rectangle.
pub const Z_RECT: i64 = 780_000;

/// Depth of the highlight dots (snap and selection).
pub const Z_HL: i64 = 600_000;

/// Stroke width of the vertex dots.
pub const DOT_W: i64 = 5_000;

/// Stroke width of the edge lines.
pub const EDGE_W: i64 = 1_000;

/// Stroke width of the pending draw line.
pub const PEND_W: i64 = 3_000;

/// Stroke width of the highlight dots.
pub const HL_W: i64 = 10_000;

/// Fill color of the derived faces.
pub open spec fn face_color() -> Rgba {
    Rgba { r: 0, g: 1_000_000, b: 500_000, a: 100_000 }
}

/// Dot color of a vertex flagged as border.
pub open spec fn border_color() -> Rgba {
    Rgba { r: 0, g: 1_000_000, b: 0, a: 1_000_000 }
}

/// Dot color of an interior vertex.
pub open spec fn inner_color() -> Rgba {
    Rgba { r: 1_000_000, g: 500_000, b: 0, a: 500_000 }
}

/// Line color of an edge whose attribute is one or more (non-negative
/// logarithm), also used for a negative attribute, which has no real
/// logarithm.
pub open spec fn plain_edge_color() -> Rgba {
    Rgba { r: 1_000_000, g: 0, b: 1_000_000, a: 1_000_000 }
}

/// Default line color of an edge without an attribute: a third fixed
/// color, distinct from the ramp and from [`plain_edge_color`].
pub open spec fn default_edge_color() -> Rgba {
    Rgba { r: 500_000, g: 500_000, b: 500_000, a: 1_000_000 }
}

/// Color of the pending draw line.
pub open spec fn pend_color() -> Rgba {
    Rgba { r: 0, g: 1_000_000, b: 1_000_000, a: 1_000_000 }
}

/// Color of the selection rectangle.
pub open spec fn rect_color() -> Rgba {
    Rgba { r: 300_000, g: 300_000, b: 300_000, a: 300_000 }
}

/// Color of the snap highlight dot.
pub open spec fn snap_color() -> Rgba {
    Rgba { r: 1_000_000, g: 1_000_000, b: 0, a: 500_000 }
}

/// Color of a selected vertex's highlight dot.
pub open spec fn sel_color() -> Rgba {
    Rgba { r: 0, g: 1_000_000, b: 0, a: 300_000 }
}

/// The integer part of the decimal logarithm (meaningful for `m >= 1`).
pub open spec fn log10_floor(m: int) -> int
    recommends
        m >= 1,
    decreases m,
{
    if m < 10 {
        0
    } else {
        1 + log10_floor(m / 10)
    }
}

/// The line color derived from an edge attribute.  An attribute below one
/// maps to a ramp whose intensity is a tenth per decade below one, clamped
/// to full for a zero attribute; an attribute of one or more and a
/// negative attribute (no real logarithm) map to the fixed plain color;
/// an absent attribute maps to a third, default color of its own.
pub open spec fn edge_color(dc: Option<i64>) -> Rgba {
    match dc {
        None => default_edge_color(),
        Some(m) => {
            if m >= SCALE || m < 0 {
                plain_edge_color()
            } else if m == 0 {
                Rgba { r: 1_000_000, g: 1_000_000, b: 0, a: 1_000_000 }
            } else {
                Rgba {
                    r: 1_000_000,
                    g: ((6 - log10_floor(m as int)) * 100_000) as i64,
                    b: 0,
                    a: 1_000_000,
                }
            }
        },
    }
}

/// The integer part of the decimal logarithm, executable.
pub fn log10_floor_exec(m: i64) -> (r: i64)
    requires
        1 <= m < SCALE,
    ensures
        r == log10_floor(m as int),
        0 <= r <= 5,
{
    proof {
        reveal_with_fuel(log10_floor, 7);
    }
    if m < 10 {
        0
    } else if m < 100 {
        1
    } else if m < 1_000 {
        2
    } else if m < 10_000 {
        3
    } else if m < 100_000 {
        4
    } else {
        5
    }
}

/// The line color derived from an edge attribute, executable.
pub fn edge_color_exec(dc: Option<i64>) -> (r: Rgba)
    ensures
        r == edge_color(dc),
{
    match dc {
        None => Rgba { r: 500_000, g: 500_000, b: 500_000, a: 1_000_000 },
        Some(m) => {
            if m >= SCALE || m < 0 {
                Rgba { r: 1_000_000, g: 0, b: 1_000_000, a: 1_000_000 }
            } else if m == 0 {
                Rgba { r: 1_000_000, g: 1_000_000, b: 0, a: 1_000_000 }
            } else {
                let lf = log10_floor_exec(m);
                Rgba { r: 1_000_000, g: (6 - lf) * 100_000, b: 0, a: 1_000_000 }
            }
        },
    }
}

// ----------------------------------------------------------------------
// The projection, phase by phase, at spec level.
// ----------------------------------------------------------------------

/// The filled triangle of one derived face.
pub open spec fn face_prim(g: PlanarGraph, f: Tri) -> Prim {
    Prim::Tri {
        a: g.vert_of(f.a).pos,
        b: g.vert_of(f.b).pos,
        c: g.vert_of(f.c).pos,
        color: face_color(),
        z: Z_FACE,
    }
}

/// One filled triangle per derived face, in face order.
pub open spec fn face_prims(g: PlanarGraph) -> Seq<Prim> {
    g.faces@.map_values(|f: Tri| face_prim(g, f))
}

/// The dot of one vertex, colored by its border flag.
pub open spec fn vert_dot(g: PlanarGraph, id: u64) -> Prim {
    Prim::Dot {
        p: g.vert_of(id).pos,
        width: DOT_W,
        color: if g.border@.contains(id) {
            border_color()
        } else {
            inner_color()
        },
        z: Z_DOT,
    }
}

/// One dot per vertex with at least one listed neighbor, over the first `n`
/// adjacency entries in storage order.
pub open spec fn dot_prims(g: PlanarGraph, n: int) -> Seq<Prim>
    decreases n,
{
    if n <= 0 {
        Seq::empty()
    } else {
        let rest = dot_prims(g, n - 1);
        if g.amodel()[n - 1].1.len() > 0 {
            rest.push(vert_dot(g, g.amodel()[n - 1].0))
        } else {
            rest
        }
    }
}

/// The directed neighbor pairs of one adjacency entry, in list order.
pub open spec fn pair_row(e: (u64, Seq<u64>)) -> Seq<(u64, u64)> {
    e.1.map_values(|b: u64| (e.0, b))
}

/// The directed neighbor pairs of the first `n` adjacency entries, in
/// traversal order.
pub open spec fn pairs_upto(m: AdjModel, n: int) -> Seq<(u64, u64)>
    decreases n,
{
    if n <= 0 {
        Seq::empty()
    } else {
        pairs_upto(m, n - 1) + pair_row(m[n - 1])
    }
}

/// The canonical pair of `pr` already occurred in `prev`.
pub open spec fn seen_before(prev: Seq<(u64, u64)>, pr: (u64, u64)) -> bool {
    exists|i: int|
        0 <= i < prev.len() && canon((#[trigger] prev[i]).0, prev[i].1) == canon(pr.0, pr.1)
}

/// The line of one directed pair, colored from the attribute of its
/// canonical pair.
pub open spec fn edge_prim(g: PlanarGraph, pr: (u64, u64)) -> Prim {
    Prim::Line {
        a: g.vert_of(pr.0).pos,
        b: g.vert_of(pr.1).pos,
        width: EDGE_W,
        color: edge_color(dc_spec(g.dcs@, pr.0, pr.1)),
        z: Z_EDGE,
    }
}

/// One line per undirected edge: each directed pair is drawn only when its
/// canonical pair has not occurred earlier in the traversal.
pub open spec fn edge_prims(g: PlanarGraph, ps: Seq<(u64, u64)>) -> Seq<Prim>
    decreases ps.len(),
{
    if ps.len() == 0 {
        Seq::empty()
    } else {
        let rest = edge_prims(g, ps.drop_last());
        if seen_before(ps.drop_last(), ps.last()) {
            rest
        } else {
            rest.push(edge_prim(g, ps.last()))
        }
    }
}

/// The position a pending point resolves to for drawing: the snapped
/// vertex's position, or the raw position.
pub open spec fn pend_pos(g: PlanarGraph, p: PendPoint) -> Vec2 {
    match p {
        PendPoint::Exist(id) => g.vert_of(id).pos,
        PendPoint::New(w) => w,
    }
}

/// The highlighted pending line, present only with two pending points.
pub open spec fn pend_prims(s: Vecdraw) -> Seq<Prim> {
    if s.drawing@.len() == 2 {
        seq![
            Prim::Line {
                a: pend_pos(s.graph, s.drawing@[0]),
                b: pend_pos(s.graph, s.drawing@[1]),
                width: PEND_W,
                color: pend_color(),
                z: Z_PEND,
            },
        ]
    } else {
        Seq::empty()
    }
}

/// The translucent selection rectangle, present only with two corners.
pub open spec fn rect_prims(s: Vecdraw) -> Seq<Prim> {
    if s.select_range@.len() == 2 {
        seq![
            Prim::Rect {
                a: s.select_range@[0],
                b: s.select_range@[1],
                width: 0,
                color: rect_color(),
                z: Z_RECT,
            },
        ]
    } else {
        Seq::empty()
    }
}

/// The snap highlight dot, when a vertex is snapped.
pub open spec fn snap_prims(s: Vecdraw) -> Seq<Prim> {
    match s.snap_highlight {
        Some(id) => seq![
            Prim::Dot { p: s.graph.vert_of(id).pos, width: HL_W, color: snap_color(), z: Z_HL },
        ],
        None => Seq::empty(),
    }
}

/// One highlight dot per selected vertex, in selection order, drawn last.
pub open spec fn sel_prims(s: Vecdraw) -> Seq<Prim> {
    s.selected@.map_values(
        |id: u64|
            Prim::Dot { p: s.graph.vert_of(id).pos, width: HL_W, color: sel_color(), z: Z_HL },
    )
}

/// The full projection: faces, vertex dots, deduplicated edges, then the
/// transient overlays.
pub open spec fn render_spec(s: Vecdraw) -> Seq<Prim> {
    face_prims(s.graph) + dot_prims(s.graph, s.graph.amodel().len() as int) + edge_prims(
        s.graph,
        pairs_upto(s.graph.amodel(), s.graph.amodel().len() as int),
    ) + pend_prims(s) + rect_prims(s) + snap_prims(s) + sel_prims(s)
}

/// `key` is listed in `seen`.
fn pair_seen(seen: &Vec<(u64, u64)>, key: (u64, u64)) -> (r: bool)
    ensures
        r == seen@.contains(key),
{
    let n = seen.len();
    let mut i: usize = 0;
    while i < n
        invariant
            n == seen@.len(),
            i <= n,
            forall|k: int| 0 <= k < i ==> seen@[k] != key,
        decreases n - i,
    {
        let e = seen[i];
        if e.0 == key.0 && e.1 == key.1 {
            proof {
                assert(seen@[i as int] == key);
            }
            return true;
        }
        i = i + 1;
    }
    proof {
        if seen@.contains(key) {
            let k = choose|k: int| 0 <= k < seen@.len() && seen@[k] == key;
            assert(seen@[k] != key);
        }
    }
    false
}

impl Vecdraw {
    /// Projects the session onto the ordered list of drawable primitives,
    /// exactly as [`render_spec`] describes.
    pub fn render(&self) -> (r: Vec<Prim>)
        requires
            self.inv(),
        ensures
            r@ == render_spec(*self),
    {
        let ghost m = self.graph.amodel();
        let mut prims: Vec<Prim> = Vec::new();
        // phase one: one filled triangle per derived face
        let nf = self.graph.faces.len();
        let mut i: usize = 0;
        proof {
            assert(prims@ =~= face_prims(self.graph).take(0));
        }
        while i < nf
            invariant
                self.inv(),
                nf == self.graph.faces@.len(),
                i <= nf,
                prims@ == face_prims(self.graph).take(i as int),
            decreases nf - i,
        {
            let f = self.graph.faces[i];
            proof {
                assert(self.graph.has_vert((#[trigger] self.graph.faces@[i as int]).a)
                    && self.graph.has_vert(self.graph.faces@[i as int].b) && self.graph.has_vert(
                    self.graph.faces@[i as int].c,
                ));
            }
            let pa = self.graph.vert_pos(f.a);
            let pb = self.graph.vert_pos(f.b);
            let pc = self.graph.vert_pos(f.c);
            prims.push(
                Prim::Tri {
                    a: pa,
                    b: pb,
                    c: pc,
                    color: Rgba { r: 0, g: 1_000_000, b: 500_000, a: 100_000 },
                    z: Z_FACE,
                },
            );
            proof {
                assert(prims@ =~= face_prims(self.graph).take(i + 1));
            }
            i = i + 1;
        }
        proof {
            assert(face_prims(self.graph).take(nf as int) =~= face_prims(self.graph));
        }
        let ghost done_faces = prims@;
        // phase two: one dot per vertex with a listed neighbor
        let na = self.graph.adj.len();
        let mut i: usize = 0;
        while i < na
            invariant
                self.inv(),
                m == self.graph.amodel(),
                na == self.graph.adj@.len(),
                i <= na,
                done_faces == face_prims(self.graph),
                prims@ == done_faces + dot_prims(self.graph, i as int),
            decreases na - i,
        {
            if self.graph.adj[i].ns.len() > 0 {
                let id = self.graph.adj[i].id;
                proof {
                    assert((#[trigger] m[i as int]).0 == id);
                    assert(has_key(m, id));
                    assert(self.graph.has_vert(id));
                }
                let p = self.graph.vert_pos(id);
                let isb = list_has(&self.graph.border, id);
                let col = if isb {
                    Rgba { r: 0, g: 1_000_000, b: 0, a: 1_000_000 }
                } else {
                    Rgba { r: 1_000_000, g: 500_000, b: 0, a: 500_000 }
                };
                prims.push(Prim::Dot { p, width: DOT_W, color: col, z: Z_DOT });
            }
            proof {
                assert(prims@ =~= done_faces + dot_prims(self.graph, i + 1));
            }
            i = i + 1;
        }
        let ghost done_dots = prims@;
        // phase three: collect the directed neighbor pairs in traversal order
        let mut pairs: Vec<(u64, u64)> = Vec::new();
        let mut i: usize = 0;
        while i < na
            invariant
                self.inv(),
                m == self.graph.amodel(),
                na == self.graph.adj@.len(),
                i <= na,
                pairs@ == pairs_upto(m, i as int),
                forall|q: int|
                    0 <= q < pairs@.len() ==> (self.graph.has_vert((#[trigger] pairs@[q]).0)
                        && self.graph.has_vert(pairs@[q].1)),
            decreases na - i,
        {
            let a = self.graph.adj[i].id;
            let nn = self.graph.adj[i].ns.len();
            let ghost row = pair_row(m[i as int]);
            proof {
                assert(m[i as int].0 == a);
                lemma_key_at(m, i as int);
                assert(nbs(m, a) == m[i as int].1);
                assert(pairs@ + row.take(0) =~= pairs@);
            }
            let ghost base = pairs@;
            let mut j: usize = 0;
            while j < nn
                invariant
                    self.inv(),
                    m == self.graph.amodel(),
                    i < na,
                    na == self.graph.adj@.len(),
                    a == m[i as int].0,
                    nbs(m, a) == m[i as int].1,
                    nn == m[i as int].1.len(),
                    j <= nn,
                    row == pair_row(m[i as int]),
                    base == pairs_upto(m, i as int),
                    pairs@ == base + row.take(j as int),
                    forall|q: int|
                        0 <= q < pairs@.len() ==> (self.graph.has_vert((#[trigger] pairs@[q]).0)
                            && self.graph.has_vert(pairs@[q].1)),
                decreases nn - j,
            {
                let b = self.graph.adj[i].ns[j];
                proof {
                    assert(m[i as int].1[j as int] == b);
                    assert(row[j as int] == (a, b));
                    assert(row.take(j + 1) =~= row.take(j as int).push(row[j as int]));
                    assert(self.graph.has_vert(nbs(m, a)[j as int]));
                    assert(self.graph.has_vert(a)) by {
                        assert((#[trigger] m[i as int]).0 == a);
                        assert(has_key(m, a));
                    }
                }
                pairs.push((a, b));
                proof {
                    assert(pairs@ =~= base + row.take(j + 1));
                }
                j = j + 1;
            }
            proof {
                assert(row.take(nn as int) =~= row);
                assert(pairs@ =~= pairs_upto(m, i + 1));
            }
            i = i + 1;
        }
        let ghost allpairs = pairs@;
        // phase four: one line per undirected edge, deduplicated by the
        // canonical pair
        let np = pairs.len();
        let mut seen: Vec<(u64, u64)> = Vec::new();
        let mut t: usize = 0;
        proof {
            assert(prims@ =~= done_dots + edge_prims(self.graph, allpairs.take(0)));
        }
        while t < np
            invariant
                self.inv(),
                np == allpairs.len(),
                t <= np,
                pairs@ == allpairs,
                done_dots == face_prims(self.graph) + dot_prims(
                    self.graph,
                    self.graph.amodel().len() as int,
                ),
                prims@ == done_dots + edge_prims(self.graph, allpairs.take(t as int)),
                forall|q: int|
                    0 <= q < allpairs.len() ==> (self.graph.has_vert((#[trigger] allpairs[q]).0)
                        && self.graph.has_vert(allpairs[q].1)),
                forall|key: (u64, u64)|
                    #[trigger] seen@.contains(key) <==> (exists|q: int|
                        0 <= q < t && canon((#[trigger] allpairs[q]).0, allpairs[q].1) == key),
            decreases np - t,
        {
            let pr = pairs[t];
            let key = PlanarGraph::edge_key(pr.0, pr.1);
            let dup = pair_seen(&seen, key);
            proof {
                assert(allpairs[t as int] == pr);
                assert(dup == seen_before(allpairs.take(t as int), pr)) by {
                    if dup {
                        let q = choose|q: int|
                            0 <= q < t && canon((#[trigger] allpairs[q]).0, allpairs[q].1) == key;
                        assert(allpairs.take(t as int)[q] == allpairs[q]);
                        assert(seen_before(allpairs.take(t as int), pr));
                    }
                    if seen_before(allpairs.take(t as int), pr) {
                        let q = choose|q: int|
                            0 <= q < allpairs.take(t as int).len() && canon(
                                (#[trigger] allpairs.take(t as int)[q]).0,
                                allpairs.take(t as int)[q].1,
                            ) == canon(pr.0, pr.1);
                        assert(allpairs[q] == allpairs.take(t as int)[q]);
                        assert(canon((#[trigger] allpairs[q]).0, allpairs[q].1) == key);
                        assert(seen@.contains(key));
                    }
                }
            }
            let ghost seen0 = seen@;
            if !dup {
                seen.push(key);
                proof {
                    assert(seen@ == seen0.push(key));
                    assert(seen@[seen0.len() as int] == key);
                    assert forall|k2: (u64, u64)| #[trigger] seen@.contains(k2) <==> (exists|
                        q: int,
                    |
                        0 <= q < t + 1 && canon((#[trigger] allpairs[q]).0, allpairs[q].1)
                            == k2) by {
                        if seen@.contains(k2) {
                            let w = choose|w: int| 0 <= w < seen@.len() && seen@[w] == k2;
                            if w < seen0.len() {
                                assert(seen0[w] == k2);
                                assert(seen0.contains(k2));
                                let q = choose|q: int|
                                    0 <= q < t && canon(
                                        (#[trigger] allpairs[q]).0,
                                        allpairs[q].1,
                                    ) == k2;
                                assert(canon((#[trigger] allpairs[q]).0, allpairs[q].1) == k2);
                            } else {
                                assert(k2 == key);
                                assert(canon((#[trigger] allpairs[t as int]).0,
                                    allpairs[t as int].1) == key);
                            }
                        }
                        if exists|q: int|
                            0 <= q < t + 1 && canon((#[trigger] allpairs[q]).0, allpairs[q].1)
                                == k2 {
                            let q = choose|q: int|
                                0 <= q < t + 1 && canon((#[trigger] allpairs[q]).0,
                                    allpairs[q].1) == k2;
                            if q < t {
                                assert(seen0.contains(k2));
                                let w = choose|w: int| 0 <= w < seen0.len() && seen0[w] == k2;
                                assert(seen@[w] == k2);
                            } else {
                                assert(k2 == key);
                            }
                        }
                    }
                }
                let pa = self.graph.vert_pos(pr.0);
                let pb = self.graph.vert_pos(pr.1);
                let dc = self.graph.dc_of(pr.0, pr.1);
                let col = edge_color_exec(dc);
                prims.push(Prim::Line { a: pa, b: pb, width: EDGE_W, color: col, z: Z_EDGE });
            } else {
                proof {
                    assert forall|k2: (u64, u64)| #[trigger] seen@.contains(k2) <==> (exists|
                        q: int,
                    |
                        0 <= q < t + 1 && canon((#[trigger] allpairs[q]).0, allpairs[q].1)
                            == k2) by {
                        if seen@.contains(k2) {
                            let q = choose|q: int|
                                0 <= q < t && canon((#[trigger] allpairs[q]).0, allpairs[q].1)
                                    == k2;
                            assert(canon((#[trigger] allpairs[q]).0, allpairs[q].1) == k2);
                        }
                        if exists|q: int|
                            0 <= q < t + 1 && canon((#[trigger] allpairs[q]).0, allpairs[q].1)
                                == k2 {
                            let q = choose|q: int|
                                0 <= q < t + 1 && canon((#[trigger] allpairs[q]).0,
                                    allpairs[q].1) == k2;
                            if q < t {
                                assert(seen@.contains(k2));
                            } else {
                                assert(k2 == key);
                                assert(seen@.contains(key));
                            }
                        }
                    }
                }
            }
            proof {
                assert(allpairs.take(t + 1).drop_last() =~= allpairs.take(t as int));
                assert(allpairs.take(t + 1).last() == allpairs[t as int]);
                assert(prims@ =~= done_dots + edge_prims(self.graph, allpairs.take(t + 1)));
            }
            t = t + 1;
        }
        proof {
            assert(allpairs.take(np as int) =~= allpairs);
        }
        let ghost done_edges = prims@;
        // phase five: the pending draw line
        if self.drawing.len() == 2 {
            let p0 = self.drawing[0];
            let p1 = self.drawing[1];
            proof {
                assert(self.pend_ok(#[trigger] self.drawing@[0]));
                assert(self.pend_ok(#[trigger] self.drawing@[1]));
            }
            let a = match p0 {
                PendPoint::Exist(id) => self.graph.vert_pos(id),
                PendPoint::New(w) => w,
            };
            let b = match p1 {
                PendPoint::Exist(id) => self.graph.vert_pos(id),
                PendPoint::New(w) => w,
            };
            prims.push(
                Prim::Line {
                    a,
                    b,
                    width: PEND_W,
                    color: Rgba { r: 0, g: 1_000_000, b: 1_000_000, a: 1_000_000 },
                    z: Z_PEND,
                },
            );
        }
        proof {
            assert(prims@ =~= done_edges + pend_prims(*self));
        }
        let ghost done_pend = prims@;
        // phase six: the selection rectangle
        if self.select_range.len() == 2 {
            let c1 = self.select_range[0];
            let c2 = self.select_range[1];
            prims.push(
                Prim::Rect {
                    a: c1,
                    b: c2,
                    width: 0,
                    color: Rgba { r: 300_000, g: 300_000, b: 300_000, a: 300_000 },
                    z: Z_RECT,
                },
            );
        }
        proof {
            assert(prims@ =~= done_pend + rect_prims(*self));
        }
        let ghost done_rect = prims@;
        // phase seven: the snap highlight
        match self.snap_highlight {
            Some(id) => {
                let p = self.graph.vert_pos(id);
                prims.push(
                    Prim::Dot {
                        p,
                        width: HL_W,
                        color: Rgba { r: 1_000_000, g: 1_000_000, b: 0, a: 500_000 },
                        z: Z_HL,
                    },
                );
            },
            None => {},
        }
        proof {
            assert(prims@ =~= done_rect + snap_prims(*self));
        }
        let ghost done_snap = prims@;
        // phase eight: one highlight dot per selected vertex
        let ns = self.selected.len();
        let mut k: usize = 0;
        while k < ns
            invariant
                self.inv(),
                ns == self.selected@.len(),
                k <= ns,
                done_snap == prims_before_sel(*self),
                prims@ == done_snap + sel_prims(*self).take(k as int),
            decreases ns - k,
        {
            let id = self.selected[k];
            proof {
                assert(self.graph.has_vert(#[trigger] self.selected@[k as int]));
                assert(sel_prims(*self).take(k + 1) =~= sel_prims(*self).take(k as int).push(
                    sel_prims(*self)[k as int],
                ));
            }
            let p = self.graph.vert_pos(id);
            prims.push(
                Prim::Dot {
                    p,
                    width: HL_W,
                    color: Rgba { r: 0, g: 1_000_000, b: 0, a: 300_000 },
                    z: Z_HL,
                },
            );
            proof {
                assert(prims@ =~= done_snap + sel_prims(*self).take(k + 1));
            }
            k = k + 1;
        }
        proof {
            assert(sel_prims(*self).take(ns as int) =~= sel_prims(*self));
            assert(prims@ =~= render_spec(*self));
        }
        prims
    }
}

/// The projection up to, and without, the selected-vertex dots.
pub open spec fn prims_before_sel(s: Vecdraw) -> Seq<Prim> {
    face_prims(s.graph) + dot_prims(s.graph, s.graph.amodel().len() as int) + edge_prims(
        s.graph,
        pairs_upto(s.graph.amodel(), s.graph.amodel().len() as int),
    ) + pend_prims(s) + rect_prims(s) + snap_prims(s)
}

} // verus!
