use vecdraw::geom::Vec2;
use vecdraw::graph::AdjEntry;
use vecdraw::graph::DcEntry;
use vecdraw::graph::PlanarGraph;
use vecdraw::graph::VertEntry;
use vecdraw::graph::Vertex;
use vecdraw::session::DrawOutcome;
use vecdraw::session::Vecdraw;

fn vert(id: u64, x: i64, y: i64) -> VertEntry {
    VertEntry {
        id,
        v: Vertex {
            pos: Vec2 { x, y },
            tex: Vec2 { x, y },
            im: 1_000_000,
        },
    }
}

fn adj(id: u64, ns: &[u64]) -> AdjEntry {
    AdjEntry {
        id,
        ns: ns.to_vec(),
    }
}

fn v2(x: i64, y: i64) -> Vec2 {
    Vec2 { x, y }
}

/// An empty session.
fn empty_session() -> Vecdraw {
    Vecdraw::new(PlanarGraph::new())
}

/// Two vertices connected by an edge, made through the drawing gestures.
fn two_connected() -> Vecdraw {
    let mut s = empty_session();
    s.drawing_update(v2(0, 0));
    s.drawing_update(v2(1_000_000, 0));
    let r = s.finish_draw();
    assert_eq!(r, DrawOutcome::Connected(0, 1));
    s
}

#[test]
fn draw_creates_two_vertices_and_an_edge() {
    let s = two_connected();
    assert_eq!(s.graph.verts.len(), 2);
    assert_eq!(s.graph.verts[0].v.pos, v2(0, 0));
    assert_eq!(s.graph.verts[1].v.pos, v2(1_000_000, 0));
    // the new vertex takes its position as texture coordinate, mass one
    assert_eq!(s.graph.verts[0].v.tex, v2(0, 0));
    assert_eq!(s.graph.verts[0].v.im, 1_000_000);
    assert!(s.graph.has_edge(0, 1));
    assert_eq!(s.graph.next_id, 2);
    assert_eq!(s.drawing.len(), 0);
}

#[test]
fn drawing_update_caps_at_two_points_replacing_the_second() {
    let mut s = empty_session();
    s.drawing_update(v2(0, 0));
    s.drawing_update(v2(1, 0));
    s.drawing_update(v2(2, 0));
    s.drawing_update(v2(3, 0));
    assert_eq!(s.drawing.len(), 2);
    let r = s.finish_draw();
    // the second slot took the last position
    assert_eq!(r, DrawOutcome::Connected(0, 1));
    assert_eq!(s.graph.verts[1].v.pos, v2(3, 0));
}

#[test]
fn finish_draw_without_two_points_is_incomplete() {
    let mut s = empty_session();
    assert_eq!(s.finish_draw(), DrawOutcome::Incomplete);
    s.drawing_update(v2(5, 5));
    assert_eq!(s.finish_draw(), DrawOutcome::Incomplete);
    assert_eq!(s.graph.verts.len(), 0);
    assert_eq!(s.drawing.len(), 0);
}

#[test]
fn duplicate_edge_rejected_counts_unchanged() {
    // drawing a second edge between two already-connected ids leaves the
    // graph's vertex and edge counts unchanged
    let mut s = two_connected();
    // snap onto vertex 0, buffer it, snap onto vertex 1, buffer it
    s.snap_update(v2(1, 1));
    assert_eq!(s.snap_highlight, Some(0));
    s.drawing_update(v2(1, 1));
    s.snap_update(v2(999_999, 0));
    assert_eq!(s.snap_highlight, Some(1));
    s.drawing_update(v2(999_999, 0));
    let r = s.finish_draw();
    assert_eq!(r, DrawOutcome::DuplicateEdge);
    assert_eq!(s.graph.verts.len(), 2);
    assert_eq!(s.graph.adj.len(), 2);
    assert_eq!(s.graph.adj[0].ns, vec![1]);
    assert_eq!(s.graph.adj[1].ns, vec![0]);
    assert_eq!(s.drawing.len(), 0);
}

#[test]
fn snap_radius_is_exclusive() {
    // a vertex at distance 0.199 is highlighted, one at 0.2 is not
    let verts = vec![vert(0, 199_000, 0)];
    let g = PlanarGraph::from_parts(verts, vec![], vec![]).unwrap();
    let mut s = Vecdraw::new(g);
    s.snap_update(v2(0, 0));
    assert_eq!(s.snap_highlight, Some(0));

    let verts = vec![vert(0, 200_000, 0)];
    let g = PlanarGraph::from_parts(verts, vec![], vec![]).unwrap();
    let mut s = Vecdraw::new(g);
    s.snap_update(v2(0, 0));
    assert_eq!(s.snap_highlight, None);
}

#[test]
fn snap_picks_first_closest_and_clears() {
    let verts = vec![vert(3, 100_000, 0), vert(5, -100_000, 0)];
    let g = PlanarGraph::from_parts(verts, vec![], vec![]).unwrap();
    let mut s = Vecdraw::new(g);
    // both vertices are equally close: the first encountered wins
    s.snap_update(v2(0, 0));
    assert_eq!(s.snap_highlight, Some(3));
    // a strictly closer one takes over
    s.snap_update(v2(-60_000, 0));
    assert_eq!(s.snap_highlight, Some(5));
    s.snap_off();
    assert_eq!(s.snap_highlight, None);
}

#[test]
fn rectangle_selection_boundary_is_strict() {
    // corners (0,0) and (2,2): a vertex at (1,1) is selected, one exactly
    // on the edge at (2,1) is not
    let verts = vec![
        vert(0, 1_000_000, 1_000_000),
        vert(1, 2_000_000, 1_000_000),
    ];
    let g = PlanarGraph::from_parts(verts, vec![], vec![]).unwrap();
    let mut s = Vecdraw::new(g);
    s.select_update(v2(0, 0));
    s.select_update(v2(2_000_000, 2_000_000));
    s.finish_select();
    assert_eq!(s.selected, vec![0]);
    assert_eq!(s.select_range.len(), 0);
}

#[test]
fn rectangle_selection_with_reversed_corners() {
    let verts = vec![vert(0, -500_000, -500_000)];
    let g = PlanarGraph::from_parts(verts, vec![], vec![]).unwrap();
    let mut s = Vecdraw::new(g);
    s.select_update(v2(0, 0));
    s.select_update(v2(-1_000_000, -1_000_000));
    s.finish_select();
    assert_eq!(s.selected, vec![0]);
}

#[test]
fn finish_select_without_two_corners_clears_selection() {
    let verts = vec![vert(0, 0, 0)];
    let g = PlanarGraph::from_parts(verts, vec![], vec![]).unwrap();
    let mut s = Vecdraw::new(g);
    s.snap_update(v2(0, 0));
    s.exact_select();
    assert_eq!(s.selected, vec![0]);
    s.select_update(v2(0, 0));
    s.finish_select();
    assert_eq!(s.selected.len(), 0);
}

#[test]
fn exact_select_needs_a_snap_target() {
    let verts = vec![vert(0, 0, 0)];
    let g = PlanarGraph::from_parts(verts, vec![], vec![]).unwrap();
    let mut s = Vecdraw::new(g);
    s.snap_update(v2(0, 0));
    s.exact_select();
    assert_eq!(s.selected, vec![0]);
    // without a highlight the selection stays as it is
    s.snap_off();
    s.exact_select();
    assert_eq!(s.selected, vec![0]);
    s.unselect();
    assert_eq!(s.selected.len(), 0);
}

#[test]
fn move_delta_accumulates_between_samples() {
    // starting with no anchor, two samples displace by their difference,
    // not by the second sample itself
    let verts = vec![vert(0, 1_000_000, 2_000_000)];
    let g = PlanarGraph::from_parts(verts, vec![], vec![]).unwrap();
    let mut s = Vecdraw::new(g);
    s.snap_update(v2(1_000_000, 2_000_000));
    s.exact_select();
    s.move_select(v2(700_000, 700_000));
    // first sample only plants the anchor
    assert_eq!(s.graph.verts[0].v.pos, v2(1_000_000, 2_000_000));
    s.move_select(v2(900_000, 600_000));
    assert_eq!(s.graph.verts[0].v.pos, v2(1_200_000, 1_900_000));
    s.move_end();
    assert_eq!(s.move_anchor, None);
    // after the gesture ended, a fresh sample plants a fresh anchor
    s.move_select(v2(0, 0));
    assert_eq!(s.graph.verts[0].v.pos, v2(1_200_000, 1_900_000));
}

#[test]
fn move_displaces_only_the_selection() {
    let verts = vec![vert(0, 0, 0), vert(1, 500_000, 0)];
    let g = PlanarGraph::from_parts(verts, vec![], vec![]).unwrap();
    let mut s = Vecdraw::new(g);
    s.snap_update(v2(0, 0));
    s.exact_select();
    s.move_select(v2(0, 0));
    s.move_select(v2(0, 250_000));
    assert_eq!(s.graph.verts[0].v.pos, v2(0, 250_000));
    assert_eq!(s.graph.verts[1].v.pos, v2(500_000, 0));
}

#[test]
fn delete_cascades_through_the_graph() {
    // after deleting {v}, v is absent from the vertex map and from every
    // neighbor list, and the derived faces and border set are empty
    let verts = vec![vert(0, 0, 0), vert(1, 1_000_000, 0), vert(2, 0, 1_000_000)];
    let adjs = vec![adj(0, &[1, 2]), adj(1, &[0]), adj(2, &[0])];
    let g = PlanarGraph::from_parts(verts, adjs, vec![]).unwrap();
    let mut s = Vecdraw::new(g);
    s.build(
        vec![vecdraw::graph::Tri { a: 0, b: 1, c: 2 }],
        vec![0, 1, 2],
    )
    .unwrap();
    assert_eq!(s.graph.faces.len(), 1);
    s.snap_update(v2(0, 0));
    s.exact_select();
    assert_eq!(s.selected, vec![0]);
    s.delete_select();
    assert_eq!(s.selected.len(), 0);
    assert_eq!(s.graph.faces.len(), 0);
    assert_eq!(s.graph.border.len(), 0);
    assert!(s.graph.verts.iter().all(|e| e.id != 0));
    assert!(s.graph.adj.iter().all(|e| e.id != 0));
    assert!(s.graph.adj.iter().all(|e| e.ns.iter().all(|&n| n != 0)));
    // the survivors keep their records
    assert_eq!(s.graph.verts.len(), 2);
    assert_eq!(s.graph.next_id, 3);
    // the identifier of a deleted vertex is never reissued
    s.drawing_update(v2(0, 0));
    s.drawing_update(v2(500_000, 500_000));
    assert_eq!(s.finish_draw(), DrawOutcome::Connected(3, 4));
}

#[test]
fn delete_with_empty_selection_still_clears_caches() {
    let verts = vec![vert(0, 0, 0)];
    let g = PlanarGraph::from_parts(verts, vec![], vec![]).unwrap();
    let mut s = Vecdraw::new(g);
    s.build(vec![], vec![0]).unwrap();
    assert_eq!(s.graph.border, vec![0]);
    s.delete_select();
    assert_eq!(s.graph.border.len(), 0);
    assert_eq!(s.graph.verts.len(), 1);
}

#[test]
fn delete_drops_dangling_transients() {
    let verts = vec![vert(0, 0, 0), vert(1, 1_000_000, 0)];
    let g = PlanarGraph::from_parts(verts, vec![], vec![]).unwrap();
    let mut s = Vecdraw::new(g);
    // highlight and a pending point both name vertex 0
    s.snap_update(v2(0, 0));
    s.drawing_update(v2(0, 0));
    s.exact_select();
    s.delete_select();
    assert_eq!(s.snap_highlight, None);
    assert_eq!(s.drawing.len(), 0);
}

#[test]
fn stale_attribute_entries_survive_deletion() {
    // the attribute map is not pruned when an edge's vertex goes away: the
    // entry stays, harmless, keyed by an identifier that is never reissued
    let verts = vec![vert(0, 0, 0), vert(1, 1_000_000, 0)];
    let adjs = vec![adj(0, &[1]), adj(1, &[0])];
    let dcs = vec![DcEntry { a: 0, b: 1, val: 77 }];
    let g = PlanarGraph::from_parts(verts, adjs, dcs).unwrap();
    let mut s = Vecdraw::new(g);
    s.snap_update(v2(0, 0));
    s.exact_select();
    s.delete_select();
    assert!(!s.graph.verts.iter().any(|e| e.id == 0));
    assert_eq!(s.graph.dcs, vec![DcEntry { a: 0, b: 1, val: 77 }]);
}

#[test]
fn apply_dcv_stamps_only_fully_selected_edges() {
    let verts = vec![vert(0, 0, 0), vert(1, 400_000, 0), vert(2, 0, 400_000)];
    let adjs = vec![adj(0, &[1, 2]), adj(1, &[0]), adj(2, &[0])];
    let dcs = vec![
        DcEntry { a: 0, b: 1, val: 111 },
        DcEntry { a: 0, b: 2, val: 222 },
    ];
    let g = PlanarGraph::from_parts(verts, adjs, dcs).unwrap();
    let mut s = Vecdraw::new(g);
    s.set_dcv(999);
    // select vertices 0 and 1 by rectangle
    s.select_update(v2(-100_000, -100_000));
    s.select_update(v2(500_000, 100_000));
    s.finish_select();
    assert_eq!(s.selected.len(), 2);
    s.select_apply_dcv();
    // only the edge with both endpoints selected was stamped
    assert_eq!(s.graph.dcs[0].val, 999);
    assert_eq!(s.graph.dcs[1].val, 222);
}

#[test]
fn build_rejects_unknown_vertices() {
    let verts = vec![vert(0, 0, 0)];
    let g = PlanarGraph::from_parts(verts, vec![], vec![]).unwrap();
    let mut s = Vecdraw::new(g);
    let r = s.build(vec![vecdraw::graph::Tri { a: 0, b: 1, c: 2 }], vec![]);
    assert!(r.is_err());
    assert_eq!(s.graph.faces.len(), 0);
    let r = s.build(vec![], vec![9]);
    assert!(r.is_err());
    assert_eq!(s.graph.border.len(), 0);
}

#[test]
fn self_loop_is_permitted_once() {
    // a degenerate edge from a vertex to itself is permitted, and a second
    // one between the same pair is rejected
    let verts = vec![vert(0, 0, 0)];
    let g = PlanarGraph::from_parts(verts, vec![], vec![]).unwrap();
    let mut s = Vecdraw::new(g);
    s.snap_update(v2(0, 0));
    s.drawing_update(v2(0, 0));
    s.drawing_update(v2(0, 0));
    assert_eq!(s.finish_draw(), DrawOutcome::Connected(0, 0));
    assert_eq!(s.graph.adj[0].ns, vec![0, 0]);
    s.drawing_update(v2(0, 0));
    s.drawing_update(v2(0, 0));
    assert_eq!(s.finish_draw(), DrawOutcome::DuplicateEdge);
    assert_eq!(s.graph.adj[0].ns, vec![0, 0]);
}
