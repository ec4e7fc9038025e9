use vecdraw::geom::Vec2;
use vecdraw::graph::AdjEntry;
use vecdraw::graph::DcEntry;
use vecdraw::graph::GraphError;
use vecdraw::graph::PlanarGraph;
use vecdraw::graph::VertEntry;
use vecdraw::graph::Vertex;

fn vert(id: u64, x: i64, y: i64) -> VertEntry {
    VertEntry {
        id,
        v: Vertex {
            pos: Vec2 { x, y },
            tex: Vec2 { x, y },
            im: 1_000_000,
        },
    }
}

fn adj(id: u64, ns: &[u64]) -> AdjEntry {
    AdjEntry {
        id,
        ns: ns.to_vec(),
    }
}

#[test]
fn edge_key_canonicalizes_ascending() {
    assert_eq!(PlanarGraph::edge_key(5, 3), (3, 5));
    assert_eq!(PlanarGraph::edge_key(3, 5), (3, 5));
    assert_eq!(PlanarGraph::edge_key(7, 7), (7, 7));
}

#[test]
fn empty_graph_from_new() {
    let g = PlanarGraph::new();
    assert_eq!(g.verts.len(), 0);
    assert_eq!(g.adj.len(), 0);
    assert_eq!(g.dcs.len(), 0);
    assert_eq!(g.faces.len(), 0);
    assert_eq!(g.border.len(), 0);
    assert_eq!(g.next_id, 0);
}

#[test]
fn from_parts_accepts_consistent_data() {
    let verts = vec![vert(0, 0, 0), vert(1, 1_000_000, 0), vert(4, 0, 1_000_000)];
    let adjs = vec![adj(0, &[1]), adj(1, &[0])];
    let dcs = vec![DcEntry { a: 0, b: 1, val: 250_000 }];
    let g = PlanarGraph::from_parts(verts, adjs, dcs).unwrap();
    // the counter sits just above the largest identifier
    assert_eq!(g.next_id, 5);
    assert_eq!(g.verts.len(), 3);
    assert!(g.has_edge(0, 1));
    assert!(g.has_edge(1, 0));
    assert!(!g.has_edge(0, 4));
    assert_eq!(g.dc_of(1, 0), Some(250_000));
    assert_eq!(g.dc_of(0, 4), None);
}

#[test]
fn from_parts_rejects_duplicate_vertex_id() {
    let verts = vec![vert(0, 0, 0), vert(0, 1, 1)];
    let r = PlanarGraph::from_parts(verts, vec![], vec![]);
    assert_eq!(r.unwrap_err(), GraphError::DuplicateVertexId);
}

#[test]
fn from_parts_rejects_position_out_of_range() {
    let verts = vec![vert(0, 1_000_000_001, 0)];
    let r = PlanarGraph::from_parts(verts, vec![], vec![]);
    assert_eq!(r.unwrap_err(), GraphError::VertexOutOfRange);
}

#[test]
fn from_parts_rejects_exhausted_id_space() {
    let verts = vec![vert(u64::MAX, 0, 0)];
    let r = PlanarGraph::from_parts(verts, vec![], vec![]);
    assert_eq!(r.unwrap_err(), GraphError::IdSpaceExhausted);
}

#[test]
fn from_parts_rejects_duplicate_adjacency_key() {
    let verts = vec![vert(0, 0, 0), vert(1, 1, 1)];
    let adjs = vec![adj(0, &[1]), adj(0, &[1]), adj(1, &[0, 0])];
    let r = PlanarGraph::from_parts(verts, adjs, vec![]);
    assert_eq!(r.unwrap_err(), GraphError::DuplicateAdjacencyKey);
}

#[test]
fn from_parts_rejects_unknown_adjacency_key() {
    let verts = vec![vert(0, 0, 0)];
    let adjs = vec![adj(9, &[])];
    let r = PlanarGraph::from_parts(verts, adjs, vec![]);
    assert_eq!(r.unwrap_err(), GraphError::UnknownAdjacencyKey);
}

#[test]
fn from_parts_rejects_unknown_neighbor() {
    let verts = vec![vert(0, 0, 0)];
    let adjs = vec![adj(0, &[9])];
    let r = PlanarGraph::from_parts(verts, adjs, vec![]);
    assert_eq!(r.unwrap_err(), GraphError::UnknownNeighbor);
}

#[test]
fn from_parts_rejects_asymmetric_adjacency() {
    let verts = vec![vert(0, 0, 0), vert(1, 1, 1)];
    let adjs = vec![adj(0, &[1]), adj(1, &[])];
    let r = PlanarGraph::from_parts(verts, adjs, vec![]);
    assert_eq!(r.unwrap_err(), GraphError::AsymmetricAdjacency);
}

#[test]
fn from_parts_rejects_doubled_connection() {
    let verts = vec![vert(0, 0, 0), vert(1, 1, 1)];
    let adjs = vec![adj(0, &[1, 1]), adj(1, &[0, 0])];
    let r = PlanarGraph::from_parts(verts, adjs, vec![]);
    assert_eq!(r.unwrap_err(), GraphError::DuplicateEdge);
}

#[test]
fn from_parts_rejects_descending_attribute_key() {
    let verts = vec![vert(0, 0, 0), vert(1, 1, 1)];
    let dcs = vec![DcEntry { a: 1, b: 0, val: 7 }];
    let r = PlanarGraph::from_parts(verts, vec![], dcs);
    assert_eq!(r.unwrap_err(), GraphError::BadAttributeKey);
}

#[test]
fn from_parts_rejects_duplicate_attribute_key() {
    let verts = vec![vert(0, 0, 0), vert(1, 1, 1)];
    let dcs = vec![
        DcEntry { a: 0, b: 1, val: 7 },
        DcEntry { a: 0, b: 1, val: 8 },
    ];
    let r = PlanarGraph::from_parts(verts, vec![], dcs);
    assert_eq!(r.unwrap_err(), GraphError::DuplicateAttributeKey);
}

#[test]
fn parts_of_an_edited_graph_load_back_unchanged() {
    // a graph built through the editing operations round-trips through the
    // persistence boundary: its parts are accepted and identical
    let mut s = vecdraw::session::Vecdraw::new(PlanarGraph::new());
    s.drawing_update(Vec2 { x: 0, y: 0 });
    s.drawing_update(Vec2 { x: 1_000_000, y: 0 });
    s.finish_draw();
    s.drawing_update(Vec2 { x: 0, y: 1_000_000 });
    s.snap_update(Vec2 { x: 1_000, y: 0 });
    s.drawing_update(Vec2 { x: 0, y: 0 });
    s.finish_draw();
    let g = &s.graph;
    let verts: Vec<VertEntry> = g.verts.clone();
    let adjs: Vec<AdjEntry> = g
        .adj
        .iter()
        .map(|e| AdjEntry { id: e.id, ns: e.ns.clone() })
        .collect();
    let dcs: Vec<DcEntry> = g.dcs.clone();
    let g2 = PlanarGraph::from_parts(verts, adjs, dcs).unwrap();
    assert_eq!(g2.verts, g.verts);
    assert_eq!(g2.dcs, g.dcs);
    assert_eq!(g2.adj.len(), g.adj.len());
    for (a, b) in g2.adj.iter().zip(g.adj.iter()) {
        assert_eq!(a.id, b.id);
        assert_eq!(a.ns, b.ns);
    }
}

#[test]
fn from_parts_drops_no_data() {
    // a loaded graph keeps vertices, adjacency and attributes exactly
    let verts = vec![vert(2, -5, 9), vert(7, 3, 4)];
    let adjs = vec![adj(7, &[2]), adj(2, &[7])];
    let dcs = vec![DcEntry { a: 2, b: 7, val: 123 }];
    let g = PlanarGraph::from_parts(verts, adjs, dcs).unwrap();
    assert_eq!(g.verts[0].id, 2);
    assert_eq!(g.verts[0].v.pos, Vec2 { x: -5, y: 9 });
    assert_eq!(g.verts[1].id, 7);
    assert_eq!(g.adj[0].id, 7);
    assert_eq!(g.adj[0].ns, vec![2]);
    assert_eq!(g.adj[1].id, 2);
    assert_eq!(g.adj[1].ns, vec![7]);
    assert_eq!(g.dcs[0], DcEntry { a: 2, b: 7, val: 123 });
    assert_eq!(g.faces.len(), 0);
    assert_eq!(g.border.len(), 0);
}
