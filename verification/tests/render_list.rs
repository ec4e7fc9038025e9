use vecdraw::geom::Vec2;
use vecdraw::graph::AdjEntry;
use vecdraw::graph::DcEntry;
use vecdraw::graph::PlanarGraph;
use vecdraw::graph::Tri;
use vecdraw::graph::VertEntry;
use vecdraw::graph::Vertex;
use vecdraw::render::Prim;
use vecdraw::render::edge_color_exec;
use vecdraw::render::log10_floor_exec;
use vecdraw::render::Rgba;
use vecdraw::session::Vecdraw;

fn vert(id: u64, x: i64, y: i64) -> VertEntry {
    VertEntry {
        id,
        v: Vertex {
            pos: Vec2 { x, y },
            tex: Vec2 { x, y },
            im: 1_000_000,
        },
    }
}

fn adj(id: u64, ns: &[u64]) -> AdjEntry {
    AdjEntry {
        id,
        ns: ns.to_vec(),
    }
}

fn v2(x: i64, y: i64) -> Vec2 {
    Vec2 { x, y }
}

fn lines(prims: &[Prim]) -> Vec<Prim> {
    prims
        .iter()
        .filter(|p| matches!(p, Prim::Line { .. }))
        .cloned()
        .collect()
}

fn line_color(p: &Prim) -> Rgba {
    match p {
        Prim::Line { color, .. } => *color,
        _ => panic!("not a line"),
    }
}

#[test]
fn color_formula_boundaries() {
    let plain = Rgba { r: 1_000_000, g: 0, b: 1_000_000, a: 1_000_000 };
    // an absent attribute takes the third, default color, distinct from
    // the fixed color of attributes of one or more
    let absent = Rgba { r: 500_000, g: 500_000, b: 500_000, a: 1_000_000 };
    assert_eq!(edge_color_exec(None), absent);
    assert_ne!(absent, plain);
    // an attribute of at least one takes the fixed plain color
    assert_eq!(edge_color_exec(Some(1_000_000)), plain);
    assert_eq!(edge_color_exec(Some(10_000_000)), plain);
    // a negative attribute has no real logarithm: plain as well
    assert_eq!(edge_color_exec(Some(-5)), plain);
    // just under one: the weakest ramp step
    assert_eq!(
        edge_color_exec(Some(999_999)),
        Rgba { r: 1_000_000, g: 100_000, b: 0, a: 1_000_000 }
    );
    // one thousandth: intensity three tenths
    assert_eq!(
        edge_color_exec(Some(1_000)),
        Rgba { r: 1_000_000, g: 300_000, b: 0, a: 1_000_000 }
    );
    // the smallest positive attribute: intensity six tenths
    assert_eq!(
        edge_color_exec(Some(1)),
        Rgba { r: 1_000_000, g: 600_000, b: 0, a: 1_000_000 }
    );
    // a zero attribute clamps the ramp to full intensity
    assert_eq!(
        edge_color_exec(Some(0)),
        Rgba { r: 1_000_000, g: 1_000_000, b: 0, a: 1_000_000 }
    );
}

#[test]
fn log10_floor_matches_decades() {
    assert_eq!(log10_floor_exec(1), 0);
    assert_eq!(log10_floor_exec(9), 0);
    assert_eq!(log10_floor_exec(10), 1);
    assert_eq!(log10_floor_exec(99), 1);
    assert_eq!(log10_floor_exec(100), 2);
    assert_eq!(log10_floor_exec(10_000), 4);
    assert_eq!(log10_floor_exec(999_999), 5);
}

#[test]
fn empty_session_renders_nothing() {
    let s = Vecdraw::new(PlanarGraph::new());
    assert_eq!(s.render().len(), 0);
}

#[test]
fn edge_color_mapping_distinguishes_attributes() {
    // an attribute of 0.001 (decimal exponent -3) and one of 10 render
    // with two distinct, deterministic colors
    let verts = vec![
        vert(0, 0, 0),
        vert(1, 1_000_000, 0),
        vert(2, 0, 1_000_000),
        vert(3, 1_000_000, 1_000_000),
    ];
    let adjs = vec![adj(0, &[1]), adj(1, &[0]), adj(2, &[3]), adj(3, &[2])];
    let dcs = vec![
        DcEntry { a: 0, b: 1, val: 1_000 },      // 0.001
        DcEntry { a: 2, b: 3, val: 10_000_000 }, // 10
    ];
    let g = PlanarGraph::from_parts(verts, adjs, dcs).unwrap();
    let s = Vecdraw::new(g);
    let prims = s.render();
    let ls = lines(&prims);
    assert_eq!(ls.len(), 2);
    // 0.001: ramp with intensity 0.3
    assert_eq!(
        line_color(&ls[0]),
        Rgba { r: 1_000_000, g: 300_000, b: 0, a: 1_000_000 }
    );
    // 10: the fixed non-ramp color
    assert_eq!(
        line_color(&ls[1]),
        Rgba { r: 1_000_000, g: 0, b: 1_000_000, a: 1_000_000 }
    );
    assert_ne!(line_color(&ls[0]), line_color(&ls[1]));
}

#[test]
fn edge_without_attribute_gets_the_default_color() {
    let verts = vec![vert(0, 0, 0), vert(1, 1_000_000, 0)];
    let adjs = vec![adj(0, &[1]), adj(1, &[0])];
    let g = PlanarGraph::from_parts(verts, adjs, vec![]).unwrap();
    let s = Vecdraw::new(g);
    let ls = lines(&s.render());
    assert_eq!(ls.len(), 1);
    assert_eq!(
        line_color(&ls[0]),
        Rgba { r: 500_000, g: 500_000, b: 500_000, a: 1_000_000 }
    );
    // the third color differs from the fixed color of large attributes
    assert_ne!(
        line_color(&ls[0]),
        Rgba { r: 1_000_000, g: 0, b: 1_000_000, a: 1_000_000 }
    );
}

#[test]
fn ramp_intensity_follows_the_decimal_exponent() {
    // one millionth (the editing default) has exponent -6: intensity 0.6
    let verts = vec![vert(0, 0, 0), vert(1, 1_000_000, 0)];
    let adjs = vec![adj(0, &[1]), adj(1, &[0])];
    let dcs = vec![DcEntry { a: 0, b: 1, val: 1 }];
    let g = PlanarGraph::from_parts(verts, adjs, dcs).unwrap();
    let ls = lines(&Vecdraw::new(g).render());
    assert_eq!(
        line_color(&ls[0]),
        Rgba { r: 1_000_000, g: 600_000, b: 0, a: 1_000_000 }
    );
}

#[test]
fn each_undirected_edge_is_drawn_once() {
    // a triangle: six directed listings, three lines
    let verts = vec![vert(0, 0, 0), vert(1, 1_000_000, 0), vert(2, 0, 1_000_000)];
    let adjs = vec![adj(0, &[1, 2]), adj(1, &[0, 2]), adj(2, &[0, 1])];
    let g = PlanarGraph::from_parts(verts, adjs, vec![]).unwrap();
    let s = Vecdraw::new(g);
    let ls = lines(&s.render());
    assert_eq!(ls.len(), 3);
    // the first visit of each pair sets the endpoints' order
    match ls[0] {
        Prim::Line { a, b, .. } => {
            assert_eq!(a, v2(0, 0));
            assert_eq!(b, v2(1_000_000, 0));
        },
        _ => unreachable!(),
    }
}

#[test]
fn dots_only_for_vertices_with_neighbors() {
    let verts = vec![vert(0, 0, 0), vert(1, 1_000_000, 0), vert(2, 0, 1_000_000)];
    // vertex 2 has an adjacency entry with an empty list: no dot for it
    let adjs = vec![adj(0, &[1]), adj(1, &[0]), adj(2, &[])];
    let g = PlanarGraph::from_parts(verts, adjs, vec![]).unwrap();
    let s = Vecdraw::new(g);
    let dots: Vec<Prim> = s
        .render()
        .iter()
        .filter(|p| matches!(p, Prim::Dot { .. }))
        .cloned()
        .collect();
    assert_eq!(dots.len(), 2);
}

#[test]
fn border_vertices_get_their_own_dot_color() {
    let verts = vec![vert(0, 0, 0), vert(1, 1_000_000, 0)];
    let adjs = vec![adj(0, &[1]), adj(1, &[0])];
    let g = PlanarGraph::from_parts(verts, adjs, vec![]).unwrap();
    let mut s = Vecdraw::new(g);
    s.build(vec![], vec![0]).unwrap();
    let prims = s.render();
    let dots: Vec<Prim> = prims
        .iter()
        .filter(|p| matches!(p, Prim::Dot { .. }))
        .cloned()
        .collect();
    match (&dots[0], &dots[1]) {
        (Prim::Dot { color: c0, .. }, Prim::Dot { color: c1, .. }) => {
            assert_eq!(*c0, Rgba { r: 0, g: 1_000_000, b: 0, a: 1_000_000 });
            assert_eq!(*c1, Rgba { r: 1_000_000, g: 500_000, b: 0, a: 500_000 });
        },
        _ => unreachable!(),
    }
}

#[test]
fn faces_render_first_as_triangles() {
    let verts = vec![vert(0, 0, 0), vert(1, 1_000_000, 0), vert(2, 0, 1_000_000)];
    let g = PlanarGraph::from_parts(verts, vec![], vec![]).unwrap();
    let mut s = Vecdraw::new(g);
    s.build(vec![Tri { a: 0, b: 1, c: 2 }], vec![]).unwrap();
    let prims = s.render();
    match prims[0] {
        Prim::Tri { a, b, c, color, z } => {
            assert_eq!(a, v2(0, 0));
            assert_eq!(b, v2(1_000_000, 0));
            assert_eq!(c, v2(0, 1_000_000));
            assert_eq!(color, Rgba { r: 0, g: 1_000_000, b: 500_000, a: 100_000 });
            assert_eq!(z, 790_000);
        },
        _ => panic!("the first primitive is the face triangle"),
    }
}

#[test]
fn transient_overlays_render_in_order() {
    let verts = vec![vert(0, 0, 0)];
    let g = PlanarGraph::from_parts(verts, vec![], vec![]).unwrap();
    let mut s = Vecdraw::new(g);
    // a pending line, a selection rectangle, a snap highlight and one
    // selected vertex
    s.drawing_update(v2(100_000, 0));
    s.drawing_update(v2(200_000, 0));
    s.select_update(v2(0, 0));
    s.select_update(v2(300_000, 300_000));
    s.snap_update(v2(0, 0));
    let mut s2 = s;
    s2.selected = vec![0];
    let prims = s2.render();
    assert_eq!(prims.len(), 4);
    assert!(matches!(prims[0], Prim::Line { width: 3_000, .. }));
    assert!(matches!(prims[1], Prim::Rect { .. }));
    assert!(matches!(prims[2], Prim::Dot { width: 10_000, .. }));
    assert!(matches!(prims[3], Prim::Dot { width: 10_000, .. }));
}

#[test]
fn pending_line_follows_the_snapped_vertex() {
    let verts = vec![vert(0, 50_000, 50_000)];
    let g = PlanarGraph::from_parts(verts, vec![], vec![]).unwrap();
    let mut s = Vecdraw::new(g);
    s.snap_update(v2(0, 0));
    s.drawing_update(v2(0, 0));
    s.snap_off();
    s.drawing_update(v2(900_000, 0));
    let prims = s.render();
    // the snapped first point resolves to the vertex's position
    match prims[prims.len() - 1] {
        Prim::Line { a, b, .. } => {
            assert_eq!(a, v2(50_000, 50_000));
            assert_eq!(b, v2(900_000, 0));
        },
        _ => panic!("the pending line renders"),
    }
}
