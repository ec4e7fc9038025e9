use vecdraw::control::Command;
use vecdraw::control::Gui;
use vecdraw::control::InputEvent;
use vecdraw::control::UiAction;
use vecdraw::geom::Vec2;
use vecdraw::graph::DcEntry;
use vecdraw::graph::PlanarGraph;
use vecdraw::graph::Tri;
use vecdraw::session::Vecdraw;

fn v2(x: i64, y: i64) -> Vec2 {
    Vec2 { x, y }
}

fn fresh_gui() -> Gui {
    Gui::new(Vecdraw::new(PlanarGraph::new()))
}

#[test]
fn new_controller_starts_in_select_mode_with_default_scalar() {
    let g = fresh_gui();
    assert_eq!(g.mode, 1);
    assert!(!g.button_on);
    assert!(!g.snap_mod);
    // the editing default: one millionth
    assert_eq!(g.vecdraw.dc, 1);
}

#[test]
fn key_events_switch_modes() {
    let mut g = fresh_gui();
    assert_eq!(g.proc_event(InputEvent::KeyDown(b'a')), UiAction::SetCursor(0));
    assert_eq!(g.mode, 0);
    assert_eq!(g.proc_event(InputEvent::KeyDown(b't')), UiAction::SetCursor(2));
    assert_eq!(g.mode, 2);
    assert_eq!(g.proc_event(InputEvent::KeyDown(b'r')), UiAction::SetCursor(1));
    assert_eq!(g.mode, 1);
    // an unmapped key does nothing
    assert_eq!(g.proc_event(InputEvent::KeyDown(b'q')), UiAction::Idle);
    assert_eq!(g.mode, 1);
}

#[test]
fn draw_gesture_through_events_creates_an_edge() {
    let mut g = fresh_gui();
    g.proc_event(InputEvent::KeyDown(b'a'));
    g.proc_event(InputEvent::LeftPressed);
    g.proc_event(InputEvent::CursorMoved(v2(0, 0)));
    g.proc_event(InputEvent::CursorMoved(v2(1_000_000, 0)));
    g.proc_event(InputEvent::LeftReleased);
    assert!(!g.button_on);
    assert_eq!(g.vecdraw.graph.verts.len(), 2);
    assert!(g.vecdraw.graph.has_edge(0, 1));
    assert_eq!(g.vecdraw.drawing.len(), 0);
}

#[test]
fn select_gesture_through_events_selects() {
    let mut g = fresh_gui();
    // draw two vertices first
    g.proc_event(InputEvent::KeyDown(b'a'));
    g.proc_event(InputEvent::LeftPressed);
    g.proc_event(InputEvent::CursorMoved(v2(0, 0)));
    g.proc_event(InputEvent::CursorMoved(v2(1_000_000, 0)));
    g.proc_event(InputEvent::LeftReleased);
    // rectangle around the first vertex only
    g.proc_event(InputEvent::KeyDown(b'r'));
    g.proc_event(InputEvent::LeftPressed);
    g.proc_event(InputEvent::CursorMoved(v2(-500_000, -500_000)));
    g.proc_event(InputEvent::CursorMoved(v2(500_000, 500_000)));
    g.proc_event(InputEvent::LeftReleased);
    assert_eq!(g.vecdraw.selected, vec![0]);
    // 'x' deletes the selection
    g.proc_event(InputEvent::KeyDown(b'x'));
    assert_eq!(g.vecdraw.graph.verts.len(), 1);
    assert_eq!(g.vecdraw.graph.verts[0].id, 1);
    assert_eq!(g.vecdraw.selected.len(), 0);
}

#[test]
fn snap_modifier_drives_exact_select() {
    let mut g = fresh_gui();
    g.proc_event(InputEvent::KeyDown(b'a'));
    g.proc_event(InputEvent::LeftPressed);
    g.proc_event(InputEvent::CursorMoved(v2(0, 0)));
    g.proc_event(InputEvent::CursorMoved(v2(1_000_000, 0)));
    g.proc_event(InputEvent::LeftReleased);
    g.proc_event(InputEvent::KeyDown(b'r'));
    g.proc_event(InputEvent::SnapModifier(true));
    g.proc_event(InputEvent::LeftPressed);
    g.proc_event(InputEvent::CursorMoved(v2(999_000, 1_000)));
    // exact select took the snapped vertex and released the gesture
    assert_eq!(g.vecdraw.selected, vec![1]);
    assert!(!g.button_on);
    g.proc_event(InputEvent::SnapModifier(false));
    g.proc_event(InputEvent::CursorMoved(v2(0, 0)));
    assert_eq!(g.vecdraw.snap_highlight, None);
}

#[test]
fn move_gesture_through_events_displaces_the_selection() {
    let mut g = fresh_gui();
    g.proc_event(InputEvent::KeyDown(b'a'));
    g.proc_event(InputEvent::LeftPressed);
    g.proc_event(InputEvent::CursorMoved(v2(0, 0)));
    g.proc_event(InputEvent::CursorMoved(v2(1_000_000, 0)));
    g.proc_event(InputEvent::LeftReleased);
    g.proc_event(InputEvent::KeyDown(b'r'));
    g.proc_event(InputEvent::SnapModifier(true));
    g.proc_event(InputEvent::LeftPressed);
    g.proc_event(InputEvent::CursorMoved(v2(1_000, 0)));
    assert_eq!(g.vecdraw.selected, vec![0]);
    g.proc_event(InputEvent::SnapModifier(false));
    // drag in move mode
    g.proc_event(InputEvent::KeyDown(b't'));
    g.proc_event(InputEvent::LeftPressed);
    g.proc_event(InputEvent::CursorMoved(v2(0, 0)));
    g.proc_event(InputEvent::CursorMoved(v2(250_000, 250_000)));
    g.proc_event(InputEvent::LeftReleased);
    assert_eq!(g.vecdraw.graph.verts[0].v.pos, v2(250_000, 250_000));
    assert_eq!(g.vecdraw.graph.verts[1].v.pos, v2(1_000_000, 0));
    assert_eq!(g.vecdraw.move_anchor, None);
}

#[test]
fn console_commands_set_and_stamp_the_scalar() {
    let mut g = fresh_gui();
    // two connected vertices with an attribute entry
    let verts = vec![
        vecdraw::graph::VertEntry {
            id: 0,
            v: vecdraw::graph::Vertex { pos: v2(0, 0), tex: v2(0, 0), im: 1_000_000 },
        },
        vecdraw::graph::VertEntry {
            id: 1,
            v: vecdraw::graph::Vertex {
                pos: v2(100_000, 0),
                tex: v2(100_000, 0),
                im: 1_000_000,
            },
        },
    ];
    let adjs = vec![
        vecdraw::graph::AdjEntry { id: 0, ns: vec![1] },
        vecdraw::graph::AdjEntry { id: 1, ns: vec![0] },
    ];
    let dcs = vec![DcEntry { a: 0, b: 1, val: 5 }];
    let graph = PlanarGraph::from_parts(verts, adjs, dcs).unwrap();
    g = Gui::new(Vecdraw::new(graph));
    assert_eq!(
        g.proc_event(InputEvent::Console(Command::SetScalar(42_000))),
        UiAction::Idle
    );
    assert_eq!(g.vecdraw.dc, 42_000);
    // select both and stamp
    g.proc_event(InputEvent::LeftPressed);
    g.proc_event(InputEvent::CursorMoved(v2(-200_000, -200_000)));
    g.proc_event(InputEvent::CursorMoved(v2(200_000, 200_000)));
    g.proc_event(InputEvent::LeftReleased);
    assert_eq!(g.vecdraw.selected.len(), 2);
    assert_eq!(
        g.proc_event(InputEvent::Console(Command::ApplyScalar)),
        UiAction::Idle
    );
    assert_eq!(g.vecdraw.graph.dcs[0].val, 42_000);
}

#[test]
fn rebuild_and_close_are_host_actions() {
    let mut g = fresh_gui();
    assert_eq!(
        g.proc_event(InputEvent::Console(Command::Build)),
        UiAction::Rebuild
    );
    assert_eq!(g.proc_event(InputEvent::CloseRequested), UiAction::SaveAndExit);
    // the session is untouched by either
    assert_eq!(g.vecdraw.graph.verts.len(), 0);
}

#[test]
fn rebuild_result_installs_through_build() {
    let mut g = fresh_gui();
    g.proc_event(InputEvent::KeyDown(b'a'));
    g.proc_event(InputEvent::LeftPressed);
    g.proc_event(InputEvent::CursorMoved(v2(0, 0)));
    g.proc_event(InputEvent::CursorMoved(v2(1_000_000, 0)));
    g.proc_event(InputEvent::LeftReleased);
    g.proc_event(InputEvent::LeftPressed);
    g.proc_event(InputEvent::CursorMoved(v2(0, 1_000_000)));
    g.proc_event(InputEvent::CursorMoved(v2(500_000, 500_000)));
    g.proc_event(InputEvent::LeftReleased);
    let a = g.proc_event(InputEvent::Console(Command::Build));
    assert_eq!(a, UiAction::Rebuild);
    // the host runs its triangulation and hands the result back
    g.vecdraw.build(vec![Tri { a: 0, b: 1, c: 2 }], vec![0, 1]).unwrap();
    assert_eq!(g.vecdraw.graph.faces.len(), 1);
    assert_eq!(g.vecdraw.graph.border, vec![0, 1]);
}
