//! The interaction controller: the decision core of the host event loop.
//!
//! The host delivers world-space pointer events, button and key events, and
//! parsed console commands; [`Gui::proc_event`] dispatches them onto the
//! edit session according to the current mode (draw, select or move), the
//! held button and the snap modifier, and answers with the one outward
//! action the host must perform (change the cursor, run the triangulation,
//! or save and exit).  All outside work — windowing, rendering, parsing,
//! persistence — stays with the host; every decision is made, and verified,
//! here.

use vstd::prelude::*;
use crate::geom::Vec2;
use crate::session::DrawOutcome;
use crate::session::PendPoint;
use crate::session::Vecdraw;
use crate::session::delete_select_post;
use crate::session::finish_draw_post;
use crate::session::finish_select_post;
use crate::session::pend_allocs;
use crate::session::snap_spec;
use crate::session::stamp_dcs;

verus! {

/// Drawing mode: pointer gestures accumulate pending draw points.
pub const MODE_DRAW: u8 = 0;

/// Selection mode: pointer gestures span the selection rectangle.
pub const MODE_SELECT: u8 = 1;

/// Move mode: pointer gestures drag the selection.
pub const MODE_MOVE: u8 = 2;

/// A parsed console command.
#[derive(Clone, Copy, PartialEq, Eq, Structural, Debug)]
pub enum Command {
    /// Run the external triangulation and install its result.
    Build,
    /// Set the active edge-attribute value (fixed-point units).
    SetScalar(i64),
    /// Stamp the active value onto the selected edges.
    ApplyScalar,
}

/// One input event, already translated to world space by the host.
#[derive(Clone, Copy, PartialEq, Eq, Structural, Debug)]
pub enum InputEvent {
    /// The pointer moved to this world position.
    CursorMoved(Vec2),
    /// The snap modifier was pressed or released.
    SnapModifier(bool),
    /// The left button went down.
    LeftPressed,
    /// The left button went up.
    LeftReleased,
    /// A key went down, by its ASCII code.
    KeyDown(u8),
    /// A console command arrived.
    Console(Command),
    /// The window was asked to close.
    CloseRequested,
}

/// What the host must do after an event was handled.
#[derive(Clone, Copy, PartialEq, Eq, Structural, Debug)]
pub enum UiAction {
    /// Nothing.
    Idle,
    /// Show the cursor of this mode.
    SetCursor(u8),
    /// Run the external triangulation and hand the result to
    /// [`Vecdraw::build`].
    Rebuild,
    /// Persist the graph and leave the event loop.
    SaveAndExit,
}

/// Everything of the session except the snap highlight is unchanged.
pub open spec fn eq_but_snap(pre: Vecdraw, post: Vecdraw) -> bool {
    &&& post.graph == pre.graph
    &&& post.drawing@ == pre.drawing@
    &&& post.select_range@ == pre.select_range@
    &&& post.selected@ == pre.selected@
    &&& post.move_anchor == pre.move_anchor
    &&& post.dc == pre.dc
}

/// The session is entirely unchanged.
pub open spec fn eq_session(pre: Vecdraw, post: Vecdraw) -> bool {
    &&& eq_but_snap(pre, post)
    &&& post.snap_highlight == pre.snap_highlight
}

/// The snap highlight the cursor event leaves behind: recomputed while the
/// modifier is held, cleared otherwise.
pub open spec fn cursor_snap(pre: Gui, w: Vec2) -> Option<u64> {
    if pre.snap_mod {
        snap_spec(pre.vecdraw.graph.verts@, w)
    } else {
        None
    }
}

/// The controller: the edit session plus the input-dispatch state of the
/// event loop.
pub struct Gui {
    /// The edit session every decision acts on.
    pub vecdraw: Vecdraw,
    /// The left button is held.
    pub button_on: bool,
    /// The snap modifier is held.
    pub snap_mod: bool,
    /// The active mode: draw, select or move.
    pub mode: u8,
}

impl Gui {
    /// The controller invariant.
    pub open spec fn inv(self) -> bool {
        &&& self.vecdraw.inv()
        &&& self.mode <= 2
    }

    /// A controller around a session: selection mode, nothing held, and the
    /// session's active attribute value set to one millionth (the editing
    /// default).
    pub fn new(vecdraw: Vecdraw) -> (g: Gui)
        requires
            vecdraw.inv(),
        ensures
            g.inv(),
            g.mode == MODE_SELECT,
            !g.button_on,
            !g.snap_mod,
            g.vecdraw.dc == 1,
            g.vecdraw.graph == vecdraw.graph,
            g.vecdraw.drawing@ == vecdraw.drawing@,
            g.vecdraw.select_range@ == vecdraw.select_range@,
            g.vecdraw.snap_highlight == vecdraw.snap_highlight,
            g.vecdraw.selected@ == vecdraw.selected@,
            g.vecdraw.move_anchor == vecdraw.move_anchor,
    {
        let mut vecdraw = vecdraw;
        vecdraw.set_dcv(1);
        Gui { vecdraw, button_on: false, snap_mod: false, mode: MODE_SELECT }
    }

    /// Dispatches one event onto the session and answers with the action
    /// the host must perform.  The contract follows the event: pointer
    /// motion first refreshes or clears the snap highlight and then feeds
    /// the gesture of the active mode; releasing the button commits that
    /// gesture; keys switch modes or delete the selection; console commands
    /// set or stamp the attribute value or ask for a rebuild; closing asks
    /// for a save.
    pub fn proc_event(&mut self, e: InputEvent) -> (a: UiAction)
        requires
            old(self).inv(),
            match e {
                InputEvent::CursorMoved(w) => w.in_bounds(),
                InputEvent::LeftReleased => (old(self).button_on && old(self).mode == MODE_DRAW)
                    ==> old(self).vecdraw.graph.next_id + pend_allocs(old(self).vecdraw.drawing@)
                        <= u64::MAX,
                _ => true,
            },
        ensures
            final(self).inv(),
            match e {
                InputEvent::CursorMoved(w) => {
                    let pre = old(self).vecdraw;
                    let post = final(self).vecdraw;
                    let snap1 = cursor_snap(*old(self), w);
                    &&& final(self).mode == old(self).mode
                    &&& final(self).snap_mod == old(self).snap_mod
                    &&& a == UiAction::Idle
                    &&& post.snap_highlight == snap1
                    &&& (!old(self).button_on ==> (eq_but_snap(pre, post) && final(self).button_on
                        == old(self).button_on))
                    &&& (old(self).button_on && old(self).mode == MODE_MOVE ==> ({
                        &&& final(self).button_on == old(self).button_on
                        &&& post.move_anchor == Some(w)
                        &&& (match pre.move_anchor {
                            None => post.graph == pre.graph,
                            Some(prev) => {
                                &&& post.graph.verts@ == crate::session::moved_verts(
                                    pre.graph.verts@,
                                    pre.selected@,
                                    w.x - prev.x,
                                    w.y - prev.y,
                                )
                                &&& post.graph.adj@ == pre.graph.adj@
                                &&& post.graph.dcs@ == pre.graph.dcs@
                                &&& post.graph.faces@ == pre.graph.faces@
                                &&& post.graph.border@ == pre.graph.border@
                                &&& post.graph.next_id == pre.graph.next_id
                            },
                        })
                        &&& post.drawing@ == pre.drawing@
                        &&& post.select_range@ == pre.select_range@
                        &&& post.selected@ == pre.selected@
                        &&& post.dc == pre.dc
                    }))
                    &&& (old(self).button_on && old(self).mode == MODE_SELECT && old(self).snap_mod
                        ==> ({
                        &&& final(self).button_on == false
                        &&& post.selected@ == (match snap1 {
                            Some(id) => seq![id],
                            None => pre.selected@,
                        })
                        &&& post.graph == pre.graph
                        &&& post.drawing@ == pre.drawing@
                        &&& post.select_range@ == pre.select_range@
                        &&& post.move_anchor == pre.move_anchor
                        &&& post.dc == pre.dc
                    }))
                    &&& (old(self).button_on && old(self).mode == MODE_SELECT && !old(self).snap_mod ==> ({
                        &&& final(self).button_on == old(self).button_on
                        &&& post.select_range@ == (if pre.select_range@.len() < 2 {
                            pre.select_range@.push(w)
                        } else {
                            pre.select_range@.update(1, w)
                        })
                        &&& post.graph == pre.graph
                        &&& post.drawing@ == pre.drawing@
                        &&& post.selected@ == pre.selected@
                        &&& post.move_anchor == pre.move_anchor
                        &&& post.dc == pre.dc
                    }))
                    &&& (old(self).button_on && old(self).mode == MODE_DRAW ==> ({
                        let p = match snap1 {
                            Some(id) => PendPoint::Exist(id),
                            None => PendPoint::New(w),
                        };
                        &&& final(self).button_on == old(self).button_on
                        &&& post.drawing@ == (if pre.drawing@.len() < 2 {
                            pre.drawing@.push(p)
                        } else {
                            pre.drawing@.update(1, p)
                        })
                        &&& post.graph == pre.graph
                        &&& post.select_range@ == pre.select_range@
                        &&& post.selected@ == pre.selected@
                        &&& post.move_anchor == pre.move_anchor
                        &&& post.dc == pre.dc
                    }))
                },
                InputEvent::SnapModifier(on) => {
                    &&& a == UiAction::Idle
                    &&& final(self).snap_mod == on
                    &&& final(self).button_on == old(self).button_on
                    &&& final(self).mode == old(self).mode
                    &&& eq_session(old(self).vecdraw, final(self).vecdraw)
                },
                InputEvent::LeftPressed => {
                    &&& a == UiAction::Idle
                    &&& final(self).button_on == true
                    &&& final(self).snap_mod == old(self).snap_mod
                    &&& final(self).mode == old(self).mode
                    &&& eq_session(old(self).vecdraw, final(self).vecdraw)
                },
                InputEvent::LeftReleased => {
                    &&& a == UiAction::Idle
                    &&& final(self).button_on == false
                    &&& final(self).snap_mod == old(self).snap_mod
                    &&& final(self).mode == old(self).mode
                    &&& (!old(self).button_on ==> eq_session(old(self).vecdraw, final(self).vecdraw))
                    &&& (old(self).button_on && old(self).mode == MODE_MOVE ==> ({
                        &&& final(self).vecdraw.move_anchor is None
                        &&& final(self).vecdraw.graph == old(self).vecdraw.graph
                        &&& final(self).vecdraw.drawing@ == old(self).vecdraw.drawing@
                        &&& final(self).vecdraw.select_range@ == old(self).vecdraw.select_range@
                        &&& final(self).vecdraw.snap_highlight == old(self).vecdraw.snap_highlight
                        &&& final(self).vecdraw.selected@ == old(self).vecdraw.selected@
                        &&& final(self).vecdraw.dc == old(self).vecdraw.dc
                    }))
                    &&& (old(self).button_on && old(self).mode == MODE_SELECT
                        ==> finish_select_post(old(self).vecdraw, final(self).vecdraw))
                    &&& (old(self).button_on && old(self).mode == MODE_DRAW ==> (exists|
                        r: DrawOutcome,
                    |
                        #[trigger] finish_draw_post(old(self).vecdraw, final(self).vecdraw, r)))
                },
                InputEvent::KeyDown(k) => {
                    &&& final(self).button_on == old(self).button_on
                    &&& final(self).snap_mod == old(self).snap_mod
                    &&& (k == 97 ==> ({
                        // 'a': clear the selection and enter draw mode
                        &&& a == UiAction::SetCursor(MODE_DRAW)
                        &&& final(self).mode == MODE_DRAW
                        &&& final(self).vecdraw.selected@ == Seq::<u64>::empty()
                        &&& final(self).vecdraw.graph == old(self).vecdraw.graph
                        &&& final(self).vecdraw.drawing@ == old(self).vecdraw.drawing@
                        &&& final(self).vecdraw.select_range@ == old(self).vecdraw.select_range@
                        &&& final(self).vecdraw.snap_highlight == old(self).vecdraw.snap_highlight
                        &&& final(self).vecdraw.move_anchor == old(self).vecdraw.move_anchor
                        &&& final(self).vecdraw.dc == old(self).vecdraw.dc
                    }))
                    &&& (k == 114 ==> ({
                        // 'r': enter select mode
                        &&& a == UiAction::SetCursor(MODE_SELECT)
                        &&& final(self).mode == MODE_SELECT
                        &&& eq_session(old(self).vecdraw, final(self).vecdraw)
                    }))
                    &&& (k == 116 ==> ({
                        // 't': enter move mode
                        &&& a == UiAction::SetCursor(MODE_MOVE)
                        &&& final(self).mode == MODE_MOVE
                        &&& eq_session(old(self).vecdraw, final(self).vecdraw)
                    }))
                    &&& (k == 120 ==> ({
                        // 'x': delete the selection
                        &&& a == UiAction::Idle
                        &&& final(self).mode == old(self).mode
                        &&& delete_select_post(old(self).vecdraw, final(self).vecdraw)
                    }))
                    &&& (k != 97 && k != 114 && k != 116 && k != 120 ==> ({
                        &&& a == UiAction::Idle
                        &&& final(self).mode == old(self).mode
                        &&& eq_session(old(self).vecdraw, final(self).vecdraw)
                    }))
                },
                InputEvent::Console(cmd) => {
                    &&& final(self).button_on == old(self).button_on
                    &&& final(self).snap_mod == old(self).snap_mod
                    &&& final(self).mode == old(self).mode
                    &&& (match cmd {
                        Command::Build => {
                            &&& a == UiAction::Rebuild
                            &&& eq_session(old(self).vecdraw, final(self).vecdraw)
                        },
                        Command::SetScalar(v) => {
                            &&& a == UiAction::Idle
                            &&& final(self).vecdraw.dc == v
                            &&& final(self).vecdraw.graph == old(self).vecdraw.graph
                            &&& final(self).vecdraw.drawing@ == old(self).vecdraw.drawing@
                            &&& final(self).vecdraw.select_range@ == old(self).vecdraw.select_range@
                            &&& final(self).vecdraw.snap_highlight == old(self).vecdraw.snap_highlight
                            &&& final(self).vecdraw.selected@ == old(self).vecdraw.selected@
                            &&& final(self).vecdraw.move_anchor == old(self).vecdraw.move_anchor
                        },
                        Command::ApplyScalar => {
                            &&& a == UiAction::Idle
                            &&& final(self).vecdraw.graph.dcs@ == stamp_dcs(
                                old(self).vecdraw.graph.dcs@,
                                old(self).vecdraw.selected@,
                                old(self).vecdraw.dc,
                            )
                            &&& final(self).vecdraw.graph.verts@ == old(self).vecdraw.graph.verts@
                            &&& final(self).vecdraw.graph.adj@ == old(self).vecdraw.graph.adj@
                            &&& final(self).vecdraw.graph.faces@ == old(self).vecdraw.graph.faces@
                            &&& final(self).vecdraw.graph.border@ == old(self).vecdraw.graph.border@
                            &&& final(self).vecdraw.graph.next_id == old(self).vecdraw.graph.next_id
                            &&& final(self).vecdraw.drawing@ == old(self).vecdraw.drawing@
                            &&& final(self).vecdraw.select_range@ == old(self).vecdraw.select_range@
                            &&& final(self).vecdraw.snap_highlight == old(self).vecdraw.snap_highlight
                            &&& final(self).vecdraw.selected@ == old(self).vecdraw.selected@
                            &&& final(self).vecdraw.move_anchor == old(self).vecdraw.move_anchor
                            &&& final(self).vecdraw.dc == old(self).vecdraw.dc
                        },
                    })
                },
                InputEvent::CloseRequested => {
                    &&& a == UiAction::SaveAndExit
                    &&& final(self).button_on == old(self).button_on
                    &&& final(self).snap_mod == old(self).snap_mod
                    &&& final(self).mode == old(self).mode
                    &&& eq_session(old(self).vecdraw, final(self).vecdraw)
                },
            },
    {
        match e {
            InputEvent::CursorMoved(w) => {
                if self.snap_mod {
                    self.vecdraw.snap_update(w);
                } else {
                    self.vecdraw.snap_off();
                }
                if self.button_on {
                    if self.mode == MODE_MOVE {
                        self.vecdraw.move_select(w);
                    } else if self.mode == MODE_SELECT {
                        if self.snap_mod {
                            self.vecdraw.exact_select();
                            self.button_on = false;
                        } else {
                            self.vecdraw.select_update(w);
                        }
                    } else if self.mode == MODE_DRAW {
                        self.vecdraw.drawing_update(w);
                    }
                }
                UiAction::Idle
            },
            InputEvent::SnapModifier(on) => {
                self.snap_mod = on;
                UiAction::Idle
            },
            InputEvent::LeftPressed => {
                self.button_on = true;
                UiAction::Idle
            },
            InputEvent::LeftReleased => {
                if self.button_on {
                    if self.mode == MODE_MOVE {
                        self.vecdraw.move_end();
                    } else if self.mode == MODE_SELECT {
                        self.vecdraw.finish_select();
                    } else if self.mode == MODE_DRAW {
                        let outcome = self.vecdraw.finish_draw();
                        proof {
                            assert(finish_draw_post(
                                old(self).vecdraw,
                                self.vecdraw,
                                outcome,
                            ));
                        }
                    }
                }
                self.button_on = false;
                UiAction::Idle
            },
            InputEvent::KeyDown(k) => {
                if k == 97 {
                    self.vecdraw.unselect();
                    self.mode = MODE_DRAW;
                    UiAction::SetCursor(MODE_DRAW)
                } else if k == 114 {
                    self.mode = MODE_SELECT;
                    UiAction::SetCursor(MODE_SELECT)
                } else if k == 116 {
                    self.mode = MODE_MOVE;
                    UiAction::SetCursor(MODE_MOVE)
                } else if k == 120 {
                    self.vecdraw.delete_select();
                    UiAction::Idle
                } else {
                    UiAction::Idle
                }
            },
            InputEvent::Console(cmd) => {
                match cmd {
                    Command::Build => UiAction::Rebuild,
                    Command::SetScalar(v) => {
                        self.vecdraw.set_dcv(v);
                        UiAction::Idle
                    },
                    Command::ApplyScalar => {
                        self.vecdraw.select_apply_dcv();
                        UiAction::Idle
                    },
                }
            },
            InputEvent::CloseRequested => UiAction::SaveAndExit,
        }
    }
}

} // verus!
