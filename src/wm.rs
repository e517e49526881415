use vstd::prelude::*;
use crate::geometry::{is_layout, tile_layout, tile_rect, Rect};
use crate::tree::{parent_in, root_in, SurfaceTree};
use crate::window::{
    configure_popup, configure_window, distinct_popups, distinct_windows, ensure_first_configure,
    find_popup, find_window, is_popup, managed, move_popup, popup_configured, popup_pending,
    window_configured, window_index, popup_index, window_pending,
    without_popup, without_window, Handshake, Popup, Window,
};

verus! {

/// What the protocol layer is asked to do, in order.
#[derive(Clone, Copy, Debug, PartialEq, Eq, Structural)]
pub enum Action {
    /// Tell the rendering path that this window's content changed.
    NotifyCommitted(u64),
    /// Send the toplevel's one unsolicited initial configure.
    SendInitialConfigure(u64),
    /// Send the popup's initial configure; its failure is an error for
    /// that popup.
    SendPopupInitialConfigure(u64),
    /// Map the window at `rect`, make `rect`'s size pending and send a
    /// configure with a fresh serial.
    Configure { surface: u64, rect: Rect },
    /// Acknowledge a popup reposition with the client's token.
    Repositioned { surface: u64, token: u32 },
}

/// Errors of the window registry.
#[derive(Clone, Copy, Debug, PartialEq, Eq, Structural)]
pub enum WmError {
    /// A window with this root surface is already managed.
    DuplicateWindow,
}

/// The state of the core, as values.
pub struct WmView {
    pub windows: Seq<Window>,
    pub popups: Seq<Popup>,
    pub links: Seq<(u64, u64)>,
    pub output: Option<Rect>,
}

impl WmView {
    pub open spec fn wf(self) -> bool {
        &&& distinct_windows(self.windows)
        &&& distinct_popups(self.popups)
        &&& match self.output {
            Some(out) => out.is_output(),
            None => true,
        }
    }
}

/// The layout recomputation: with an output and at least one window, every
/// window, in registry order, is placed at its column and sent a configure;
/// otherwise nothing happens.
pub open spec fn retile_spec(m: WmView) -> (WmView, Seq<Action>) {
    if m.output is Some && m.windows.len() > 0 {
        let out = m.output->0;
        let n = m.windows.len();
        (
            WmView {
                windows: m.windows.map(|i: int, w: Window| w.placed(tile_rect(out, n, i))),
                ..m
            },
            m.windows.map(
                |i: int, w: Window| Action::Configure { surface: w.surface, rect: tile_rect(out, n, i) },
            ),
        )
    } else {
        (m, Seq::empty())
    }
}

/// What a commit of `s` does to the windows, and what it asks for: when `s`
/// is not a synchronized subsurface and its root is a managed window, that
/// window is notified and, the first time only, sent its initial configure.
pub open spec fn window_commit(m: WmView, s: u64, synchronized: bool) -> (Seq<Window>, Seq<Action>) {
    let root = if synchronized {
        None
    } else {
        root_in(m.links, s)
    };
    if root is Some && managed(m.windows, root->0) {
        let r = root->0;
        (
            configure_window(m.windows, r),
            if window_pending(m.windows, r) {
                seq![Action::NotifyCommitted(r), Action::SendInitialConfigure(r)]
            } else {
                seq![Action::NotifyCommitted(r)]
            },
        )
    } else {
        (m.windows, Seq::empty())
    }
}

/// The commit dispatch: the window part, then, whatever `synchronized` is,
/// the popup part, where a tracked popup still owed its initial configure
/// is sent it.
pub open spec fn commit_spec(m: WmView, s: u64, synchronized: bool) -> (WmView, Seq<Action>) {
    let (ws, wa) = window_commit(m, s, synchronized);
    if popup_pending(m.popups, s) {
        (
            WmView { windows: ws, popups: configure_popup(m.popups, s), ..m },
            wa + seq![Action::SendPopupInitialConfigure(s)],
        )
    } else {
        (WmView { windows: ws, ..m }, wa)
    }
}

/// The popup part of a commit of `surface`: a tracked popup still owed its
/// initial configure is sent it, once; any other surface is no concern here.
pub fn handle_commit(popups: &mut Vec<Popup>, surface: u64) -> (r: Vec<Action>)
    requires
        distinct_popups(old(popups)@),
    ensures
        distinct_popups(final(popups)@),
        popup_pending(old(popups)@, surface) ==> final(popups)@ == configure_popup(old(popups)@, surface)
            && r@ == seq![Action::SendPopupInitialConfigure(surface)],
        !popup_pending(old(popups)@, surface) ==> final(popups)@ == old(popups)@ && r@ == Seq::<Action>::empty(),
{
    let ghost ps = popups@;
    let mut actions: Vec<Action> = Vec::new();
    if let Some(j) = find_popup(popups, surface) {
        let mut p = popups[j];
        if ensure_first_configure(&mut p.handshake) {
            popups.set(j, p);
            actions.push(Action::SendPopupInitialConfigure(surface));
            proof {
                assert forall|k: int| 0 <= k < ps.len() implies
                    #[trigger] popups@[k] == configure_popup(ps, surface)[k] by {
                    if k != j {
                        assert(ps[k].surface != surface);
                    }
                }
                assert(popups@ =~= configure_popup(ps, surface));
                assert(popup_pending(ps, surface));
                assert(actions@ =~= seq![Action::SendPopupInitialConfigure(surface)]);
                assert forall|a: int, b: int|
                    0 <= a < popups@.len() && 0 <= b < popups@.len() && (#[trigger] popups@[a]).surface
                        == (#[trigger] popups@[b]).surface implies a == b by {
                    assert(ps[a].surface == ps[b].surface);
                }
            }
        }
    }
    actions
}

/// The compositor's window-management state, owned by its one thread.
pub struct JoyWM {
    /// The registry, in tiling order from left to right.
    pub windows: Vec<Window>,
    pub popups: Vec<Popup>,
    pub tree: SurfaceTree,
    /// The active output's region, if an output exists.
    pub output: Option<Rect>,
}

impl View for JoyWM {
    type V = WmView;

    open spec fn view(&self) -> WmView {
        WmView {
            windows: self.windows@,
            popups: self.popups@,
            links: self.tree.links@,
            output: self.output,
        }
    }
}

impl JoyWM {
    pub open spec fn wf(&self) -> bool {
        self@.wf()
    }

    /// No windows, no popups, no subsurfaces and no output.
    pub fn new() -> (r: JoyWM)
        ensures
            r.wf(),
            r@.windows == Seq::<Window>::empty(),
            r@.popups == Seq::<Popup>::empty(),
            r@.links == Seq::<(u64, u64)>::empty(),
            r@.output is None,
    {
        JoyWM { windows: Vec::new(), popups: Vec::new(), tree: SurfaceTree::new(), output: None }
    }

    /// Sets the active output's region, or removes it; the layout is
    /// recomputed at the next registry change.
    pub fn set_output(&mut self, output: Option<Rect>)
        requires
            old(self).wf(),
            match output {
                Some(out) => out.is_output(),
                None => true,
            },
        ensures
            final(self).wf(),
            final(self)@ == (WmView { output, ..old(self)@ }),
    {
        self.output = output;
    }

    /// Records that `child` is a subsurface of `parent`.
    pub fn set_parent(&mut self, child: u64, parent: u64)
        requires
            old(self).wf(),
        ensures
            final(self).wf(),
            final(self)@ == (WmView { links: seq![(child, parent)] + old(self)@.links, ..old(self)@ }),
    {
        self.tree.set_parent(child, parent);
    }

    /// The surface `s` was destroyed: its parent link is forgotten; windows,
    /// popups and the output stay as they are.
    pub fn surface_destroyed(&mut self, s: u64)
        requires
            old(self).wf(),
        ensures
            final(self).wf(),
            final(self)@.windows == old(self)@.windows,
            final(self)@.popups == old(self)@.popups,
            final(self)@.output == old(self)@.output,
            forall|t: u64| #[trigger] parent_in(final(self)@.links, t) == if t == s {
                None
            } else {
                parent_in(old(self)@.links, t)
            },
    {
        self.tree.remove_surface(s);
        assert forall|t: u64| #[trigger] parent_in(self@.links, t) == if t == s {
            None
        } else {
            parent_in(old(self)@.links, t)
        } by {
            assert(self.tree.parent_spec(t) == parent_in(self@.links, t));
            assert(old(self).tree.parent_spec(t) == parent_in(old(self)@.links, t));
        }
    }

    /// Recomputes the layout from scratch and asks for a configure of every
    /// window; does nothing without an output or without windows.
    pub fn retile(&mut self) -> (r: Vec<Action>)
        requires
            old(self).wf(),
        ensures
            final(self).wf(),
            (final(self)@, r@) == retile_spec(old(self)@),
    {
        let mut actions: Vec<Action> = Vec::new();
        let out = match self.output {
            Some(o) => o,
            None => return actions,
        };
        let n = self.windows.len();
        if n == 0 {
            return actions;
        }
        let rects = tile_layout(&out, n);
        let ghost old_ws = self.windows@;
        let mut i: usize = 0;
        while i < n
            invariant
                n == old_ws.len(),
                n > 0,
                old(self).wf(),
                old_ws == old(self).windows@,
                old(self).output == Some(out),
                self.popups@ == old(self).popups@,
                self.tree.links@ == old(self).tree.links@,
                self.output == old(self).output,
                i <= n,
                rects@.len() == n,
                is_layout(out, rects@),
                self.windows@.len() == n,
                forall|j: int| 0 <= j < i ==> #[trigger] self.windows@[j] == old_ws[j].placed(tile_rect(out, n as nat, j)),
                forall|j: int| i <= j < n ==> #[trigger] self.windows@[j] == old_ws[j],
                actions@.len() == i,
                forall|j: int| 0 <= j < i ==> #[trigger] actions@[j] == (Action::Configure {
                    surface: old_ws[j].surface,
                    rect: tile_rect(out, n as nat, j),
                }),
            decreases n - i,
        {
            let rect = rects[i];
            let mut w = self.windows[i];
            w.rect = rect;
            w.pending_size = Some((rect.w, rect.h));
            self.windows.set(i, w);
            actions.push(Action::Configure { surface: w.surface, rect });
            i = i + 1;
        }
        proof {
            let (m2, acts) = retile_spec(old(self)@);
            assert(self.windows@ =~= m2.windows);
            assert(actions@ =~= acts);
            assert forall|a: int, b: int|
                0 <= a < n && 0 <= b < n && (#[trigger] self.windows@[a]).surface
                    == (#[trigger] self.windows@[b]).surface implies a == b by {
                assert(old_ws[a].surface == old_ws[b].surface);
            }
        }
        actions
    }
    /// A commit of `surface`. Buffer contents are attached by the caller
    /// before this runs. Unless `surface` is a synchronized subsurface, its
    /// root is resolved; a managed window there is notified and, on its
    /// first commit only, sent its initial configure. Then, whatever
    /// `synchronized` is, a tracked popup named `surface` that is still owed
    /// its initial configure is sent it.
    pub fn commit(&mut self, surface: u64, synchronized: bool) -> (r: Vec<Action>)
        requires
            old(self).wf(),
        ensures
            final(self).wf(),
            (final(self)@, r@) == commit_spec(old(self)@, surface, synchronized),
    {
        let ghost m = self@;
        let mut actions: Vec<Action> = Vec::new();
        if !synchronized {
            if let Some(root) = self.tree.root_of(surface) {
                if let Some(i) = find_window(&self.windows, root) {
                    actions.push(Action::NotifyCommitted(root));
                    let mut w = self.windows[i];
                    let send = ensure_first_configure(&mut w.handshake);
                    if send {
                        actions.push(Action::SendInitialConfigure(root));
                    }
                    self.windows.set(i, w);
                    proof {
                        assert forall|j: int| 0 <= j < m.windows.len() implies
                            #[trigger] self.windows@[j] == configure_window(m.windows, root)[j] by {
                            if j != i {
                                assert(m.windows[j].surface != root);
                            }
                        }
                        assert(self.windows@ =~= configure_window(m.windows, root));
                        if send {
                            assert(m.windows[i as int].surface == root);
                            assert(window_pending(m.windows, root));
                            assert(actions@ =~= seq![Action::NotifyCommitted(root), Action::SendInitialConfigure(root)]);
                        } else {
                            assert(actions@ =~= seq![Action::NotifyCommitted(root)]);
                        }
                    }
                }
            }
        }
        assert((self.windows@, actions@) == window_commit(m, surface, synchronized));
        let mut popup_actions = handle_commit(&mut self.popups, surface);
        actions.append(&mut popup_actions);
        proof {
            assert forall|a: int, b: int|
                0 <= a < self.windows@.len() && 0 <= b < self.windows@.len() && (#[trigger] self.windows@[a]).surface
                    == (#[trigger] self.windows@[b]).surface implies a == b by {
                assert(m.windows[a].surface == m.windows[b].surface);
            }
        }
        actions
    }

    /// A new toplevel: appended to the registry at a provisional zero-size
    /// placement, first configure pending, and the layout recomputed. A
    /// surface that is already managed is refused and nothing changes.
    pub fn new_toplevel(&mut self, surface: u64) -> (r: Result<Vec<Action>, WmError>)
        requires
            old(self).wf(),
        ensures
            final(self).wf(),
            match r {
                Ok(acts) => !managed(old(self)@.windows, surface) && (final(self)@, acts@)
                    == retile_spec(
                    WmView { windows: old(self)@.windows.push(Window::fresh_spec(surface)), ..old(self)@ },
                ),
                Err(e) => managed(old(self)@.windows, surface) && e == WmError::DuplicateWindow
                    && final(self)@ == old(self)@,
            },
    {
        if find_window(&self.windows, surface).is_some() {
            return Err(WmError::DuplicateWindow);
        }
        let ghost m = self@;
        self.windows.push(Window::fresh(surface));
        proof {
            assert forall|a: int, b: int|
                0 <= a < self.windows@.len() && 0 <= b < self.windows@.len() && (#[trigger] self.windows@[a]).surface
                    == (#[trigger] self.windows@[b]).surface implies a == b by {
                if a < m.windows.len() && b < m.windows.len() {
                    assert(m.windows[a].surface == m.windows[b].surface);
                } else if a < m.windows.len() {
                    assert(m.windows[a].surface == surface);
                } else if b < m.windows.len() {
                    assert(m.windows[b].surface == surface);
                }
            }
            assert(self@ == WmView { windows: m.windows.push(Window::fresh_spec(surface)), ..m });
        }
        Ok(self.retile())
    }

    /// The toplevel of `surface` was destroyed: its window, if managed, leaves
    /// the registry, and the layout is recomputed. An unknown surface is no
    /// error.
    pub fn remove_toplevel(&mut self, surface: u64) -> (r: Vec<Action>)
        requires
            old(self).wf(),
        ensures
            final(self).wf(),
            (final(self)@, r@) == retile_spec(
                WmView { windows: without_window(old(self)@.windows, surface), ..old(self)@ },
            ),
    {
        let ghost m = self@;
        if let Some(i) = find_window(&self.windows, surface) {
            self.windows.remove(i);
            proof {
                let k = window_index(m.windows, surface);
                assert(m.windows[k].surface == surface);
                assert(k == i);
                assert forall|a: int, b: int|
                    0 <= a < self.windows@.len() && 0 <= b < self.windows@.len() && (#[trigger] self.windows@[a]).surface
                        == (#[trigger] self.windows@[b]).surface implies a == b by {
                    let a0 = if a < i { a } else { a + 1 };
                    let b0 = if b < i { b } else { b + 1 };
                    assert(m.windows[a0].surface == m.windows[b0].surface);
                }
            }
        }
        assert(self@ == WmView { windows: without_window(m.windows, surface), ..m });
        self.retile()
    }

    /// A new popup of `parent` at `geometry`, owed its initial configure. A
    /// surface that is already tracked is left as it is.
    pub fn new_popup(&mut self, surface: u64, parent: u64, geometry: Rect)
        requires
            old(self).wf(),
        ensures
            final(self).wf(),
            is_popup(old(self)@.popups, surface) ==> final(self)@ == old(self)@,
            !is_popup(old(self)@.popups, surface) ==> final(self)@ == (WmView {
                popups: old(self)@.popups.push(
                    Popup { surface, parent, geometry, handshake: Handshake::PendingFirstConfigure },
                ),
                ..old(self)@
            }),
    {
        if find_popup(&self.popups, surface).is_some() {
            return;
        }
        let ghost m = self@;
        self.popups.push(Popup { surface, parent, geometry, handshake: Handshake::PendingFirstConfigure });
        proof {
            assert forall|a: int, b: int|
                0 <= a < self.popups@.len() && 0 <= b < self.popups@.len() && (#[trigger] self.popups@[a]).surface
                    == (#[trigger] self.popups@[b]).surface implies a == b by {
                if a < m.popups.len() && b < m.popups.len() {
                    assert(m.popups[a].surface == m.popups[b].surface);
                } else if a < m.popups.len() {
                    assert(m.popups[a].surface == surface);
                } else if b < m.popups.len() {
                    assert(m.popups[b].surface == surface);
                }
            }
        }
    }

    /// A reposition of the popup `surface`: its geometry becomes `geometry`,
    /// and the client's `token` is acknowledged.
    pub fn reposition_request(&mut self, surface: u64, geometry: Rect, token: u32) -> (r: Vec<Action>)
        requires
            old(self).wf(),
        ensures
            final(self).wf(),
            final(self)@ == (WmView { popups: move_popup(old(self)@.popups, surface, geometry), ..old(self)@ }),
            r@ == seq![Action::Repositioned { surface, token }],
    {
        let ghost m = self@;
        if let Some(j) = find_popup(&self.popups, surface) {
            let mut p = self.popups[j];
            p.geometry = geometry;
            self.popups.set(j, p);
            proof {
                assert forall|k: int| 0 <= k < m.popups.len() implies
                    #[trigger] self.popups@[k] == move_popup(m.popups, surface, geometry)[k] by {
                    if k != j {
                        assert(m.popups[k].surface != surface);
                    }
                }
                assert forall|a: int, b: int|
                    0 <= a < self.popups@.len() && 0 <= b < self.popups@.len() && (#[trigger] self.popups@[a]).surface
                        == (#[trigger] self.popups@[b]).surface implies a == b by {
                    assert(m.popups[a].surface == m.popups[b].surface);
                }
            }
        }
        assert(self.popups@ =~= move_popup(m.popups, surface, geometry));
        let mut actions: Vec<Action> = Vec::new();
        actions.push(Action::Repositioned { surface, token });
        assert(actions@ =~= seq![Action::Repositioned { surface, token }]);
        actions
    }

    /// The popup `surface` was destroyed: it is no longer tracked.
    pub fn popup_destroyed(&mut self, surface: u64)
        requires
            old(self).wf(),
        ensures
            final(self).wf(),
            final(self)@ == (WmView { popups: without_popup(old(self)@.popups, surface), ..old(self)@ }),
    {
        let ghost m = self@;
        if let Some(i) = find_popup(&self.popups, surface) {
            self.popups.remove(i);
            proof {
                let k = popup_index(m.popups, surface);
                assert(m.popups[k].surface == surface);
                assert(k == i);
                assert forall|a: int, b: int|
                    0 <= a < self.popups@.len() && 0 <= b < self.popups@.len() && (#[trigger] self.popups@[a]).surface
                        == (#[trigger] self.popups@[b]).surface implies a == b by {
                    let a0 = if a < i { a } else { a + 1 };
                    let b0 = if b < i { b } else { b + 1 };
                    assert(m.popups[a0].surface == m.popups[b0].surface);
                }
            }
        }
        assert(self@ == WmView { popups: without_popup(m.popups, surface), ..m });
    }

    /// An interactive move request. Ignored by design: in tiling mode the
    /// layout decides placement, so nothing changes.
    pub fn move_request(&mut self, _surface: u64)
        requires
            old(self).wf(),
        ensures
            final(self)@ == old(self)@,
    {
    }

    /// An interactive resize request. Ignored by design, as a move is.
    pub fn resize_request(&mut self, _surface: u64)
        requires
            old(self).wf(),
        ensures
            final(self)@ == old(self)@,
    {
    }

    /// Whether the initial configure of the window or popup `surface` has
    /// been sent.
    pub fn initial_configure_sent(&self, surface: u64) -> (r: bool)
        requires
            self.wf(),
        ensures
            r == (window_configured(self@.windows, surface) || popup_configured(self@.popups, surface)),
    {
        if let Some(i) = find_window(&self.windows, surface) {
            if self.windows[i].handshake == Handshake::Configured {
                return true;
            }
        }
        if let Some(j) = find_popup(&self.popups, surface) {
            if self.popups[j].handshake == Handshake::Configured {
                return true;
            }
        }
        false
    }

    /// The window of `surface`, if it is managed.
    pub fn window(&self, surface: u64) -> (r: Option<Window>)
        requires
            self.wf(),
        ensures
            match r {
                Some(w) => exists|i: int| 0 <= i < self@.windows.len() && self@.windows[i] == w && w.surface == surface,
                None => !managed(self@.windows, surface),
            },
    {
        match find_window(&self.windows, surface) {
            Some(i) => Some(self.windows[i]),
            None => None,
        }
    }

    /// The popup of `surface`, if it is tracked.
    pub fn popup(&self, surface: u64) -> (r: Option<Popup>)
        requires
            self.wf(),
        ensures
            match r {
                Some(p) => exists|i: int| 0 <= i < self@.popups.len() && self@.popups[i] == p && p.surface == surface,
                None => !is_popup(self@.popups, surface),
            },
    {
        match find_popup(&self.popups, surface) {
            Some(i) => Some(self.popups[i]),
            None => None,
        }
    }
}

} // verus!
