use vstd::prelude::*;
use crate::geometry::Rect;

verus! {

/// Where a toplevel or popup stands in the first-configure handshake.
#[derive(Clone, Copy, Debug, PartialEq, Eq, Structural)]
pub enum Handshake {
    PendingFirstConfigure,
    Configured,
}

/// The one-shot step of the handshake, shared by toplevels and popups: it
/// answers whether the initial configure is to be sent now, and leaves the
/// object `Configured`, which it never leaves again.
pub fn ensure_first_configure(h: &mut Handshake) -> (send: bool)
    ensures
        send == (*old(h) == Handshake::PendingFirstConfigure),
        *final(h) == Handshake::Configured,
{
    match *h {
        Handshake::PendingFirstConfigure => {
            *h = Handshake::Configured;
            true
        },
        Handshake::Configured => false,
    }
}

/// A mapped toplevel window, named by its root surface.
#[derive(Clone, Copy, Debug)]
pub struct Window {
    pub surface: u64,
    pub rect: Rect,
    pub handshake: Handshake,
    /// Size to be carried by the next configure, set by the layout.
    pub pending_size: Option<(i32, i32)>,
}

impl Window {
    /// A window just created: provisional zero-size placement at the
    /// origin, first configure not yet sent.
    pub open spec fn fresh_spec(surface: u64) -> Window {
        Window {
            surface,
            rect: Rect { x: 0, y: 0, w: 0, h: 0 },
            handshake: Handshake::PendingFirstConfigure,
            pending_size: None,
        }
    }

    /// This window placed at `r`, with `r`'s size pending for the client.
    pub open spec fn placed(self, r: Rect) -> Window {
        Window { rect: r, pending_size: Some((r.w, r.h)), ..self }
    }

    pub open spec fn configured(self) -> Window {
        Window { handshake: Handshake::Configured, ..self }
    }

    pub fn fresh(surface: u64) -> (r: Window)
        ensures
            r == Window::fresh_spec(surface),
    {
        Window {
            surface,
            rect: Rect { x: 0, y: 0, w: 0, h: 0 },
            handshake: Handshake::PendingFirstConfigure,
            pending_size: None,
        }
    }
}

/// A transient surface anchored to a parent surface.
#[derive(Clone, Copy, Debug)]
pub struct Popup {
    pub surface: u64,
    pub parent: u64,
    pub geometry: Rect,
    pub handshake: Handshake,
}

impl Popup {
    pub open spec fn configured(self) -> Popup {
        Popup { handshake: Handshake::Configured, ..self }
    }

    pub open spec fn moved(self, g: Rect) -> Popup {
        Popup { geometry: g, ..self }
    }
}

/// `s` names a window of `ws`.
pub open spec fn managed(ws: Seq<Window>, s: u64) -> bool {
    exists|i: int| 0 <= i < ws.len() && (#[trigger] ws[i]).surface == s
}

/// `s` names a window of `ws` whose first configure is still owed.
pub open spec fn window_pending(ws: Seq<Window>, s: u64) -> bool {
    exists|i: int|
        0 <= i < ws.len() && (#[trigger] ws[i]).surface == s && ws[i].handshake
            == Handshake::PendingFirstConfigure
}

/// `s` names a window of `ws` whose first configure has been sent.
pub open spec fn window_configured(ws: Seq<Window>, s: u64) -> bool {
    exists|i: int|
        0 <= i < ws.len() && (#[trigger] ws[i]).surface == s && ws[i].handshake
            == Handshake::Configured
}

/// No two windows of `ws` share a surface.
pub open spec fn distinct_windows(ws: Seq<Window>) -> bool {
    forall|i: int, j: int|
        0 <= i < ws.len() && 0 <= j < ws.len() && (#[trigger] ws[i]).surface
            == (#[trigger] ws[j]).surface ==> i == j
}

/// The position of the window named `s` in `ws`.
pub open spec fn window_index(ws: Seq<Window>, s: u64) -> int {
    choose|i: int| 0 <= i < ws.len() && (#[trigger] ws[i]).surface == s
}

/// `ws` without the window named `s`, order kept.
pub open spec fn without_window(ws: Seq<Window>, s: u64) -> Seq<Window> {
    if managed(ws, s) {
        ws.remove(window_index(ws, s))
    } else {
        ws
    }
}

/// `ws` with the window named `s` marked configured.
pub open spec fn configure_window(ws: Seq<Window>, s: u64) -> Seq<Window> {
    ws.map_values(|w: Window| if w.surface == s { w.configured() } else { w })
}

/// `s` names a popup of `ps`.
pub open spec fn is_popup(ps: Seq<Popup>, s: u64) -> bool {
    exists|i: int| 0 <= i < ps.len() && (#[trigger] ps[i]).surface == s
}

/// `s` names a popup of `ps` whose first configure is still owed.
pub open spec fn popup_pending(ps: Seq<Popup>, s: u64) -> bool {
    exists|i: int|
        0 <= i < ps.len() && (#[trigger] ps[i]).surface == s && ps[i].handshake
            == Handshake::PendingFirstConfigure
}

/// `s` names a popup of `ps` whose first configure has been sent.
pub open spec fn popup_configured(ps: Seq<Popup>, s: u64) -> bool {
    exists|i: int|
        0 <= i < ps.len() && (#[trigger] ps[i]).surface == s && ps[i].handshake
            == Handshake::Configured
}

/// No two popups of `ps` share a surface.
pub open spec fn distinct_popups(ps: Seq<Popup>) -> bool {
    forall|i: int, j: int|
        0 <= i < ps.len() && 0 <= j < ps.len() && (#[trigger] ps[i]).surface
            == (#[trigger] ps[j]).surface ==> i == j
}

pub open spec fn popup_index(ps: Seq<Popup>, s: u64) -> int {
    choose|i: int| 0 <= i < ps.len() && (#[trigger] ps[i]).surface == s
}

/// `ps` without the popup named `s`, order kept.
pub open spec fn without_popup(ps: Seq<Popup>, s: u64) -> Seq<Popup> {
    if is_popup(ps, s) {
        ps.remove(popup_index(ps, s))
    } else {
        ps
    }
}

/// `ps` with the popup named `s` marked configured.
pub open spec fn configure_popup(ps: Seq<Popup>, s: u64) -> Seq<Popup> {
    ps.map_values(|p: Popup| if p.surface == s { p.configured() } else { p })
}

/// `ps` with the popup named `s` given the geometry `g`.
pub open spec fn move_popup(ps: Seq<Popup>, s: u64, g: Rect) -> Seq<Popup> {
    ps.map_values(|p: Popup| if p.surface == s { p.moved(g) } else { p })
}

/// The position of the window named `s` in `ws`, found by a linear scan:
/// the registry is small, and its order is the tiling order.
pub fn find_window(ws: &Vec<Window>, s: u64) -> (r: Option<usize>)
    ensures
        match r {
            Some(i) => i < ws@.len() && ws@[i as int].surface == s,
            None => !managed(ws@, s),
        },
{
    let mut i: usize = 0;
    while i < ws.len()
        invariant
            i <= ws@.len(),
            forall|j: int| 0 <= j < i ==> (#[trigger] ws@[j]).surface != s,
        decreases ws@.len() - i,
    {
        if ws[i].surface == s {
            return Some(i);
        }
        i = i + 1;
    }
    None
}

/// The position of the popup named `s` in `ps`, by a linear scan.
pub fn find_popup(ps: &Vec<Popup>, s: u64) -> (r: Option<usize>)
    ensures
        match r {
            Some(i) => i < ps@.len() && ps@[i as int].surface == s,
            None => !is_popup(ps@, s),
        },
{
    let mut i: usize = 0;
    while i < ps.len()
        invariant
            i <= ps@.len(),
            forall|j: int| 0 <= j < i ==> (#[trigger] ps@[j]).surface != s,
        decreases ps@.len() - i,
    {
        if ps[i].surface == s {
            return Some(i);
        }
        i = i + 1;
    }
    None
}

} // verus!
