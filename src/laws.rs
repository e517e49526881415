use vstd::prelude::*;
use crate::geometry::{is_layout, lemma_layout_partitions, total_width};
use crate::tree::root_in;
use crate::window::{configure_window, managed, window_configured, window_pending, without_window, Window};
use crate::wm::{commit_spec, retile_spec, window_commit, Action, WmView};

verus! {

/// The state and the requests after the commits `evs` (surface, and whether
/// it is a synchronized subsurface), one after the other, from `m`.
pub open spec fn run_commits(m: WmView, evs: Seq<(u64, bool)>) -> (WmView, Seq<Action>)
    decreases evs.len(),
{
    if evs.len() == 0 {
        (m, Seq::empty())
    } else {
        let prev = run_commits(m, evs.drop_last());
        let next = commit_spec(prev.0, evs.last().0, evs.last().1);
        (next.0, prev.1 + next.1)
    }
}

/// How many initial configures of the toplevel `w` `acts` asks for.
pub open spec fn initial_sends(acts: Seq<Action>, w: u64) -> nat
    decreases acts.len(),
{
    if acts.len() == 0 {
        0
    } else {
        initial_sends(acts.drop_last(), w) + if acts.last() == Action::SendInitialConfigure(w) {
            1nat
        } else {
            0nat
        }
    }
}

proof fn lemma_sends_concat(a: Seq<Action>, b: Seq<Action>, w: u64)
    ensures
        initial_sends(a + b, w) == initial_sends(a, w) + initial_sends(b, w),
    decreases b.len(),
{
    if b.len() == 0 {
        assert(a + b =~= a);
    } else {
        assert((a + b).drop_last() =~= a + b.drop_last());
        lemma_sends_concat(a, b.drop_last(), w);
    }
}

proof fn lemma_sends_one(x: Action, w: u64)
    ensures
        initial_sends(seq![x], w) == if x == Action::SendInitialConfigure(w) { 1nat } else { 0nat },
{
    assert(seq![x].drop_last() =~= Seq::<Action>::empty());
    assert(initial_sends(Seq::<Action>::empty(), w) == 0);
    assert(seq![x].last() == x);
}

proof fn lemma_configure_keeps_surfaces(ws: Seq<Window>, r: u64)
    ensures
        configure_window(ws, r).len() == ws.len(),
        forall|i: int| 0 <= i < ws.len() ==> (#[trigger] configure_window(ws, r)[i]).surface == ws[i].surface,
        forall|i: int| 0 <= i < ws.len() && ws[i].surface != r ==> #[trigger] configure_window(ws, r)[i] == ws[i],
        forall|i: int| 0 <= i < ws.len() && ws[i].surface == r ==> (#[trigger] configure_window(ws, r)[i]).handshake
            == crate::window::Handshake::Configured,
{
}

/// One commit, seen from the toplevel `w`: the state stays well formed,
/// the subsurface links and the set of windows stay, `w` is sent its initial
/// configure exactly when its handshake moves from pending to configured, a
/// configured window stays configured, and an unsynchronized commit whose
/// root is `w` leaves `w` configured.
proof fn lemma_commit_step(m: WmView, s: u64, synchronized: bool, w: u64)
    requires
        m.wf(),
    ensures
        ({
            let (m2, acts) = commit_spec(m, s, synchronized);
            &&& m2.wf()
            &&& m2.links == m.links
            &&& m2.windows.len() == m.windows.len()
            &&& forall|i: int| 0 <= i < m.windows.len() ==> (#[trigger] m2.windows[i]).surface == m.windows[i].surface
            &&& managed(m2.windows, w) == managed(m.windows, w)
            &&& initial_sends(acts, w) == if window_configured(m2.windows, w) && !window_configured(m.windows, w) {
                1nat
            } else {
                0nat
            }
            &&& window_configured(m.windows, w) ==> window_configured(m2.windows, w)
            &&& (!synchronized && root_in(m.links, s) == Some(w) && managed(m.windows, w))
                ==> window_configured(m2.windows, w)
        }),
{
    let (m2, acts) = commit_spec(m, s, synchronized);
    let (ws, wa) = window_commit(m, s, synchronized);
    let pa = if crate::window::popup_pending(m.popups, s) {
        seq![Action::SendPopupInitialConfigure(s)]
    } else {
        Seq::<Action>::empty()
    };
    assert(acts =~= wa + pa);
    assert(m2.windows == ws);
    lemma_sends_concat(wa, pa, w);
    if crate::window::popup_pending(m.popups, s) {
        lemma_sends_one(Action::SendPopupInitialConfigure(s), w);
        assert forall|a: int, b: int|
            0 <= a < m2.popups.len() && 0 <= b < m2.popups.len() && (#[trigger] m2.popups[a]).surface
                == (#[trigger] m2.popups[b]).surface implies a == b by {
            assert(m.popups[a].surface == m2.popups[a].surface);
            assert(m.popups[b].surface == m2.popups[b].surface);
        }
    } else {
        assert(initial_sends(pa, w) == 0);
    }
    let root = if synchronized { None } else { root_in(m.links, s) };
    if root is Some && managed(m.windows, root->0) {
        let r = root->0;
        lemma_configure_keeps_surfaces(m.windows, r);
        let k = choose|k: int| 0 <= k < m.windows.len() && (#[trigger] m.windows[k]).surface == r;
        assert(ws[k].surface == r && ws[k].handshake == crate::window::Handshake::Configured);
        assert(window_configured(ws, r));
        lemma_sends_one(Action::NotifyCommitted(r), w);
        if window_pending(m.windows, r) {
            lemma_sends_one(Action::SendInitialConfigure(r), w);
            assert(wa =~= seq![Action::NotifyCommitted(r)] + seq![Action::SendInitialConfigure(r)]);
            lemma_sends_concat(seq![Action::NotifyCommitted(r)], seq![Action::SendInitialConfigure(r)], w);
            if w == r {
                let j = choose|j: int|
                    0 <= j < m.windows.len() && (#[trigger] m.windows[j]).surface == r && m.windows[j].handshake
                        == crate::window::Handshake::PendingFirstConfigure;
                if window_configured(m.windows, r) {
                    let j2 = choose|j2: int|
                        0 <= j2 < m.windows.len() && (#[trigger] m.windows[j2]).surface == r && m.windows[j2].handshake
                            == crate::window::Handshake::Configured;
                    assert(j == j2);
                }
            }
        } else {
            if w == r {
                assert(m.windows[k].handshake != crate::window::Handshake::PendingFirstConfigure);
                assert(window_configured(m.windows, r));
            }
        }
        if w != r {
            if window_configured(ws, w) {
                let j = choose|j: int|
                    0 <= j < ws.len() && (#[trigger] ws[j]).surface == w && ws[j].handshake
                        == crate::window::Handshake::Configured;
                assert(m.windows[j] == ws[j]);
            }
            if window_configured(m.windows, w) {
                let j = choose|j: int|
                    0 <= j < m.windows.len() && (#[trigger] m.windows[j]).surface == w && m.windows[j].handshake
                        == crate::window::Handshake::Configured;
                assert(m.windows[j] == ws[j]);
            }
        }
        assert(managed(ws, w) == managed(m.windows, w)) by {
            if managed(m.windows, w) {
                let j = choose|j: int| 0 <= j < m.windows.len() && (#[trigger] m.windows[j]).surface == w;
                assert(ws[j].surface == w);
            }
            if managed(ws, w) {
                let j = choose|j: int| 0 <= j < ws.len() && (#[trigger] ws[j]).surface == w;
                assert(m.windows[j].surface == w);
            }
        }
        assert forall|a: int, b: int|
            0 <= a < ws.len() && 0 <= b < ws.len() && (#[trigger] ws[a]).surface == (#[trigger] ws[b]).surface
                implies a == b by {
            assert(m.windows[a].surface == m.windows[b].surface);
        }
    } else {
        assert(wa =~= Seq::<Action>::empty());
    }
}

/// The first configure of a toplevel is sent once in its lifetime, however
/// many commits it makes: over any run of commits, `w` is sent its initial
/// configure exactly as many times as its handshake moved from pending to
/// configured in that run (so at most once, and never once it is
/// configured); a configured window stays configured; and once one
/// unsynchronized commit has `w` as its root, `w` is configured.
pub proof fn lemma_first_configure_once(m: WmView, evs: Seq<(u64, bool)>, w: u64)
    requires
        m.wf(),
    ensures
        ({
            let (m2, acts) = run_commits(m, evs);
            &&& m2.wf()
            &&& m2.links == m.links
            &&& managed(m2.windows, w) == managed(m.windows, w)
            &&& initial_sends(acts, w) == if window_configured(m2.windows, w) && !window_configured(m.windows, w) {
                1nat
            } else {
                0nat
            }
            &&& initial_sends(acts, w) <= 1
            &&& window_configured(m.windows, w) ==> window_configured(m2.windows, w)
            &&& (managed(m.windows, w) && exists|k: int|
                0 <= k < evs.len() && !(#[trigger] evs[k]).1 && root_in(m.links, evs[k].0) == Some(w))
                ==> window_configured(m2.windows, w)
        }),
    decreases evs.len(),
{
    if evs.len() > 0 {
        let pre = evs.drop_last();
        lemma_first_configure_once(m, pre, w);
        let (m1, a1) = run_commits(m, pre);
        let (s, sync) = evs.last();
        lemma_commit_step(m1, s, sync, w);
        let (m2, a2) = commit_spec(m1, s, sync);
        lemma_sends_concat(a1, a2, w);
        if managed(m.windows, w) && exists|k: int|
            0 <= k < evs.len() && !(#[trigger] evs[k]).1 && root_in(m.links, evs[k].0) == Some(w) {
            let k = choose|k: int|
                0 <= k < evs.len() && !(#[trigger] evs[k]).1 && root_in(m.links, evs[k].0) == Some(w);
            if k < evs.len() - 1 {
                assert(pre[k] == evs[k]);
            }
        }
    }
}

/// The rectangles of `ws`, in registry order.
pub open spec fn rects_of(ws: Seq<Window>) -> Seq<crate::geometry::Rect> {
    ws.map_values(|w: Window| w.rect)
}

/// After the layout recomputation with an output and at least one window,
/// the windows' rectangles, in registry order, are the column layout of the
/// output: left to right, no gap, no overlap, each `W / N` wide, together
/// `W - W % N` wide.
pub proof fn lemma_retile_partitions(m: WmView)
    requires
        m.wf(),
        m.output is Some,
        m.windows.len() > 0,
    ensures
        ({
            let out = m.output->0;
            let rects = rects_of(retile_spec(m).0.windows);
            let n = m.windows.len() as int;
            &&& is_layout(out, rects)
            &&& forall|i: int| 0 <= i < n ==> (#[trigger] rects[i]).w == out.w as int / n
            &&& rects[0].x == out.x
            &&& forall|i: int| 0 <= i < n - 1 ==> #[trigger] rects[i].x + rects[i].w == rects[i + 1].x
            &&& total_width(rects) == out.w - (out.w as int) % n
        }),
{
    let out = m.output->0;
    let rects = rects_of(retile_spec(m).0.windows);
    assert(rects.len() == m.windows.len());
    assert(is_layout(out, rects));
    lemma_layout_partitions(out, rects);
}

/// Recomputing the layout twice with no registry change between assigns the
/// same rectangles and asks for the same configures both times.
pub proof fn lemma_retile_idempotent(m: WmView)
    ensures
        retile_spec(retile_spec(m).0).0 == retile_spec(m).0,
        retile_spec(retile_spec(m).0).1 == retile_spec(m).1,
{
    let (m1, a1) = retile_spec(m);
    let (m2, a2) = retile_spec(m1);
    if m.output is Some && m.windows.len() > 0 {
        assert(m2.windows =~= m1.windows);
        assert(a2 =~= a1);
        assert(m2 == m1);
    }
}

/// Removing a surface that no window has changes no membership: the result
/// is what recomputing the layout alone gives, and on a state already laid
/// out it leaves every rectangle as it was.
pub proof fn lemma_remove_absent(m: WmView, s: u64)
    requires
        !managed(m.windows, s),
    ensures
        retile_spec(WmView { windows: without_window(m.windows, s), ..m }) == retile_spec(m),
        retile_spec(WmView { windows: without_window(retile_spec(m).0.windows, s), ..retile_spec(m).0 }).0
            == retile_spec(m).0,
{
    assert(WmView { windows: without_window(m.windows, s), ..m } == m);
    let m1 = retile_spec(m).0;
    assert(m1.windows.len() == m.windows.len());
    assert(!managed(m1.windows, s)) by {
        if managed(m1.windows, s) {
            let j = choose|j: int| 0 <= j < m1.windows.len() && (#[trigger] m1.windows[j]).surface == s;
            if m.output is Some && m.windows.len() > 0 {
                assert(m.windows[j].surface == s);
            }
        }
    }
    assert(WmView { windows: without_window(m1.windows, s), ..m1 } == m1);
    lemma_retile_idempotent(m);
}

} // verus!
