use joywm::{
    ensure_first_configure, handle_commit, tile_layout, Action, Handshake, JoyWM, Popup, Rect, WmError,
};

fn with_output(w: i32, h: i32) -> JoyWM {
    let mut wm = JoyWM::new();
    wm.set_output(Some(Rect::new(0, 0, w, h)));
    wm
}

fn configure(surface: u64, x: i32, y: i32, w: i32, h: i32) -> Action {
    Action::Configure { surface, rect: Rect::new(x, y, w, h) }
}

#[test]
fn retile_empty_registry_sends_nothing() {
    let mut wm = with_output(1920, 1080);
    assert!(wm.retile().is_empty());
}

#[test]
fn retile_without_output_sends_nothing() {
    let mut wm = JoyWM::new();
    assert_eq!(wm.new_toplevel(1), Ok(vec![]));
    assert!(wm.retile().is_empty());
    assert_eq!(wm.window(1).unwrap().rect, Rect::new(0, 0, 0, 0));
}

#[test]
fn three_windows_split_1920_evenly() {
    let mut wm = with_output(1920, 1080);
    assert_eq!(wm.new_toplevel(1), Ok(vec![configure(1, 0, 0, 1920, 1080)]));
    assert_eq!(
        wm.new_toplevel(2),
        Ok(vec![configure(1, 0, 0, 960, 1080), configure(2, 960, 0, 960, 1080)])
    );
    let acts = wm.new_toplevel(3).unwrap();
    assert_eq!(
        acts,
        vec![
            configure(1, 0, 0, 640, 1080),
            configure(2, 640, 0, 640, 1080),
            configure(3, 1280, 0, 640, 1080),
        ]
    );
    assert_eq!(wm.window(1).unwrap().rect, Rect::new(0, 0, 640, 1080));
    assert_eq!(wm.window(2).unwrap().rect, Rect::new(640, 0, 640, 1080));
    assert_eq!(wm.window(3).unwrap().rect, Rect::new(1280, 0, 640, 1080));
    assert_eq!(wm.window(3).unwrap().pending_size, Some((640, 1080)));
}

#[test]
fn three_windows_over_100_leave_one_pixel() {
    let mut wm = with_output(100, 50);
    wm.new_toplevel(1).unwrap();
    wm.new_toplevel(2).unwrap();
    let acts = wm.new_toplevel(3).unwrap();
    assert_eq!(
        acts,
        vec![configure(1, 0, 0, 33, 50), configure(2, 33, 0, 33, 50), configure(3, 66, 0, 33, 50)]
    );
    let last = wm.window(3).unwrap().rect;
    assert_eq!(last.x + last.w, 99);
}

#[test]
fn columns_cover_width_minus_remainder() {
    let out = Rect::new(10, 20, 1000, 600);
    let rects = tile_layout(&out, 7);
    assert_eq!(rects.len(), 7);
    let total: i32 = rects.iter().map(|r| r.w).sum();
    assert_eq!(total, 1000 - 1000 % 7);
    assert_eq!(rects[0].x, 10);
    for i in 0..6 {
        assert_eq!(rects[i].x + rects[i].w, rects[i + 1].x);
        assert_eq!(rects[i].w, 142);
        assert_eq!(rects[i].y, 20);
        assert_eq!(rects[i].h, 600);
    }
    assert_eq!(rects[6].x + rects[6].w, 10 + 994);
}

#[test]
fn more_windows_than_pixels_get_zero_width() {
    let rects = tile_layout(&Rect::new(0, 0, 2, 10), 3);
    assert_eq!(rects, vec![Rect::new(0, 0, 0, 10), Rect::new(0, 0, 0, 10), Rect::new(0, 0, 0, 10)]);
    assert!(tile_layout(&Rect::new(0, 0, 2, 10), 0).is_empty());
}

#[test]
fn retile_twice_gives_same_layout() {
    let mut wm = with_output(1000, 700);
    wm.new_toplevel(4).unwrap();
    wm.new_toplevel(5).unwrap();
    let first = wm.retile();
    let rect_first = wm.window(5).unwrap().rect;
    let second = wm.retile();
    assert_eq!(first, second);
    assert_eq!(wm.window(5).unwrap().rect, rect_first);
}

#[test]
fn first_commit_sends_initial_configure_once() {
    let mut wm = with_output(1920, 1080);
    wm.new_toplevel(1).unwrap();
    assert_eq!(wm.window(1).unwrap().handshake, Handshake::PendingFirstConfigure);
    assert!(!wm.initial_configure_sent(1));
    assert_eq!(
        wm.commit(1, false),
        vec![Action::NotifyCommitted(1), Action::SendInitialConfigure(1)]
    );
    assert_eq!(wm.window(1).unwrap().handshake, Handshake::Configured);
    assert!(wm.initial_configure_sent(1));
    assert_eq!(wm.commit(1, false), vec![Action::NotifyCommitted(1)]);
    assert_eq!(wm.commit(1, false), vec![Action::NotifyCommitted(1)]);
}

#[test]
fn retile_keeps_handshake() {
    let mut wm = with_output(800, 600);
    wm.new_toplevel(1).unwrap();
    wm.commit(1, false);
    wm.new_toplevel(2).unwrap();
    assert_eq!(wm.window(1).unwrap().handshake, Handshake::Configured);
    assert_eq!(wm.window(2).unwrap().handshake, Handshake::PendingFirstConfigure);
}

#[test]
fn subsurface_commit_reaches_root_window() {
    let mut wm = with_output(800, 600);
    wm.new_toplevel(1).unwrap();
    wm.set_parent(10, 1);
    wm.set_parent(11, 10);
    assert_eq!(
        wm.commit(11, false),
        vec![Action::NotifyCommitted(1), Action::SendInitialConfigure(1)]
    );
}

#[test]
fn synchronized_subsurface_commit_is_deferred() {
    let mut wm = with_output(800, 600);
    wm.new_toplevel(1).unwrap();
    wm.set_parent(10, 1);
    assert!(wm.commit(10, true).is_empty());
    assert_eq!(wm.window(1).unwrap().handshake, Handshake::PendingFirstConfigure);
}

#[test]
fn parent_cycle_fails_closed() {
    let mut wm = with_output(800, 600);
    wm.new_toplevel(20).unwrap();
    wm.set_parent(20, 21);
    wm.set_parent(21, 20);
    assert!(wm.commit(20, false).is_empty());
    assert_eq!(wm.tree.root_of(20), None);
    assert_eq!(wm.tree.parent_of(21), Some(20));
}

#[test]
fn commit_of_unknown_surface_is_ignored() {
    let mut wm = with_output(800, 600);
    wm.new_toplevel(1).unwrap();
    assert!(wm.commit(99, false).is_empty());
}

#[test]
fn move_request_changes_nothing() {
    let mut wm = with_output(1920, 1080);
    wm.new_toplevel(1).unwrap();
    wm.new_toplevel(2).unwrap();
    let before = wm.window(1).unwrap();
    wm.move_request(1);
    wm.resize_request(1);
    let after = wm.window(1).unwrap();
    assert_eq!(before.rect, after.rect);
    assert_eq!(before.handshake, after.handshake);
    assert_eq!(before.pending_size, after.pending_size);
    assert_eq!(wm.windows.len(), 2);
}

#[test]
fn removing_absent_window_only_retiles() {
    let mut wm = with_output(900, 500);
    wm.new_toplevel(1).unwrap();
    wm.new_toplevel(2).unwrap();
    let acts = wm.remove_toplevel(42);
    assert_eq!(acts, vec![configure(1, 0, 0, 450, 500), configure(2, 450, 0, 450, 500)]);
    assert_eq!(wm.windows.len(), 2);
}

#[test]
fn removing_window_retiles_rest() {
    let mut wm = with_output(900, 500);
    wm.new_toplevel(1).unwrap();
    wm.new_toplevel(2).unwrap();
    wm.new_toplevel(3).unwrap();
    let acts = wm.remove_toplevel(2);
    assert_eq!(acts, vec![configure(1, 0, 0, 450, 500), configure(3, 450, 0, 450, 500)]);
    assert!(wm.window(2).is_none());
    assert!(wm.remove_toplevel(1).len() == 1);
    assert!(wm.remove_toplevel(3).is_empty());
}

#[test]
fn duplicate_window_is_refused() {
    let mut wm = with_output(900, 500);
    wm.new_toplevel(1).unwrap();
    assert_eq!(wm.new_toplevel(1), Err(WmError::DuplicateWindow));
    assert_eq!(wm.windows.len(), 1);
}

#[test]
fn output_offset_shifts_columns() {
    let mut wm = JoyWM::new();
    wm.set_output(Some(Rect::new(100, 50, 300, 200)));
    wm.new_toplevel(1).unwrap();
    let acts = wm.new_toplevel(2).unwrap();
    assert_eq!(acts, vec![configure(1, 100, 50, 150, 200), configure(2, 250, 50, 150, 200)]);
}

#[test]
fn popup_first_configure_once() {
    let mut wm = with_output(800, 600);
    wm.new_toplevel(1).unwrap();
    wm.new_popup(5, 1, Rect::new(10, 10, 100, 80));
    assert!(!wm.initial_configure_sent(5));
    assert_eq!(wm.commit(5, true), vec![Action::SendPopupInitialConfigure(5)]);
    assert!(wm.initial_configure_sent(5));
    assert!(wm.commit(5, false).is_empty());
    assert_eq!(wm.popup(5).unwrap().handshake, Handshake::Configured);
}

#[test]
fn popup_reposition_updates_geometry() {
    let mut wm = with_output(800, 600);
    wm.new_popup(5, 1, Rect::new(10, 10, 100, 80));
    wm.new_popup(5, 2, Rect::new(0, 0, 1, 1));
    assert_eq!(wm.popup(5).unwrap().parent, 1);
    let acts = wm.reposition_request(5, Rect::new(30, 40, 50, 60), 9);
    assert_eq!(acts, vec![Action::Repositioned { surface: 5, token: 9 }]);
    assert_eq!(wm.popup(5).unwrap().geometry, Rect::new(30, 40, 50, 60));
    wm.popup_destroyed(5);
    assert!(wm.popup(5).is_none());
    assert!(wm.commit(5, false).is_empty());
}

#[test]
fn handshake_step_is_one_shot() {
    let mut h = Handshake::PendingFirstConfigure;
    assert!(ensure_first_configure(&mut h));
    assert_eq!(h, Handshake::Configured);
    assert!(!ensure_first_configure(&mut h));
    assert_eq!(h, Handshake::Configured);
}

#[test]
fn destroyed_subsurface_loses_its_link() {
    let mut wm = with_output(800, 600);
    wm.new_toplevel(1).unwrap();
    wm.set_parent(10, 1);
    wm.set_parent(11, 10);
    wm.surface_destroyed(10);
    assert_eq!(wm.tree.parent_of(10), None);
    assert_eq!(wm.tree.parent_of(11), Some(10));
    assert_eq!(wm.tree.root_of(11), Some(10));
    assert!(wm.commit(11, false).is_empty());
    assert_eq!(wm.commit(1, false), vec![Action::NotifyCommitted(1), Action::SendInitialConfigure(1)]);
}

#[test]
fn handle_commit_configures_pending_popup_once() {
    let mut popups = vec![
        Popup { surface: 3, parent: 1, geometry: Rect::new(0, 0, 10, 10), handshake: Handshake::Configured },
        Popup { surface: 4, parent: 1, geometry: Rect::new(0, 0, 10, 10), handshake: Handshake::PendingFirstConfigure },
    ];
    assert!(handle_commit(&mut popups, 3).is_empty());
    assert!(handle_commit(&mut popups, 9).is_empty());
    assert_eq!(handle_commit(&mut popups, 4), vec![Action::SendPopupInitialConfigure(4)]);
    assert_eq!(popups[1].handshake, Handshake::Configured);
    assert!(handle_commit(&mut popups, 4).is_empty());
}
