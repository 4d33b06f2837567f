use std::sync::Arc;
use tauri_runtime_cef::navigation::FrameNavigationState;
use tauri_runtime_cef::observation::{
    observe_popup, observe_popups, Bounds, NativeWindowToken, NativeWindowTokens, PopupSight,
    RecordedWindow, ViewSight, WindowSight,
};
use tauri_runtime_cef::popup::Popup;

const BOUNDS: Bounds = Bounds { x: 1, y: 2, width: 300, height: 400 };

fn popup(instance: u64) -> Popup<()> {
    Popup {
        state: FrameNavigationState::new(instance),
        opener: FrameNavigationState::new(1),
        closing: false,
        native: Arc::new(()),
    }
}

fn token(serial: u64) -> NativeWindowToken {
    NativeWindowToken { serial }
}

fn window() -> WindowSight {
    WindowSight { is_closed: 0, is_visible: 1, is_minimized: 0, is_recorded: 1 }
}

fn sight(window: Option<WindowSight>) -> PopupSight {
    PopupSight {
        is_valid: 1,
        browser_id: 9,
        view: Some(ViewSight { bounds: BOUNDS, is_drawn: 1, window }),
        recorded: RecordedWindow::Window(token(5)),
        fresh: token(6),
    }
}

#[test]
fn a_popup_is_reported_with_its_window() {
    let webview = observe_popup(3, &popup(2), &sight(Some(window()))).unwrap();
    assert_eq!(webview.popup, 3);
    assert_eq!(webview.state.instance, 2);
    assert_eq!(webview.opener.instance, 1);
    let snapshot = webview.snapshot;
    assert_eq!(snapshot.browser_id, 9);
    assert_eq!(snapshot.window_label, None);
    assert_eq!(snapshot.window, Some(token(5)));
    assert_eq!(snapshot.parent_matches, Some(true));
    assert_eq!(snapshot.bounds, Some(BOUNDS));
    assert_eq!(snapshot.visible, Some(true));
}

#[test]
fn another_window_gets_a_fresh_token() {
    let other = WindowSight { is_recorded: 0, ..window() };
    let webview = observe_popup(0, &popup(2), &sight(Some(other))).unwrap();
    assert_eq!(webview.snapshot.window, Some(token(6)));
    let first = PopupSight { recorded: RecordedWindow::Nothing, ..sight(Some(window())) };
    let webview = observe_popup(0, &popup(2), &first).unwrap();
    assert_eq!(webview.snapshot.window, Some(token(6)));
}

#[test]
fn a_closed_window_is_no_window() {
    let closed = WindowSight { is_closed: 1, ..window() };
    for shown_in in [Some(closed), None] {
        let snapshot = observe_popup(0, &popup(2), &sight(shown_in)).unwrap().snapshot;
        assert_eq!(snapshot.window, None);
        assert_eq!(snapshot.parent_matches, None);
        assert_eq!(snapshot.visible, None);
        assert_eq!(snapshot.bounds, Some(BOUNDS));
    }
    let unseen = PopupSight { view: None, ..sight(None) };
    assert_eq!(observe_popup(0, &popup(2), &unseen).unwrap().snapshot.bounds, None);
}

#[test]
fn visibility_takes_drawing_showing_and_not_being_minimized() {
    let hidden = WindowSight { is_visible: 0, ..window() };
    let minimized = WindowSight { is_minimized: 1, ..window() };
    for shown_in in [hidden, minimized] {
        let snapshot = observe_popup(0, &popup(2), &sight(Some(shown_in))).unwrap().snapshot;
        assert_eq!(snapshot.visible, Some(false));
    }
    let mut undrawn = sight(Some(window()));
    undrawn.view = Some(ViewSight { bounds: BOUNDS, is_drawn: 0, window: Some(window()) });
    assert_eq!(observe_popup(0, &popup(2), &undrawn).unwrap().snapshot.visible, Some(false));
}

#[test]
fn a_popup_that_is_gone_is_not_reported() {
    let mut closing = popup(2);
    closing.closing = true;
    assert!(observe_popup(0, &closing, &sight(None)).is_none());
    let invalid = PopupSight { is_valid: 0, ..sight(None) };
    assert!(observe_popup(0, &popup(2), &invalid).is_none());
    let unreadable = PopupSight { recorded: RecordedWindow::Unreadable, ..sight(None) };
    assert!(observe_popup(0, &popup(2), &unreadable).is_none());
}

#[test]
fn reports_follow_the_list() {
    let mut closing = popup(3);
    closing.closing = true;
    let popups = vec![popup(2), closing, popup(4)];
    let sights = vec![sight(None), sight(None), sight(Some(window()))];
    let reported = observe_popups(&popups, &sights);
    assert_eq!(reported.len(), 2);
    assert_eq!(reported[0].popup, 0);
    assert_eq!(reported[0].state.instance, 2);
    assert_eq!(reported[1].popup, 2);
    assert_eq!(reported[1].state.instance, 4);
}

#[test]
fn a_token_lasts_as_long_as_its_window_is_seen() {
    let mut tokens = NativeWindowTokens::new();
    let mut look = |recorded: RecordedWindow, window: Option<WindowSight>| {
        let sight = PopupSight { recorded, fresh: tokens.fresh(), ..sight(window) };
        observe_popup(0, &popup(2), &sight).unwrap()
    };
    let first = look(RecordedWindow::Nothing, Some(window()));
    let token = first.snapshot.window;
    assert_eq!(token, Some(NativeWindowToken { serial: 0 }));
    let second = look(first.record, Some(window()));
    assert_eq!(second.snapshot.window, token);
    let other = look(second.record, Some(WindowSight { is_recorded: 0, ..window() }));
    assert_ne!(other.snapshot.window, token);
    let hidden = look(second.record, None);
    assert_eq!(hidden.snapshot.window, None);
    assert!(matches!(hidden.record, RecordedWindow::Nothing));
    let again = look(hidden.record, Some(window()));
    assert_eq!(again.snapshot.window, Some(NativeWindowToken { serial: 4 }));
}
