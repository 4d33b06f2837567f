use std::sync::{Arc, Mutex};
use tauri_runtime_cef::navigation::FrameNavigationState;
use tauri_runtime_cef::popup::{Creation, Popup, PopupFamily, MAX_POPUPS};
use tauri_runtime_cef::revocation::revoke_descendants;

type Family = PopupFamily<&'static str, Mutex<Vec<u32>>>;

fn created(instance: u64, id: i32) -> FrameNavigationState {
    FrameNavigationState::new(instance).created(id)
}

fn node(state: &FrameNavigationState, opener: &FrameNavigationState) -> Popup<&'static str> {
    Popup { state: *state, opener: *opener, closing: false, native: Arc::new("native") }
}

fn record(
    family: &mut Family,
    opener: &FrameNavigationState,
    state: &FrameNavigationState,
    native: &'static str,
) {
    assert!(matches!(
        family.created(opener, state, Some(Arc::new(native))),
        Creation::Recorded
    ));
}

fn natives(browsers: &Vec<Arc<&'static str>>) -> Vec<&'static str> {
    browsers.iter().map(|native| **native).collect()
}

fn instances(states: &Vec<FrameNavigationState>) -> Vec<u64> {
    states.iter().map(|state| state.instance).collect()
}

#[test]
fn closing_an_opener_revokes_only_its_exact_descendants() {
    let root = created(1, 1);
    let first = created(2, 2);
    let nested = created(3, 3);
    let sibling = created(4, 4);
    // Deliberately put a descendant before its opener.
    let mut nodes = vec![node(&nested, &first), node(&first, &root), node(&sibling, &root)];
    assert!(revoke_descendants(&created(5, 2), false, &mut nodes).is_empty());
    assert_eq!(revoke_descendants(&first, false, &mut nodes), vec![0]);
    assert!(nodes[0].closing);
    assert!(!nodes[2].closing);
    assert_eq!(revoke_descendants(&root, true, &mut nodes), vec![1, 2]);
    assert!(nodes.iter().all(|node| node.closing));
    assert!(revoke_descendants(&root, true, &mut nodes).is_empty());
}

#[test]
fn popup_admission_requires_the_live_exact_native_opener() {
    let root = created(1, 1);
    let mut family: Family = PopupFamily::new(root);
    assert!(family.admits(&root, 1));
    assert!(!family.admits(&root, 2));
    assert!(!family.admits(&created(2, 1), 1));
    assert!(!family.admits(&FrameNavigationState::new(3), 1));
    family.closed(&root, 2);
    assert!(family.admits(&root, 1));
    family.closed(&root, 1);
    assert!(!family.admits(&root, 1));
    assert!(family.observe().is_empty());
}

#[test]
fn descendants_are_found_through_several_passes() {
    let root = created(1, 1);
    let a = created(2, 2);
    let b = created(3, 3);
    let c = created(4, 4);
    let mut nodes = vec![node(&c, &b), node(&b, &a), node(&a, &root)];
    assert_eq!(revoke_descendants(&root, false, &mut nodes), vec![2, 1, 0]);
}

#[test]
fn a_popup_that_is_closing_already_shields_what_it_opened() {
    let root = created(1, 1);
    let a = created(2, 2);
    let b = created(3, 3);
    let mut nodes = vec![node(&a, &root), node(&b, &a)];
    nodes[0].closing = true;
    assert!(revoke_descendants(&root, false, &mut nodes).is_empty());
    assert!(!nodes[1].closing);
    assert_eq!(revoke_descendants(&a, false, &mut nodes), vec![1]);
}

#[test]
fn rearranging_the_list_revokes_the_same_popups() {
    let root = created(1, 1);
    let a = created(2, 2);
    let b = created(3, 3);
    let other = created(4, 4);
    let mut forward = vec![node(&a, &root), node(&b, &a), node(&other, &root)];
    let mut backward = vec![node(&other, &root), node(&b, &a), node(&a, &root)];
    assert_eq!(revoke_descendants(&a, false, &mut forward), vec![1]);
    assert_eq!(revoke_descendants(&a, false, &mut backward), vec![1]);
    assert!(!forward[2].closing && !backward[0].closing);
}

#[test]
fn closing_a_popup_removes_it_and_tears_down_its_descendants() {
    let root = created(1, 1);
    let a = created(2, 2);
    let b = created(3, 3);
    let c = created(4, 4);
    let mut family: Family = PopupFamily::new(root);
    record(&mut family, &root, &a, "a");
    record(&mut family, &a, &b, "b");
    record(&mut family, &root, &c, "c");
    let teardown = family.closed(&a, 2);
    assert_eq!(instances(&teardown.states), vec![2, 3]);
    assert_eq!(natives(&teardown.browsers), vec!["b"]);
    let left = family.observe();
    assert_eq!(left.len(), 2);
    assert_eq!(*left[0].native, "b");
    assert!(left[0].closing);
    assert_eq!(*left[1].native, "c");
    assert!(!left[1].closing);
    assert!(!family.admits(&a, 2));
    assert!(!family.admits(&b, 3));
    assert!(family.admits(&c, 4));

    let again = family.closed(&a, 2);
    assert_eq!(instances(&again.states), vec![2]);
    assert!(again.browsers.is_empty());
    assert_eq!(family.observe().len(), 2);
}

#[test]
fn closing_the_root_tears_everything_down() {
    let root = created(1, 1);
    let a = created(2, 2);
    let b = created(3, 3);
    let mut family: Family = PopupFamily::new(root);
    record(&mut family, &root, &a, "a");
    record(&mut family, &a, &b, "b");
    let teardown = family.closed(&root, 1);
    assert_eq!(instances(&teardown.states), vec![1, 2, 3]);
    assert_eq!(natives(&teardown.browsers), vec!["a", "b"]);
    assert!(family.observe().is_empty());
    assert!(!family.admits(&a, 2));
}

#[test]
fn a_close_for_another_identifier_is_ignored() {
    let root = created(1, 1);
    let a = created(2, 2);
    let mut family: Family = PopupFamily::new(root);
    record(&mut family, &root, &a, "a");
    let teardown = family.closed(&a, 9);
    assert!(teardown.states.is_empty());
    assert!(teardown.browsers.is_empty());
    assert_eq!(family.observe().len(), 1);
    assert!(family.admits(&a, 2));
}

#[test]
fn a_full_family_admits_no_popup() {
    let root = created(1, 1);
    let mut family: Family = PopupFamily::new(root);
    for i in 0..MAX_POPUPS as u64 {
        assert!(family.admits(&root, 1));
        record(&mut family, &root, &created(10 + i, 10 + i as i32), "popup");
    }
    assert_eq!(family.observe().len(), 128);
    assert!(!family.admits(&root, 1));
    family.closed(&created(10, 10), 10);
    assert!(family.admits(&root, 1));
}

#[test]
fn a_new_popup_is_ignored_refused_or_admitted() {
    let root = created(1, 1);
    let mut family: Family = PopupFamily::new(root);
    assert!(matches!(family.admit_created(&root, None), Creation::Ignored));
    assert!(matches!(family.admit_created(&root, Some(2)), Creation::Refused));
    assert!(matches!(family.admit_created(&root, Some(1)), Creation::Admitted(_)));
    assert!(matches!(family.created(&root, &created(2, 2), None), Creation::Refused));
    assert!(family.observe().is_empty());
}

#[test]
fn a_poisoned_family_only_learns_that_its_root_is_gone() {
    let root = created(1, 1);
    let a = created(2, 2);
    let mut family: Family = PopupFamily::new(root);
    record(&mut family, &root, &a, "a");
    family.poison();
    assert!(!family.admits(&root, 1));
    assert!(family.observe().is_empty());
    assert!(matches!(
        family.created(&root, &created(3, 3), Some(Arc::new("b"))),
        Creation::Refused
    ));
    let teardown = family.closed(&root, 1);
    assert_eq!(instances(&teardown.states), vec![1]);
    assert!(teardown.browsers.is_empty());
}

#[test]
fn a_browser_is_told_by_its_instance() {
    let a = created(1, 7);
    let b = created(2, 7);
    assert!(a.has_browser_id(7));
    assert!(!a.has_browser_id(8));
    assert!(!FrameNavigationState::new(1).has_browser_id(7));
    assert!(a.is_same_browser(&FrameNavigationState::new(1)));
    assert!(!a.is_same_browser(&b));
}

#[test]
fn a_handle_to_a_popup_shares_its_native_part() {
    let root = created(1, 1);
    let native = Arc::new("a");
    let mut family: Family = PopupFamily::new(root);
    family.created(&root, &created(2, 2), Some(Arc::clone(&native)));
    let seen = family.observe();
    assert!(Arc::ptr_eq(&seen[0].native, &native));
    let teardown = family.closed(&root, 1);
    assert!(Arc::ptr_eq(&teardown.browsers[0], &native));
}

#[test]
fn the_order_of_closes_does_not_matter() {
    let root = created(1, 1);
    let a = created(2, 2);
    let b = created(3, 3);
    let c = created(4, 4);
    let d = created(5, 5);
    let mut results: Vec<Vec<(u64, bool)>> = Vec::new();
    for order in [[a, b], [b, a]] {
        let mut family: Family = PopupFamily::new(root);
        record(&mut family, &root, &a, "a");
        record(&mut family, &b, &c, "c");
        record(&mut family, &a, &b, "b");
        record(&mut family, &root, &d, "d");
        for state in order {
            family.closed(&state, state.browser_id.unwrap());
        }
        let left = family.observe();
        results.push(left.iter().map(|popup| (popup.state.instance, popup.closing)).collect());
    }
    assert_eq!(results[0], vec![(4, true), (5, false)]);
    assert_eq!(results[1], results[0]);
}

#[test]
fn an_observer_gets_the_handlers_of_its_family() {
    let root = created(1, 1);
    let family: Family = PopupFamily::new(root);
    let handlers = family.handlers();
    match family.admit_created(&root, Some(1)) {
        Creation::Admitted(given) => {
            assert!(Arc::ptr_eq(&given, &handlers));
            handlers.lock().unwrap().push(7);
            assert_eq!(*given.lock().unwrap(), vec![7]);
        }
        _ => panic!("the root may open a popup"),
    }
}

#[test]
fn a_recorded_popup_may_open_popups() {
    let root = created(1, 1);
    let a = created(2, 2);
    let mut family: Family = PopupFamily::new(root);
    assert!(!family.admits(&a, 2));
    record(&mut family, &root, &a, "a");
    assert!(family.admits(&a, 2));
    assert!(!family.admits(&a, 3));
}

#[test]
fn a_popup_is_handed_out_once_whatever_is_closed() {
    let root = created(1, 1);
    let a = created(2, 2);
    let b = created(3, 3);
    let c = created(4, 4);
    for order in [[a, b, root], [b, a, root], [root, a, b], [root, b, a]] {
        let mut family: Family = PopupFamily::new(root);
        record(&mut family, &root, &a, "a");
        record(&mut family, &a, &b, "b");
        record(&mut family, &b, &c, "c");
        let mut handed_out: Vec<&'static str> = Vec::new();
        for state in order {
            let before = family.is_closing(&c);
            handed_out.extend(natives(&family.closed(&state, state.browser_id.unwrap()).browsers));
            assert!(!before || family.is_closing(&c));
        }
        assert_eq!(handed_out.iter().filter(|native| **native == "c").count(), 1);
        assert!(handed_out.iter().filter(|native| **native == "b").count() <= 1);
        assert!(family.is_closing(&c));
        assert!(!family.is_closing(&a));
    }
}

#[test]
fn no_descendant_of_a_closed_browser_is_left_live() {
    let root = created(1, 1);
    let a = created(2, 2);
    let b = created(3, 3);
    let c = created(4, 4);
    let other = created(5, 5);
    let mut family: Family = PopupFamily::new(root);
    record(&mut family, &root, &a, "a");
    record(&mut family, &a, &b, "b");
    record(&mut family, &root, &other, "other");
    record(&mut family, &b, &c, "c");
    family.closed(&b, 3);
    family.closed(&a, 2);
    let live: Vec<&'static str> = family
        .observe()
        .iter()
        .filter(|popup| !popup.closing)
        .map(|popup| *popup.native)
        .collect();
    assert_eq!(live, vec!["other"]);
}
