//! What the callers of a family can rely on, from one call to the next.

use crate::navigation::FrameNavigationState;
use crate::observation::{
    NativeWindowToken, NativeWindowTokens, PopupSight, RecordedWindow, Webview, WindowSight,
};
use crate::popup::{Creation, Popup, PopupFamily, Teardown};
use std::sync::Arc;
use vstd::prelude::*;

verus! {

/// A browser that was created has the identifier that it was created under, and no other;
/// one that was not created yet has none. It is the same browser before and after.
pub proof fn law_identifier_comes_with_creation(
    instance: u64,
    before: FrameNavigationState,
    browser_id: i32,
    after: FrameNavigationState,
    asked: i32,
    had: bool,
    has: bool,
    same: bool,
)
    requires
        call_ensures(FrameNavigationState::new, (instance,), before),
        call_ensures(FrameNavigationState::created, (&before, browser_id), after),
        call_ensures(FrameNavigationState::has_browser_id, (&before, asked), had),
        call_ensures(FrameNavigationState::has_browser_id, (&after, asked), has),
        call_ensures(FrameNavigationState::is_same_browser, (&before, &after), same),
    ensures
        !had,
        has <==> asked == browser_id,
        same,
{
}

/// Browsers of different instances are never the same, whatever their identifiers; those
/// of one instance always are.
pub proof fn law_instances_tell_browsers_apart(
    state: FrameNavigationState,
    other: FrameNavigationState,
    same: bool,
    reversed: bool,
)
    requires
        call_ensures(FrameNavigationState::is_same_browser, (&state, &other), same),
        call_ensures(FrameNavigationState::is_same_browser, (&other, &state), reversed),
    ensures
        same == reversed,
        same <==> state.instance == other.instance,
{
}

/// In a new family only the root may open a popup, under its own identifier, and there is
/// nothing to look at.
pub proof fn law_new_family_has_only_its_root<N, H: Default>(
    root: FrameNavigationState,
    family: PopupFamily<N, H>,
    opener: FrameNavigationState,
    browser_id: i32,
    admitted: bool,
    popups: Vec<Popup<N>>,
)
    requires
        call_ensures(PopupFamily::<N, H>::new, (root,), family),
        call_ensures(PopupFamily::<N, H>::admits, (&family, &opener, browser_id), admitted),
        call_ensures(PopupFamily::<N, H>::observe, (&family,), popups),
    ensures
        family@.root == root,
        admitted <==> opener.instance == root.instance && opener.browser_id == Some(browser_id),
        popups@.len() == 0,
{
}

/// A popup may be opened by the root and by every live popup, under the opener's own
/// identifier, while the family is neither closing nor poisoned and has room: by nobody
/// else and not otherwise.
pub proof fn law_admission_goes_by_the_opener<N, H>(
    family: PopupFamily<N, H>,
    opener: FrameNavigationState,
    browser_id: i32,
    admitted: bool,
)
    requires
        call_ensures(PopupFamily::<N, H>::admits, (&family, &opener, browser_id), admitted),
    ensures
        admitted <==> {
            &&& !family@.closing
            &&& !family@.poisoned
            &&& family@.popups.len() < 128
            &&& opener.browser_id == Some(browser_id)
            &&& opener.instance == family@.root.instance || exists|i: int|
                #![trigger family@.popups[i]]
                0 <= i < family@.popups.len() && !family@.popups[i].closing
                    && family@.popups[i].state.instance == opener.instance
        },
{
}

/// A popup that CEF created stays exactly if its opener is admitted under the identifier
/// that the popup's host gives, and then gets the family's handlers; without a host nothing
/// is done.
pub proof fn law_created_popup_stays_if_admitted<N, H>(
    family: PopupFamily<N, H>,
    opener: FrameNavigationState,
    host_opener: Option<i32>,
    admitted: bool,
    handlers: Arc<H>,
    creation: Creation<H>,
)
    requires
        host_opener is Some ==> call_ensures(
            PopupFamily::<N, H>::admits,
            (&family, &opener, host_opener->0),
            admitted,
        ),
        call_ensures(PopupFamily::<N, H>::handlers, (&family,), handlers),
        call_ensures(PopupFamily::<N, H>::admit_created, (&family, &opener, host_opener), creation),
    ensures
        creation is Ignored <==> host_opener is None,
        creation is Refused <==> host_opener is Some && !admitted,
        creation is Admitted <==> host_opener is Some && admitted,
        creation is Admitted ==> creation->Admitted_0 == handlers,
        handlers == family@.handlers,
{
}

/// Taking a popup into a family adds it, live, at the end of the list, and leaves all else
/// as it is; without a native browser, or in a poisoned family, nothing changes.
pub proof fn law_created_popup_is_appended<N, H>(
    family: &mut PopupFamily<N, H>,
    opener: FrameNavigationState,
    state: FrameNavigationState,
    native: Option<Arc<N>>,
    creation: Creation<H>,
)
    requires
        call_ensures(PopupFamily::<N, H>::created, (family, &opener, &state, native), creation),
    ensures
        final(family)@.root == old(family)@.root,
        final(family)@.closing == old(family)@.closing,
        final(family)@.poisoned == old(family)@.poisoned,
        final(family)@.handlers == old(family)@.handlers,
        creation is Recorded <==> native is Some && !old(family)@.poisoned,
        creation is Refused <==> creation !is Recorded,
        creation is Refused ==> final(family)@.popups == old(family)@.popups,
        creation is Recorded ==> {
            let popups = final(family)@.popups;
            &&& popups.len() == old(family)@.popups.len() + 1
            &&& popups.last().state == state
            &&& popups.last().opener == opener
            &&& popups.last().native == native->0
            &&& !popups.last().closing
            &&& forall|i: int|
                #![trigger popups[i]]
                0 <= i < old(family)@.popups.len() ==> popups[i] == old(family)@.popups[i]
        },
{
}

/// A popup counts as closing exactly if one of the entries of its browser is.
pub proof fn law_closing_is_read_from_the_list<N, H>(
    family: PopupFamily<N, H>,
    state: FrameNavigationState,
    closing: bool,
)
    requires
        call_ensures(PopupFamily::<N, H>::is_closing, (&family, &state), closing),
    ensures
        forall|i: int|
            #![trigger family@.popups[i]]
            0 <= i < family@.popups.len() && family@.popups[i].state.instance == state.instance
                && family@.popups[i].closing ==> closing,
        (forall|i: int|
            #![trigger family@.popups[i]]
            0 <= i < family@.popups.len() && family@.popups[i].state.instance == state.instance
                ==> !family@.popups[i].closing) ==> !closing,
{
}

/// Where each popup has a browser of its own, a popup that is closing may open none.
pub proof fn law_closing_popup_opens_nothing<N, H>(
    family: PopupFamily<N, H>,
    state: FrameNavigationState,
    browser_id: i32,
    closing: bool,
    admitted: bool,
)
    requires
        family@.has_distinct_browsers(),
        call_ensures(PopupFamily::<N, H>::is_closing, (&family, &state), closing),
        call_ensures(PopupFamily::<N, H>::admits, (&family, &state, browser_id), admitted),
    ensures
        closing ==> !admitted,
{
}

/// A poisoned family admits nobody and shows nothing, and what it holds stays as it was.
pub proof fn law_poisoned_family_is_left_alone<N, H>(
    family: &mut PopupFamily<N, H>,
    after: PopupFamily<N, H>,
    opener: FrameNavigationState,
    browser_id: i32,
    admitted: bool,
    popups: Vec<Popup<N>>,
)
    requires
        call_ensures(PopupFamily::<N, H>::poison, (family,), ()),
        after == *final(family),
        call_ensures(PopupFamily::<N, H>::admits, (&after, &opener, browser_id), admitted),
        call_ensures(PopupFamily::<N, H>::observe, (&after,), popups),
    ensures
        after@.poisoned,
        after@.root == old(family)@.root,
        after@.closing == old(family)@.closing,
        after@.popups == old(family)@.popups,
        after@.handlers == old(family)@.handlers,
        !admitted,
        popups@.len() == 0,
{
}

/// A look at a family shows every popup as it is, in the order of the list; once the root
/// was closed, or the list is poisoned, it shows none.
pub proof fn law_look_shows_every_popup<N, H>(family: PopupFamily<N, H>, popups: Vec<Popup<N>>)
    requires
        call_ensures(PopupFamily::<N, H>::observe, (&family,), popups),
    ensures
        family@.closing || family@.poisoned ==> popups@.len() == 0,
        !family@.closing && !family@.poisoned ==> {
            &&& popups@.len() == family@.popups.len()
            &&& forall|i: int|
                #![trigger popups@[i]]
                0 <= i < family@.popups.len() ==> {
                    &&& popups@[i].state == family@.popups[i].state
                    &&& popups@[i].opener == family@.popups[i].opener
                    &&& popups@[i].closing == family@.popups[i].closing
                    &&& popups@[i].native == family@.popups[i].native
                }
        },
{
}

/// A close that is reported for another identifier than the browser's own changes nothing
/// and tears nothing down.
pub proof fn law_foreign_close_is_ignored<N, H>(
    family: &mut PopupFamily<N, H>,
    state: FrameNavigationState,
    browser_id: i32,
    teardown: Teardown<N>,
)
    requires
        call_ensures(PopupFamily::<N, H>::closed, (family, &state, browser_id), teardown),
        state.browser_id != Some(browser_id),
    ensures
        final(family)@ == old(family)@,
        teardown.states@.len() == 0,
        teardown.browsers@.len() == 0,
{
}

/// A close takes the browser's own entries from the list and leaves the others where they
/// are. Of these none is live any more with the root closed, and else none that was opened
/// by the closed browser or by a popup that this close revokes. Exactly the popups that
/// were live before and are closing now are torn down: as many browsers are handed out,
/// each of them is, and its state is among those to close, the closed browser's first.
pub proof fn law_close_tears_down_what_it_revokes<N, H>(
    family: &mut PopupFamily<N, H>,
    state: FrameNavigationState,
    browser_id: i32,
    teardown: Teardown<N>,
)
    requires
        call_ensures(PopupFamily::<N, H>::closed, (family, &state, browser_id), teardown),
        state.browser_id == Some(browser_id),
        !old(family)@.poisoned,
    ensures
        ({
            let after = final(family)@;
            let left = old(family)@.popups.filter(
                |popup: Popup<N>| popup.state.instance != state.instance,
            );
            let root_closed = old(family)@.root.instance == state.instance;
            &&& after.root == old(family)@.root
            &&& !after.poisoned
            &&& after.handlers == old(family)@.handlers
            &&& after.closing == (old(family)@.closing || root_closed)
            &&& after.popups.len() == left.len()
            &&& forall|i: int|
                #![trigger after.popups[i]]
                0 <= i < left.len() ==> {
                    &&& after.popups[i].state == left[i].state
                    &&& after.popups[i].opener == left[i].opener
                    &&& after.popups[i].native == left[i].native
                    &&& left[i].closing ==> after.popups[i].closing
                    &&& root_closed ==> after.popups[i].closing
                    &&& left[i].opener.instance == state.instance ==> after.popups[i].closing
                    &&& after.popups[i].closing && !left[i].closing ==> {
                        &&& teardown.browsers@.contains(left[i].native)
                        &&& teardown.states@.contains(left[i].state)
                    }
                }
            &&& forall|i: int, j: int|
                #![trigger after.popups[i], after.popups[j]]
                0 <= i < left.len() && 0 <= j < left.len() && !left[j].closing
                    && after.popups[j].closing && left[i].opener.instance
                    == left[j].state.instance ==> after.popups[i].closing
            &&& left.filter(|popup: Popup<N>| !popup.closing).len() == after.popups.filter(
                |popup: Popup<N>| !popup.closing,
            ).len() + teardown.browsers@.len()
            &&& teardown.states@.len() == teardown.browsers@.len() + 1
            &&& teardown.states@[0] == state
        }),
{
    let before = old(family)@;
    crate::popup::law_close_leaves_no_live_descendant(before, state);
    crate::popup::law_what_is_revoked_is_torn_down(before, state, teardown);
    crate::popup::law_live_popups_are_left_or_handed_out(before, state, teardown);
}

/// The close of a browser in a poisoned family only closes that browser's own state.
pub proof fn law_close_in_a_poisoned_family<N, H>(
    family: &mut PopupFamily<N, H>,
    state: FrameNavigationState,
    browser_id: i32,
    teardown: Teardown<N>,
)
    requires
        call_ensures(PopupFamily::<N, H>::closed, (family, &state, browser_id), teardown),
        state.browser_id == Some(browser_id),
        old(family)@.poisoned,
    ensures
        final(family)@.poisoned,
        final(family)@.popups == old(family)@.popups,
        final(family)@.root == old(family)@.root,
        final(family)@.handlers == old(family)@.handlers,
        final(family)@.closing == (old(family)@.closing || old(family)@.root.instance
            == state.instance),
        teardown.states@ == seq![state],
        teardown.browsers@.len() == 0,
{
    crate::popup::law_close_leaves_no_live_descendant(old(family)@, state);
    crate::popup::law_what_is_revoked_is_torn_down(old(family)@, state, teardown);
}

/// A close spares what is not below the closed browser: whatever set of browsers holds the
/// closed one, and with the opener of a live popup that popup's browser, holds the opener
/// of every popup that the close of a browser other than the root makes closing.
pub proof fn law_close_spares_other_branches<N, H>(
    family: &mut PopupFamily<N, H>,
    state: FrameNavigationState,
    browser_id: i32,
    teardown: Teardown<N>,
    below: spec_fn(u64) -> bool,
    index: int,
)
    requires
        call_ensures(PopupFamily::<N, H>::closed, (family, &state, browser_id), teardown),
        state.browser_id == Some(browser_id),
        !old(family)@.poisoned,
        old(family)@.root.instance != state.instance,
        below(state.instance),
        forall|i: int|
            #![trigger old(family)@.popups[i]]
            0 <= i < old(family)@.popups.len() && !old(family)@.popups[i].closing && below(
                old(family)@.popups[i].opener.instance,
            ) ==> below(old(family)@.popups[i].state.instance),
        0 <= index < final(family)@.popups.len(),
        final(family)@.popups[index].closing,
        !below(final(family)@.popups[index].opener.instance),
    ensures
        old(family)@.popups.filter(
            |popup: Popup<N>| popup.state.instance != state.instance,
        )[index].closing,
{
    crate::popup::law_close_leaves_no_live_descendant(old(family)@, state);
    crate::popup::law_close_spares_the_others(old(family)@, state, below, index);
}

/// After the close of the root nobody may open a popup and nothing is shown; after the
/// close of any browser that browser may open none.
pub proof fn law_closed_browser_is_gone<N, H>(
    family: &mut PopupFamily<N, H>,
    state: FrameNavigationState,
    browser_id: i32,
    teardown: Teardown<N>,
    after: PopupFamily<N, H>,
    opener: FrameNavigationState,
    opener_id: i32,
    admitted: bool,
    popups: Vec<Popup<N>>,
)
    requires
        call_ensures(PopupFamily::<N, H>::closed, (family, &state, browser_id), teardown),
        state.browser_id == Some(browser_id),
        after == *final(family),
        call_ensures(PopupFamily::<N, H>::admits, (&after, &opener, opener_id), admitted),
        call_ensures(PopupFamily::<N, H>::observe, (&after,), popups),
    ensures
        old(family)@.root.instance == state.instance ==> !admitted && popups@.len() == 0,
        opener.instance == state.instance ==> !admitted,
        forall|i: int|
            #![trigger popups@[i]]
            0 <= i < popups@.len() ==> popups@[i].state.instance != state.instance,
{
    let before = old(family)@;
    crate::popup::law_close_leaves_no_live_descendant(before, state);
    if opener.instance == state.instance {
        crate::popup::law_closed_browser_opens_nothing(before, state, opener, opener_id);
    }
    if !before.poisoned {
        crate::popup::lemma_without(before.popups, state);
        let left = crate::popup::without(before.popups, state);
        assert forall|i: int| #![trigger popups@[i]] 0 <= i < popups@.len() implies
            popups@[i].state.instance != state.instance by {
            assert(after@.popups[i].state == left[i].state);
        }
    }
}

/// Revoking returns the places of exactly the popups that it makes closing, each once, and
/// changes nothing else of the list. With the root closed no live popup is left, and the
/// places ascend; else none that was opened by the closed browser or by a popup that was
/// revoked, and the places come in the order of a repeated search.
pub proof fn law_revoking_marks_what_it_returns<N>(
    state: FrameNavigationState,
    root_closed: bool,
    popups: &mut Vec<Popup<N>>,
    indices: Vec<usize>,
)
    requires
        call_ensures(
            crate::revocation::revoke_descendants::<N>,
            (&state, root_closed, popups),
            indices,
        ),
    ensures
        ({
            let before = old(popups)@;
            let after = final(popups)@;
            &&& after.len() == before.len()
            &&& indices@.no_duplicates()
            &&& forall|k: int|
                #![trigger indices@[k]]
                0 <= k < indices@.len() ==> {
                    &&& 0 <= indices@[k] < before.len()
                    &&& !before[indices@[k] as int].closing
                    &&& after[indices@[k] as int].closing
                }
            &&& forall|i: int|
                #![trigger after[i]]
                0 <= i < before.len() ==> {
                    &&& after[i].state == before[i].state
                    &&& after[i].opener == before[i].opener
                    &&& after[i].native == before[i].native
                    &&& before[i].closing ==> after[i].closing
                    &&& after[i].closing && !before[i].closing ==> exists|k: int|
                        #![trigger indices@[k]]
                        0 <= k < indices@.len() && indices@[k] == i
                    &&& root_closed ==> after[i].closing
                    &&& before[i].opener.instance == state.instance ==> after[i].closing
                }
            &&& forall|i: int, j: int|
                #![trigger after[i], after[j]]
                0 <= i < before.len() && 0 <= j < before.len() && !before[j].closing
                    && after[j].closing && before[i].opener.instance == before[j].state.instance
                    ==> after[i].closing
            &&& root_closed ==> forall|j: int, k: int|
                #![trigger indices@[j], indices@[k]]
                0 <= j < k < indices@.len() ==> indices@[j] < indices@[k]
            &&& !root_closed ==> crate::revocation::is_search_order(
                before,
                state.instance,
                indices@.map_values(|index: usize| index as int),
            )
        }),
{
    let before = old(popups)@;
    let after = final(popups)@;
    let order = crate::revocation::places(indices@);
    crate::revocation::law_every_descendant_is_revoked(before, state.instance, root_closed, order);
    crate::revocation::law_revocation_goes_by_the_list(before, state.instance, root_closed, order);
    assert forall|k: int| #![trigger indices@[k]] 0 <= k < indices@.len() implies {
        &&& 0 <= indices@[k] < before.len()
        &&& !before[indices@[k] as int].closing
        &&& after[indices@[k] as int].closing
    } by {
        assert(order[k] == indices@[k]);
    }
    assert forall|i: int|
        #![trigger after[i]]
        0 <= i < before.len() && after[i].closing && !before[i].closing implies exists|k: int|
        #![trigger indices@[k]]
        0 <= k < indices@.len() && indices@[k] == i by {
        let k = order.index_of(i);
        assert(order[k] == i);
        assert(indices@[k] == i);
    }
    if root_closed {
        assert forall|j: int, k: int|
            #![trigger indices@[j], indices@[k]]
            0 <= j < k < indices@.len() implies indices@[j] < indices@[k] by {
            assert(order[j] < order[k]);
        }
    }
}

/// A popup is reported exactly if it is live, its browser is valid and its record can be
/// read: with its own place, state, opener and identifier, the bounds of its view, and,
/// where an open window shows it, that window's token, which is also what is to be
/// recorded.
pub proof fn law_report_of_one_popup<N>(
    index: usize,
    popup: Popup<N>,
    sight: PopupSight,
    report: Option<Webview>,
)
    requires
        call_ensures(
            crate::observation::observe_popup::<N>,
            (index, &popup, &sight),
            report,
        ),
    ensures
        report is Some <==> !popup.closing && sight.is_valid != 0 && sight.recorded !is Unreadable,
        report is Some ==> {
            let snapshot = report->0.snapshot;
            let is_shown = sight.view is Some && sight.view->0.window is Some
                && sight.view->0.window->0.is_closed == 0;
            &&& report->0.popup == index
            &&& report->0.state == popup.state
            &&& report->0.opener == popup.opener
            &&& snapshot.browser_id == sight.browser_id
            &&& snapshot.window_label is None
            &&& snapshot.bounds is Some <==> sight.view is Some
            &&& sight.view is Some ==> snapshot.bounds->0 == sight.view->0.bounds
            &&& snapshot.window is Some <==> is_shown
            &&& snapshot.visible is Some <==> is_shown
            &&& snapshot.parent_matches is Some <==> is_shown
            &&& is_shown ==> snapshot.parent_matches->0
            &&& is_shown ==> report->0.record == RecordedWindow::Window(snapshot.window->0)
            &&& !is_shown ==> report->0.record is Nothing
        },
{
}

/// A reported popup in an open window is visible exactly when it is drawn and the window is
/// visible and not minimized; its token is the recorded one exactly if the window is the
/// recorded one, and else the fresh one.
pub proof fn law_report_of_an_open_window<N>(
    index: usize,
    popup: Popup<N>,
    sight: PopupSight,
    window: WindowSight,
    report: Option<Webview>,
)
    requires
        call_ensures(
            crate::observation::observe_popup::<N>,
            (index, &popup, &sight),
            report,
        ),
        report is Some,
        sight.view is Some,
        sight.view->0.window == Some(window),
        window.is_closed == 0,
    ensures
        report->0.snapshot.visible == Some(true) <==> sight.view->0.is_drawn != 0
            && window.is_visible != 0 && window.is_minimized == 0,
        sight.recorded is Window && window.is_recorded != 0 ==> report->0.snapshot.window == Some(
            sight.recorded->Window_0,
        ),
        sight.recorded is Nothing || window.is_recorded == 0 ==> report->0.snapshot.window
            == Some(sight.fresh),
{
}

/// Two reports of looks that agree on what is on screen agree on the visibility.
pub proof fn law_reports_agree_on_visibility<N>(
    index: usize,
    popup: Popup<N>,
    sight: PopupSight,
    report: Option<Webview>,
    other_index: usize,
    other_popup: Popup<N>,
    other: PopupSight,
    other_report: Option<Webview>,
)
    requires
        call_ensures(
            crate::observation::observe_popup::<N>,
            (index, &popup, &sight),
            report,
        ),
        call_ensures(
            crate::observation::observe_popup::<N>,
            (other_index, &other_popup, &other),
            other_report,
        ),
        report is Some,
        other_report is Some,
        sight.view is Some,
        sight.view->0.window is Some,
        other.view is Some,
        other.view->0.window is Some,
        sight.view->0.is_drawn == other.view->0.is_drawn,
        sight.view->0.window->0.is_closed == other.view->0.window->0.is_closed,
        sight.view->0.window->0.is_visible == other.view->0.window->0.is_visible,
        sight.view->0.window->0.is_minimized == other.view->0.window->0.is_minimized,
    ensures
        report->0.snapshot.visible == other_report->0.snapshot.visible,
{
}

/// Of a list of popups exactly those are reported that would be alone, each as it would be
/// alone, in the order of the list.
pub proof fn law_reports_are_made_one_by_one<N>(
    popups: Vec<Popup<N>>,
    sights: Vec<PopupSight>,
    reports: Vec<Webview>,
    index: usize,
    report: Option<Webview>,
)
    requires
        sights@.len() == popups@.len(),
        index < popups@.len(),
        call_ensures(crate::observation::observe_popups::<N>, (&popups, &sights), reports),
        call_ensures(
            crate::observation::observe_popup::<N>,
            (index, &popups@[index as int], &sights@[index as int]),
            report,
        ),
    ensures
        report is Some ==> reports@.contains(report->0),
        forall|k: int|
            #![trigger reports@[k]]
            0 <= k < reports@.len() && reports@[k].popup == index ==> report == Some(reports@[k]),
        forall|k: int|
            #![trigger reports@[k]]
            0 <= k < reports@.len() ==> reports@[k].popup < popups@.len(),
        forall|j: int, k: int|
            #![trigger reports@[j], reports@[k]]
            0 <= j < k < reports@.len() ==> reports@[j].popup < reports@[k].popup,
{
    assert(popups.len() == popups@.len());
    crate::observation::law_reports_follow_the_list(popups@, sights@, popups@.len());
}

/// Tokens that are handed out one after the other differ from each other, and from all that
/// were handed out before.
pub proof fn law_tokens_are_handed_out_once(
    tokens: &mut NativeWindowTokens,
    token: NativeWindowToken,
    later: &mut NativeWindowTokens,
    later_token: NativeWindowToken,
)
    requires
        call_ensures(NativeWindowTokens::fresh, (tokens,), token),
        *later == *final(tokens),
        call_ensures(NativeWindowTokens::fresh, (later,), later_token),
    ensures
        token != later_token,
        token.serial >= old(tokens).next,
        token.serial < final(tokens).next,
        later_token.serial >= final(tokens).next,
        later_token.serial < final(later).next,
{
    assert(final(tokens).has_issued(token));
    assert(final(later).has_issued(later_token));
}

/// A family takes every call in every state: whatever CEF reports, in whatever order.
pub proof fn law_any_report_is_taken<N, H>(
    family: &mut PopupFamily<N, H>,
    state: FrameNavigationState,
    opener: FrameNavigationState,
    browser_id: i32,
    host_opener: Option<i32>,
    native: Option<Arc<N>>,
)
    ensures
        call_requires(PopupFamily::<N, H>::admits, (&*old(family), &opener, browser_id)),
        call_requires(PopupFamily::<N, H>::is_closing, (&*old(family), &state)),
        call_requires(PopupFamily::<N, H>::admit_created, (&*old(family), &opener, host_opener)),
        call_requires(PopupFamily::<N, H>::created, (family, &opener, &state, native)),
        call_requires(PopupFamily::<N, H>::closed, (family, &state, browser_id)),
        call_requires(PopupFamily::<N, H>::observe, (&*old(family),)),
        call_requires(PopupFamily::<N, H>::poison, (family,)),
{
}

/// Any list of popups can be reported, given one sight for each.
pub proof fn law_any_list_can_be_reported<N>(popups: Vec<Popup<N>>, sights: Vec<PopupSight>)
    requires
        sights@.len() == popups@.len(),
    ensures
        call_requires(crate::observation::observe_popups::<N>, (&popups, &sights)),
{
}

} // verus!
