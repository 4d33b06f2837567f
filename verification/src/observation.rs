//! What is reported of the popups of a family.
//!
//! CEF is asked about each popup with no lock held; its answers, taken as they
//! come, are a `PopupSight`. From the popup and the sight follows what is
//! reported.

use crate::navigation::FrameNavigationState;
use crate::popup::Popup;
use vstd::prelude::*;

verus! {

/// Names the native window that a webview is shown in, for as long as it stays
/// there.
#[derive(Clone, Copy, Debug, PartialEq, Eq)]
pub struct NativeWindowToken {
    pub serial: u64,
}

/// A place and a size in logical pixels.
#[derive(Clone, Copy, Debug, PartialEq, Eq)]
pub struct Bounds {
    pub x: i32,
    pub y: i32,
    pub width: i32,
    pub height: i32,
}

/// What CEF says of the window that shows a view. Flags are CEF's: zero is no.
#[derive(Clone, Copy, Debug)]
pub struct WindowSight {
    pub is_closed: i32,
    pub is_visible: i32,
    pub is_minimized: i32,
    /// Whether it is the window that was recorded for the popup, if one was.
    pub is_recorded: i32,
}

/// What CEF says of the view of a browser.
#[derive(Clone, Copy, Debug)]
pub struct ViewSight {
    pub bounds: Bounds,
    pub is_drawn: i32,
    pub window: Option<WindowSight>,
}

/// What was recorded for a popup when it was last seen.
#[derive(Clone, Copy, Debug)]
pub enum RecordedWindow {
    /// The record cannot be read: its lock is poisoned.
    Unreadable,
    /// It was shown in no window.
    Nothing,
    /// It was shown in the window of that token.
    Window(NativeWindowToken),
}

/// What there is to see of a popup at one moment.
#[derive(Clone, Copy, Debug)]
pub struct PopupSight {
    pub is_valid: i32,
    pub browser_id: i32,
    pub view: Option<ViewSight>,
    pub recorded: RecordedWindow,
    /// A token that names no window yet.
    pub fresh: NativeWindowToken,
}

/// What is reported of a webview.
#[derive(Debug)]
pub struct WebviewSnapshot {
    pub browser_id: i32,
    /// A popup has no labelled window.
    pub window_label: Option<String>,
    pub window: Option<NativeWindowToken>,
    pub parent_matches: Option<bool>,
    pub bounds: Option<Bounds>,
    pub visible: Option<bool>,
}

/// A popup as it is reported; `popup` is its place among those looked at.
#[derive(Debug)]
pub struct Webview {
    pub popup: usize,
    pub snapshot: WebviewSnapshot,
    /// What is to be recorded for the popup.
    pub record: RecordedWindow,
    pub state: FrameNavigationState,
    pub opener: FrameNavigationState,
}

impl PopupSight {
    /// The window that shows the popup, unless it is closed already.
    pub open spec fn open_window(self) -> Option<WindowSight> {
        match self.view {
            Some(view) => match view.window {
                Some(window) if window.is_closed == 0 => Some(window),
                _ => None,
            },
            None => None,
        }
    }

    /// The token of the window that shows the popup: the recorded one while it is
    /// the same window, else the fresh one.
    pub open spec fn window_token(self) -> Option<NativeWindowToken> {
        match self.open_window() {
            Some(window) => match self.recorded {
                RecordedWindow::Window(token) if window.is_recorded != 0 => Some(token),
                _ => Some(self.fresh),
            },
            None => None,
        }
    }

    /// What is recorded for the popup after the look: the window that shows it under
    /// its token, or that no window does.
    pub open spec fn record_after(self) -> RecordedWindow {
        match self.window_token() {
            Some(token) => RecordedWindow::Window(token),
            None => RecordedWindow::Nothing,
        }
    }

    /// Whether the popup can be seen: it is drawn, in a window that is visible and
    /// not minimized. Nothing is said of a popup without a window.
    pub open spec fn visibility(self) -> Option<bool> {
        match self.open_window() {
            Some(window) => Some(
                self.view->0.is_drawn != 0 && window.is_visible != 0 && window.is_minimized == 0,
            ),
            None => None,
        }
    }

    /// What is reported of the popup.
    pub open spec fn snapshot(self) -> WebviewSnapshot {
        WebviewSnapshot {
            browser_id: self.browser_id,
            window_label: None,
            window: self.window_token(),
            parent_matches: match self.open_window() {
                Some(_) => Some(true),
                None => None,
            },
            bounds: match self.view {
                Some(view) => Some(view.bounds),
                None => None,
            },
            visible: self.visibility(),
        }
    }
}

/// Whether a popup is reported: it is not being closed, its browser is valid,
/// and its record can be read.
pub open spec fn is_reported<N>(popup: Popup<N>, sight: PopupSight) -> bool {
    !popup.closing && sight.is_valid != 0 && !(sight.recorded is Unreadable)
}

/// The popup at `index` as it is reported.
pub open spec fn webview<N>(index: usize, popup: Popup<N>, sight: PopupSight) -> Webview {
    Webview {
        popup: index,
        snapshot: sight.snapshot(),
        record: sight.record_after(),
        state: popup.state,
        opener: popup.opener,
    }
}

/// The first `count` popups as they are reported, in their order.
pub open spec fn webviews<N>(
    popups: Seq<Popup<N>>,
    sights: Seq<PopupSight>,
    count: nat,
) -> Seq<Webview>
    decreases count,
{
    if count == 0 {
        Seq::empty()
    } else {
        let index = (count - 1) as nat;
        let before = webviews(popups, sights, index);
        if is_reported(popups[index as int], sights[index as int]) {
            before.push(webview(index as usize, popups[index as int], sights[index as int]))
        } else {
            before
        }
    }
}

/// Reports one popup, the one at `index`, or nothing of one that is being closed,
/// whose browser is gone or whose record cannot be read.
pub fn observe_popup<N>(index: usize, popup: &Popup<N>, sight: &PopupSight) -> (r: Option<Webview>)
    ensures
        r == if is_reported(*popup, *sight) {
            Some(webview(index, *popup, *sight))
        } else {
            None
        },
{
    if popup.closing || sight.is_valid == 0 {
        return None;
    }
    let previous: Option<NativeWindowToken> = match sight.recorded {
        RecordedWindow::Unreadable => {
            return None;
        },
        RecordedWindow::Nothing => None,
        RecordedWindow::Window(token) => Some(token),
    };
    let mut window: Option<NativeWindowToken> = None;
    let mut parent_matches: Option<bool> = None;
    let mut bounds: Option<Bounds> = None;
    let mut visible: Option<bool> = None;
    if let Some(view) = sight.view {
        bounds = Some(view.bounds);
        if let Some(shown_in) = view.window {
            if shown_in.is_closed == 0 {
                window = match previous {
                    Some(token) => if shown_in.is_recorded != 0 {
                        Some(token)
                    } else {
                        Some(sight.fresh)
                    },
                    None => Some(sight.fresh),
                };
                parent_matches = Some(true);
                visible = Some(
                    view.is_drawn != 0 && shown_in.is_visible != 0 && shown_in.is_minimized == 0,
                );
            }
        }
    }
    let record = match window {
        Some(token) => RecordedWindow::Window(token),
        None => RecordedWindow::Nothing,
    };
    Some(
        Webview {
            popup: index,
            snapshot: WebviewSnapshot {
                browser_id: sight.browser_id,
                window_label: None,
                window,
                parent_matches,
                bounds,
                visible,
            },
            record,
            state: popup.state,
            opener: popup.opener,
        },
    )
}

/// Reports the popups that were looked at, in their order. There is one sight
/// for each of them.
pub fn observe_popups<N>(popups: &Vec<Popup<N>>, sights: &Vec<PopupSight>) -> (reported: Vec<
    Webview,
>)
    requires
        sights@.len() == popups@.len(),
    ensures
        reported@ == webviews(popups@, sights@, popups@.len()),
{
    let mut reported: Vec<Webview> = Vec::new();
    let mut index: usize = 0;
    assert(reported@ =~= webviews(popups@, sights@, 0));
    while index < popups.len()
        invariant
            index <= popups@.len(),
            sights@.len() == popups@.len(),
            reported@ == webviews(popups@, sights@, index as nat),
        decreases popups@.len() - index,
    {
        if let Some(webview) = observe_popup(index, &popups[index], &sights[index]) {
            reported.push(webview);
        }
        index += 1;
    }
    reported
}

/// The reported popups are those of the reported ones in the list, each once and
/// in the order of the list.
pub proof fn law_reports_follow_the_list<N>(
    popups: Seq<Popup<N>>,
    sights: Seq<PopupSight>,
    count: nat,
)
    requires
        count <= popups.len(),
        count <= usize::MAX,
    ensures
        ({
            let reported = webviews(popups, sights, count);
            &&& forall|k: int|
                #![trigger reported[k]]
                0 <= k < reported.len() ==> {
                    let i = reported[k].popup as int;
                    &&& 0 <= i < count
                    &&& is_reported(popups[i], sights[i])
                    &&& reported[k] == webview(i as usize, popups[i], sights[i])
                }
            &&& forall|i: int|
                0 <= i < count && #[trigger] is_reported(popups[i], sights[i])
                    ==> reported.contains(webview(i as usize, popups[i], sights[i]))
            &&& forall|j: int, k: int|
                #![trigger reported[j], reported[k]]
                0 <= j < k < reported.len() ==> reported[j].popup < reported[k].popup
        }),
    decreases count,
{
    if count > 0 {
        let index = (count - 1) as nat;
        let before = webviews(popups, sights, index);
        let reported = webviews(popups, sights, count);
        law_reports_follow_the_list(popups, sights, index);
        assert forall|i: int|
            0 <= i < count && #[trigger] is_reported(
                popups[i],
                sights[i],
            ) implies reported.contains(webview(i as usize, popups[i], sights[i])) by {
            if i < index {
                let k = before.index_of(webview(i as usize, popups[i], sights[i]));
                assert(reported[k] == before[k]);
            } else {
                assert(reported[reported.len() - 1] == webview(i as usize, popups[i], sights[i]));
            }
        }
        assert(forall|k: int|
            #![trigger reported[k]]
            0 <= k < before.len() ==> reported[k] == before[k]);
    }
}

/// The popups of a list that are reported, when `sight_of` tells what there is to see of
/// each.
pub open spec fn reported<N>(
    popups: Seq<Popup<N>>,
    sight_of: spec_fn(Popup<N>) -> PopupSight,
) -> Seq<Popup<N>> {
    popups.filter(|popup: Popup<N>| is_reported(popup, sight_of(popup)))
}

/// What is reported are the reported popups of the list, in its order, each with its
/// snapshot and its opener.
pub proof fn law_reports_are_the_reported_popups<N>(
    popups: Seq<Popup<N>>,
    sight_of: spec_fn(Popup<N>) -> PopupSight,
)
    ensures
        webviews(popups, popups.map_values(sight_of), popups.len()).map_values(
            |webview: Webview| (webview.snapshot, webview.state, webview.opener),
        ) == reported(popups, sight_of).map_values(
            |popup: Popup<N>| (sight_of(popup).snapshot(), popup.state, popup.opener),
        ),
    decreases popups.len(),
{
    reveal(Seq::filter);
    let listed = |webview: Webview| (webview.snapshot, webview.state, webview.opener);
    let seen = |popup: Popup<N>| (sight_of(popup).snapshot(), popup.state, popup.opener);
    let sights = popups.map_values(sight_of);
    if popups.len() == 0 {
        assert(webviews(popups, sights, 0).map_values(listed) =~= reported(
            popups,
            sight_of,
        ).map_values(seen));
    } else {
        let shorter = popups.drop_last();
        let n = shorter.len();
        law_reports_are_the_reported_popups(shorter, sight_of);
        lemma_webviews_of_a_prefix(shorter, popups, shorter.map_values(sight_of), sights, n);
        let last = popups.last();
        let before = webviews(popups, sights, n);
        let all = webviews(popups, sights, popups.len());
        let seen_before = reported(shorter, sight_of);
        assert(popups.len() == n + 1);
        assert(sights[n as int] == sight_of(last));
        assert(before.map_values(listed) == seen_before.map_values(seen));
        if is_reported(last, sight_of(last)) {
            let webview = webview(n as usize, last, sight_of(last));
            assert(all == before.push(webview));
            assert(all.map_values(listed) =~= before.map_values(listed).push(listed(webview)));
            assert(reported(popups, sight_of) == seen_before.push(last));
            assert(seen_before.push(last).map_values(seen) =~= seen_before.map_values(
                seen,
            ).push(seen(last)));
        } else {
            assert(all == before);
            assert(reported(popups, sight_of) == seen_before);
        }
    }
}

proof fn lemma_webviews_of_a_prefix<N>(
    popups: Seq<Popup<N>>,
    longer: Seq<Popup<N>>,
    sights: Seq<PopupSight>,
    longer_sights: Seq<PopupSight>,
    n: nat,
)
    requires
        forall|i: int|
            0 <= i < n ==> #[trigger] popups[i] == longer[i] && sights[i] == longer_sights[i],
    ensures
        webviews(popups, sights, n) == webviews(longer, longer_sights, n),
    decreases n,
{
    if n > 0 {
        lemma_webviews_of_a_prefix(popups, longer, sights, longer_sights, (n - 1) as nat);
        assert(popups[n - 1] == longer[n - 1]);
    }
}

/// Hands out tokens, each of them once.
#[derive(Debug)]
pub struct NativeWindowTokens {
    pub next: u64,
}

impl NativeWindowTokens {
    /// Whether `token` was handed out.
    pub open spec fn has_issued(self, token: NativeWindowToken) -> bool {
        token.serial < self.next
    }

    /// No token was handed out yet.
    pub fn new() -> (tokens: Self)
        ensures
            forall|token: NativeWindowToken| !tokens.has_issued(token),
    {
        NativeWindowTokens { next: 0 }
    }

    /// A token that was not handed out before, as long as serials last.
    pub fn fresh(&mut self) -> (token: NativeWindowToken)
        requires
            old(self).next < u64::MAX,
        ensures
            final(self).next == old(self).next + 1,
            forall|other: NativeWindowToken| #[trigger]
                final(self).has_issued(other) <==> old(self).has_issued(other) || other == token,
            !old(self).has_issued(token),
    {
        let token = NativeWindowToken { serial: self.next };
        self.next = self.next + 1;
        token
    }
}

/// Over two looks at a popup that is shown in a window each time, of which the later goes
/// by what the earlier recorded and has a token that the earlier does not name its window
/// by: the token is the same exactly when the window is.
pub proof fn law_token_follows_the_window(earlier: PopupSight, later: PopupSight)
    requires
        earlier.open_window() is Some,
        later.open_window() is Some,
        later.recorded == earlier.record_after(),
        earlier.window_token() != Some(later.fresh),
    ensures
        earlier.snapshot().window is Some,
        later.snapshot().window == earlier.snapshot().window
            <==> later.open_window()->0.is_recorded != 0,
        later.open_window()->0.is_recorded == 0 ==> later.snapshot().window == Some(later.fresh),
{
}

/// A look without an open window drops the token: over three looks, each of which goes by
/// what the one before recorded, a window that is seen again after it was not gets the
/// fresh token, even if it is the same window.
pub proof fn law_token_is_dropped_with_the_window(
    first: PopupSight,
    second: PopupSight,
    third: PopupSight,
)
    requires
        first.open_window() is Some,
        second.open_window() is None,
        third.open_window() is Some,
        second.recorded == first.record_after(),
        third.recorded == second.record_after(),
        first.window_token() != Some(third.fresh),
    ensures
        second.snapshot().window is None,
        third.snapshot().window == Some(third.fresh),
        third.snapshot().window != first.snapshot().window,
{
}

/// A token made after a look names none of the windows that the look can name: what the
/// look had from its record and its own fresh token were made before.
pub proof fn law_later_tokens_are_new(
    tokens: NativeWindowTokens,
    look: PopupSight,
    later: NativeWindowToken,
)
    requires
        tokens.has_issued(look.fresh),
        look.recorded matches RecordedWindow::Window(token) ==> tokens.has_issued(token),
        !tokens.has_issued(later),
    ensures
        look.window_token() != Some(later),
        look.record_after() matches RecordedWindow::Window(token) ==> tokens.has_issued(token),
{
}

/// A popup is reported exactly when it is not being closed, its browser is valid and its
/// record can be read; nothing else that is to be seen of it plays a part.
pub proof fn law_live_valid_popups_are_reported<N>(popup: Popup<N>, sight: PopupSight)
    ensures
        is_reported(popup, sight) <==> {
            &&& !popup.closing
            &&& sight.is_valid != 0
            &&& sight.recorded !is Unreadable
        },
{
}

/// A report names the popup's place, its browser, its state and its opener, and has the
/// bounds of its view; it has a window, a visibility and a matching parent exactly when an
/// open window shows the popup, and what it says of the window is what is recorded.
pub proof fn law_report_holds_what_is_seen<N>(index: usize, popup: Popup<N>, sight: PopupSight)
    ensures
        ({
            let report = webview(index, popup, sight);
            let snapshot = report.snapshot;
            let is_shown = sight.view is Some && sight.view->0.window is Some
                && sight.view->0.window->0.is_closed == 0;
            &&& report.popup == index
            &&& report.state == popup.state
            &&& report.opener == popup.opener
            &&& snapshot.browser_id == sight.browser_id
            &&& snapshot.window_label is None
            &&& snapshot.bounds is Some <==> sight.view is Some
            &&& sight.view is Some ==> snapshot.bounds->0 == sight.view->0.bounds
            &&& snapshot.window is Some <==> is_shown
            &&& snapshot.visible is Some <==> is_shown
            &&& snapshot.parent_matches is Some <==> is_shown
            &&& is_shown ==> snapshot.parent_matches->0
            &&& is_shown ==> report.record is Window && report.record->Window_0
                == snapshot.window->0
            &&& !is_shown ==> report.record is Nothing
        }),
{
}

/// A popup that is shown in an open window is visible exactly when its view is drawn and
/// the window is visible and not minimized, whatever was recorded and wherever it stands.
pub proof fn law_visibility_is_what_is_on_screen<N>(
    index: usize,
    popup: Popup<N>,
    sight: PopupSight,
    window: WindowSight,
)
    requires
        sight.view is Some,
        sight.view->0.window == Some(window),
        window.is_closed == 0,
    ensures
        webview(index, popup, sight).snapshot.visible == Some(true)
            <==> sight.view->0.is_drawn != 0 && window.is_visible != 0 && window.is_minimized == 0,
        webview(index, popup, sight).snapshot.visible == Some(false)
            <==> sight.view->0.is_drawn == 0 || window.is_visible == 0 || window.is_minimized != 0,
{
}

/// Two looks that agree on what is on screen report the same visibility, though they
/// differ in everything else.
pub proof fn law_visibility_depends_on_nothing_else<N>(
    index: usize,
    popup: Popup<N>,
    sight: PopupSight,
    other_index: usize,
    other_popup: Popup<N>,
    other: PopupSight,
)
    requires
        sight.view is Some,
        sight.view->0.window is Some,
        other.view is Some,
        other.view->0.window is Some,
        sight.view->0.is_drawn == other.view->0.is_drawn,
        sight.view->0.window->0.is_closed == other.view->0.window->0.is_closed,
        sight.view->0.window->0.is_visible == other.view->0.window->0.is_visible,
        sight.view->0.window->0.is_minimized == other.view->0.window->0.is_minimized,
    ensures
        webview(index, popup, sight).snapshot.visible == webview(
            other_index,
            other_popup,
            other,
        ).snapshot.visible,
{
}

/// The token of a window that shows a popup is the recorded one if it is the window that
/// was recorded, else the fresh one.
pub proof fn law_token_is_recorded_or_fresh<N>(
    index: usize,
    popup: Popup<N>,
    sight: PopupSight,
    window: WindowSight,
)
    requires
        sight.view is Some,
        sight.view->0.window == Some(window),
        window.is_closed == 0,
    ensures
        sight.recorded is Window && window.is_recorded != 0 ==> webview(
            index,
            popup,
            sight,
        ).snapshot.window == Some(sight.recorded->Window_0),
        sight.recorded !is Window || window.is_recorded == 0 ==> webview(
            index,
            popup,
            sight,
        ).snapshot.window == Some(sight.fresh),
{
}

/// Of a list of popups, each with its sight, exactly those are reported that are not being
/// closed, have a valid browser and a record that can be read: each once, in the order of
/// the list, and each as its own sight has it.
pub proof fn law_every_live_valid_popup_is_listed<N>(
    popups: Seq<Popup<N>>,
    sights: Seq<PopupSight>,
)
    requires
        sights.len() == popups.len(),
        popups.len() <= usize::MAX,
    ensures
        ({
            let listed = webviews(popups, sights, popups.len());
            &&& forall|k: int|
                #![trigger listed[k]]
                0 <= k < listed.len() ==> {
                    let i = listed[k].popup as int;
                    &&& 0 <= i < popups.len()
                    &&& !popups[i].closing
                    &&& sights[i].is_valid != 0
                    &&& sights[i].recorded !is Unreadable
                    &&& listed[k] == webview(listed[k].popup, popups[i], sights[i])
                }
            &&& forall|i: int|
                #![trigger popups[i]]
                0 <= i < popups.len() && !popups[i].closing && sights[i].is_valid != 0
                    && sights[i].recorded !is Unreadable ==> exists|k: int|
                    #![trigger listed[k]]
                    0 <= k < listed.len() && listed[k].popup == i
            &&& forall|j: int, k: int|
                #![trigger listed[j], listed[k]]
                0 <= j < k < listed.len() ==> listed[j].popup < listed[k].popup
        }),
{
    let listed = webviews(popups, sights, popups.len());
    law_reports_follow_the_list(popups, sights, popups.len());
    assert forall|i: int|
        #![trigger popups[i]]
        0 <= i < popups.len() && !popups[i].closing && sights[i].is_valid != 0
            && sights[i].recorded !is Unreadable implies exists|k: int|
        #![trigger listed[k]]
        0 <= k < listed.len() && listed[k].popup == i by {
        assert(is_reported(popups[i], sights[i]));
        let k = listed.index_of(webview(i as usize, popups[i], sights[i]));
        assert(listed[k].popup == i);
    }
}

} // verus!
