//! Popup lifetimes.
//!
//! CEF keeps its native windows and opener semantics. A family holds what the
//! runtime decides by: the root browser, the popups that descend from it, and
//! whether any of them is being torn down.

use crate::navigation::FrameNavigationState;
use crate::revocation::{revoke_descendants, Node};
use crate::shared::share;
use std::sync::Arc;
use vstd::prelude::*;

verus! {

/// How many popups a family holds at most.
pub const MAX_POPUPS: usize = 128;

/// A popup of a family. `native` holds what the runtime keeps of the browser
/// itself: its native handle, its protocol observer, its window.
pub struct Popup<N> {
    pub state: FrameNavigationState,
    pub opener: FrameNavigationState,
    pub closing: bool,
    pub native: Arc<N>,
}

impl<N> Popup<N> {
    /// What decides whether the popup is revoked with another browser.
    pub open spec fn node(self) -> Node {
        Node {
            state: self.state.instance,
            opener: self.opener.instance,
            closing: self.closing,
        }
    }

    /// Another handle to the same popup.
    fn handle(&self) -> (popup: Self)
        ensures
            popup == *self,
    {
        Popup {
            state: self.state,
            opener: self.opener,
            closing: self.closing,
            native: share(&self.native),
        }
    }
}

/// A family of popups: the browser at its root and what descends from it, and the
/// protocol handlers that its popups' observers share.
pub struct PopupFamily<N, H> {
    root: FrameNavigationState,
    closing: bool,
    poisoned: bool,
    popups: Vec<Popup<N>>,
    handlers: Arc<H>,
}

/// What a family holds.
#[verifier::ext_equal]
pub struct FamilyView<N, H> {
    pub root: FrameNavigationState,
    /// Whether the root was closed.
    pub closing: bool,
    /// Whether a holder of the family's lock panicked, so that its list of popups
    /// can no longer be relied on.
    pub poisoned: bool,
    pub popups: Seq<Popup<N>>,
    pub handlers: Arc<H>,
}

impl<N, H> View for PopupFamily<N, H> {
    type V = FamilyView<N, H>;

    closed spec fn view(&self) -> FamilyView<N, H> {
        FamilyView {
            root: self.root,
            closing: self.closing,
            poisoned: self.poisoned,
            popups: self.popups@,
            handlers: self.handlers,
        }
    }
}

/// The popups that do not belong to the browser of `state`.
pub open spec fn without<N>(popups: Seq<Popup<N>>, state: FrameNavigationState) -> Seq<Popup<N>> {
    popups.filter(|popup: Popup<N>| popup.state.instance != state.instance)
}

impl<N, H> FamilyView<N, H> {
    /// Whether `opener` is the root or a popup of the family that is not being
    /// closed.
    pub open spec fn has_live(self, opener: FrameNavigationState) -> bool {
        ||| self.root.instance == opener.instance
        ||| exists|i: int|
            #![trigger self.popups[i]]
            0 <= i < self.popups.len() && !self.popups[i].closing
                && self.popups[i].state.instance == opener.instance
    }

    /// Whether the browser `opener` may open a popup when CEF names
    /// `browser_id` as the opener.
    pub open spec fn admits(self, opener: FrameNavigationState, browser_id: i32) -> bool {
        &&& !self.closing
        &&& !self.poisoned
        &&& opener.browser_id == Some(browser_id)
        &&& self.popups.len() < MAX_POPUPS
        &&& self.has_live(opener)
    }

    /// The family with one more popup.
    pub open spec fn record(self, popup: Popup<N>) -> FamilyView<N, H> {
        FamilyView { popups: self.popups.push(popup), ..self }
    }

    /// The places, in the list without the browser of `state`, of the popups that
    /// its close revokes, in the order in which they are revoked.
    pub open spec fn revoked_by(self, state: FrameNavigationState) -> Seq<int> {
        if self.poisoned {
            Seq::empty()
        } else {
            crate::revocation::revocation_order(
                crate::revocation::nodes_of(without(self.popups, state)),
                state.instance,
                self.root.instance == state.instance,
            )
        }
    }

    /// The popups that the close of `state` revokes, as they were, in that order.
    pub open spec fn revoked_popups(self, state: FrameNavigationState) -> Seq<Popup<N>> {
        self.revoked_by(state).map_values(|i: int| without(self.popups, state)[i])
    }

    /// The family after the browser of `state` was closed.
    pub open spec fn close(self, state: FrameNavigationState) -> FamilyView<N, H> {
        FamilyView {
            closing: self.closing || self.root.instance == state.instance,
            popups: if self.poisoned {
                self.popups
            } else {
                crate::revocation::mark(without(self.popups, state), self.revoked_by(state))
            },
            ..self
        }
    }

    /// Whether `teardown` is what the close of `state` asks for: the closed browser's
    /// state and then those of the revoked popups, and the revoked popups' browsers.
    pub open spec fn is_teardown(self, state: FrameNavigationState, teardown: Teardown<N>) -> bool {
        let revoked = self.revoked_popups(state);
        &&& teardown.states@ =~= seq![state] + revoked.map_values(|popup: Popup<N>| popup.state)
        &&& teardown.browsers@ =~= revoked.map_values(|popup: Popup<N>| popup.native)
    }

    /// What holds of a family throughout: it is not larger than allowed, once the root
    /// was closed every popup left is being closed, and the opener of a live popup is
    /// the root or a live popup.
    pub open spec fn well_formed(self) -> bool {
        &&& self.popups.len() <= MAX_POPUPS
        &&& self.closing && !self.poisoned ==> forall|i: int|
            #![trigger self.popups[i]]
            0 <= i < self.popups.len() ==> self.popups[i].closing
        &&& !self.poisoned ==> forall|i: int|
            #![trigger self.popups[i]]
            0 <= i < self.popups.len() && !self.popups[i].closing ==> self.has_live(
                self.popups[i].opener,
            )
    }

    /// Whether each popup has a browser of its own, and none has the root's.
    pub open spec fn has_distinct_browsers(self) -> bool {
        &&& forall|i: int|
            #![trigger self.popups[i]]
            0 <= i < self.popups.len() ==> self.popups[i].state.instance != self.root.instance
        &&& forall|i: int, j: int|
            #![trigger self.popups[i], self.popups[j]]
            0 <= i < j < self.popups.len() ==> self.popups[i].state.instance
                != self.popups[j].state.instance
    }
}

/// What to tear down after a close: first every state in `states` is closed, in
/// order; then, with no lock held, CEF is asked to close each of `browsers`.
pub struct Teardown<N> {
    pub states: Vec<FrameNavigationState>,
    pub browsers: Vec<Arc<N>>,
}

/// What becomes of a new native popup.
pub enum Creation<H> {
    /// It has no host any more: nothing is left to do.
    Ignored,
    /// Its state is closed, and CEF is asked to close it.
    Refused,
    /// It may stay: a protocol observer is to be added to it, with these handlers.
    Admitted(Arc<H>),
    /// It belongs to the family.
    Recorded,
}

impl<N, H> PopupFamily<N, H> {
    /// A family with no popups yet.
    pub fn new(root: FrameNavigationState) -> (family: Self) where H: Default
        ensures
            family@.root == root,
            !family@.closing,
            !family@.poisoned,
            family@.popups.len() == 0,
            call_ensures(H::default, (), *family@.handlers),
            family@.well_formed(),
            family@.has_distinct_browsers(),
    {
        PopupFamily {
            root,
            closing: false,
            poisoned: false,
            popups: Vec::new(),
            handlers: Arc::default(),
        }
    }

    /// The protocol handlers that the observers of the family's popups share.
    pub fn handlers(&self) -> (handlers: Arc<H>)
        ensures
            handlers == self@.handlers,
    {
        share(&self.handlers)
    }

    /// Notes that a holder of the family's lock panicked. From then on the list of
    /// popups is neither read nor changed.
    pub fn poison(&mut self)
        ensures
            final(self)@ == (FamilyView { poisoned: true, ..old(self)@ }),
    {
        self.poisoned = true;
    }

    /// Whether the live browser `opener` may open a popup when CEF names
    /// `browser_id` as the opener: only the root or a popup of the family may, while
    /// neither it nor the family is being closed and the family is not full.
    pub fn admits(&self, opener: &FrameNavigationState, browser_id: i32) -> (r: bool)
        ensures
            r == self@.admits(*opener, browser_id),
    {
        if self.closing || !opener.has_browser_id(browser_id) || self.poisoned {
            return false;
        }
        self.popups.len() < MAX_POPUPS && (self.root.is_same_browser(opener)
            || self.has_popup(opener, false))
    }

    /// Whether a popup of the browser of `state` is being closed.
    pub fn is_closing(&self, state: &FrameNavigationState) -> (r: bool)
        ensures
            r == exists|i: int|
                #![trigger self@.popups[i]]
                0 <= i < self@.popups.len() && self@.popups[i].closing
                    && self@.popups[i].state.instance == state.instance,
    {
        self.has_popup(state, true)
    }

    fn has_popup(&self, state: &FrameNavigationState, closing: bool) -> (r: bool)
        ensures
            r == exists|i: int|
                #![trigger self@.popups[i]]
                0 <= i < self@.popups.len() && self@.popups[i].closing == closing
                    && self@.popups[i].state.instance == state.instance,
    {
        let mut i: usize = 0;
        while i < self.popups.len()
            invariant
                i <= self.popups@.len(),
                forall|j: int|
                    #![trigger self.popups@[j]]
                    0 <= j < i ==> self.popups@[j].closing != closing
                        || self.popups@[j].state.instance != state.instance,
            decreases self.popups@.len() - i,
        {
            if self.popups[i].closing == closing && self.popups[i].state.is_same_browser(state) {
                assert(self@.popups[i as int].closing == closing);
                return true;
            }
            i += 1;
        }
        false
    }

    /// Decides on a popup that CEF created. `host_opener` is the opener's identifier
    /// as the popup's host gives it, `None` where the popup has no host. The observer
    /// of an admitted popup gets the family's own handlers, so that those added later
    /// reach it too.
    pub fn admit_created(
        &self,
        opener: &FrameNavigationState,
        host_opener: Option<i32>,
    ) -> (creation: Creation<H>)
        ensures
            creation == match host_opener {
                None => Creation::Ignored,
                Some(browser_id) => if self@.admits(*opener, browser_id) {
                    Creation::Admitted(self@.handlers)
                } else {
                    Creation::Refused
                },
            },
    {
        match host_opener {
            None => Creation::Ignored,
            Some(browser_id) => if self.admits(opener, browser_id) {
                Creation::Admitted(share(&self.handlers))
            } else {
                Creation::Refused
            },
        }
    }

    /// Takes an admitted popup into the family. `native` holds its browser with the
    /// protocol observer, `None` where no observer could be added.
    pub fn created(
        &mut self,
        opener: &FrameNavigationState,
        state: &FrameNavigationState,
        native: Option<Arc<N>>,
    ) -> (creation: Creation<H>)
        ensures
            native is None || old(self)@.poisoned ==> {
                &&& creation is Refused
                &&& final(self)@ == old(self)@
            },
            native is Some && !old(self)@.poisoned ==> {
                &&& creation is Recorded
                &&& final(self)@ == old(self)@.record(
                    Popup { state: *state, opener: *opener, closing: false, native: native->0 },
                )
            },
    {
        match native {
            Some(native) => if self.poisoned {
                Creation::Refused
            } else {
                self.popups.push(Popup { state: *state, opener: *opener, closing: false, native });
                Creation::Recorded
            },
            None => Creation::Refused,
        }
    }

    /// Removes the popups of the browser of `state` from the list.
    fn remove_browser(&mut self, state: &FrameNavigationState)
        ensures
            final(self)@ == (FamilyView { popups: without(old(self)@.popups, *state), ..old(self)@ }),
    {
        let ghost all = self.popups@;
        let ghost keep = |popup: Popup<N>| popup.state.instance != state.instance;
        let ghost mut seen: int = 0;
        let mut i: usize = 0;
        assert(all.take(0).filter(keep) =~= Seq::<Popup<N>>::empty()) by {
            reveal(Seq::filter);
        }
        while i < self.popups.len()
            invariant
                all == old(self)@.popups,
                keep == (|popup: Popup<N>| popup.state.instance != state.instance),
                0 <= seen <= all.len(),
                i == all.take(seen).filter(keep).len(),
                self.popups@ =~= all.take(seen).filter(keep) + all.skip(seen),
                self.root == old(self).root,
                self.closing == old(self).closing,
                self.poisoned == old(self).poisoned,
                self.handlers == old(self).handlers,
            decreases all.len() - seen,
        {
            assert(self.popups@[i as int] == all[seen]);
            assert(all.take(seen + 1).filter(keep) == if keep(all[seen]) {
                all.take(seen).filter(keep).push(all[seen])
            } else {
                all.take(seen).filter(keep)
            }) by {
                reveal(Seq::filter);
                assert(all.take(seen + 1).drop_last() =~= all.take(seen));
            }
            if self.popups[i].state.is_same_browser(state) {
                self.popups.remove(i);
            } else {
                i += 1;
            }
            proof {
                seen = seen + 1;
            }
        }
        assert(all.take(seen) =~= all);
    }

    /// Handles a close that CEF reports for `browser_id`; one for another identifier
    /// than that of `state` is ignored.
    ///
    /// The browser's own entry leaves the family, and its descendants are revoked
    /// before any of them is handed out for native close. The native close
    /// callbacks remove their entries later.
    pub fn closed(&mut self, state: &FrameNavigationState, browser_id: i32) -> (teardown: Teardown<N>)
        ensures
            state.browser_id != Some(browser_id) ==> {
                &&& final(self)@ == old(self)@
                &&& teardown.states@.len() == 0
                &&& teardown.browsers@.len() == 0
            },
            state.browser_id == Some(browser_id) ==> {
                &&& final(self)@ == old(self)@.close(*state)
                &&& old(self)@.is_teardown(*state, teardown)
            },
    {
        let mut states: Vec<FrameNavigationState> = Vec::new();
        let mut browsers: Vec<Arc<N>> = Vec::new();
        if !state.has_browser_id(browser_id) {
            return Teardown { states, browsers };
        }
        states.push(*state);
        let root_closed = self.root.is_same_browser(state);
        if root_closed {
            self.closing = true;
        }
        if self.poisoned {
            let teardown = Teardown { states, browsers };
            assert(old(self)@.is_teardown(*state, teardown));
            return teardown;
        }
        self.remove_browser(state);
        let ghost left = self.popups@;
        let indices = revoke_descendants(state, root_closed, &mut self.popups);
        let ghost order = crate::revocation::places(indices@);
        proof {
            crate::revocation::law_order_lists_the_revoked(
                crate::revocation::nodes_of(left),
                state.instance,
                root_closed,
            );
            assert forall|j: int| #![trigger order[j]] 0 <= j < order.len() implies 0 <= order[j]
                < left.len() by {
                assert(order.contains(order[j]));
            }
        }
        let mut k: usize = 0;
        while k < indices.len()
            invariant
                k <= indices@.len(),
                order == crate::revocation::places(indices@),
                forall|j: int|
                    #![trigger order[j]]
                    0 <= j < order.len() ==> 0 <= order[j] < left.len(),
                self.popups@ == crate::revocation::mark(left, order),
                states@ =~= seq![*state] + order.take(k as int).map_values(|i: int| left[i].state),
                browsers@ =~= order.take(k as int).map_values(|i: int| left[i].native),
            decreases indices@.len() - k,
        {
            assert(order[k as int] == indices@[k as int]);
            let popup = &self.popups[indices[k]];
            states.push(popup.state);
            browsers.push(share(&popup.native));
            k += 1;
        }
        assert(order.take(k as int) =~= order);
        let teardown = Teardown { states, browsers };
        assert(old(self)@.is_teardown(*state, teardown));
        teardown
    }

    /// The popups to look at: all of them in their order, or none once the root was
    /// closed or the list cannot be relied on.
    pub fn observe(&self) -> (popups: Vec<Popup<N>>)
        ensures
            popups@ == if self@.closing || self@.poisoned {
                Seq::<Popup<N>>::empty()
            } else {
                self@.popups
            },
    {
        let mut popups: Vec<Popup<N>> = Vec::new();
        if self.closing || self.poisoned {
            return popups;
        }
        let mut i: usize = 0;
        while i < self.popups.len()
            invariant
                i <= self.popups@.len(),
                popups@ =~= self.popups@.take(i as int),
            decreases self.popups@.len() - i,
        {
            popups.push(self.popups[i].handle());
            i += 1;
        }
        popups
    }
}

/// The list without a browser holds exactly the other popups.
pub(crate) proof fn lemma_without<N>(popups: Seq<Popup<N>>, state: FrameNavigationState)
    ensures
        without(popups, state).len() <= popups.len(),
        forall|i: int|
            #![trigger without(popups, state)[i]]
            0 <= i < without(popups, state).len() ==> {
                &&& without(popups, state)[i].state.instance != state.instance
                &&& popups.contains(without(popups, state)[i])
            },
        (forall|i: int|
            #![trigger popups[i]]
            0 <= i < popups.len() ==> popups[i].state.instance != state.instance) ==> without(
            popups,
            state,
        ) == popups,
    decreases popups.len(),
{
    let keep = |popup: Popup<N>| popup.state.instance != state.instance;
    reveal(Seq::filter);
    if popups.len() > 0 {
        let shorter = popups.drop_last();
        lemma_without(shorter, state);
        let left = without(popups, state);
        assert forall|i: int| #![trigger left[i]] 0 <= i < left.len() implies left[i].state.instance
            != state.instance && popups.contains(left[i]) by {
            if keep(popups.last()) && i == left.len() - 1 {
                assert(left[i] == popups[popups.len() - 1]);
            } else {
                assert(left[i] == without(shorter, state)[i]);
                assert(shorter.contains(left[i]));
                let j = shorter.index_of(left[i]);
                assert(popups[j] == left[i]);
            }
        }
        if forall|i: int|
            #![trigger popups[i]]
            0 <= i < popups.len() ==> popups[i].state.instance != state.instance {
            assert(forall|i: int|
                #![trigger shorter[i]]
                0 <= i < shorter.len() ==> shorter[i] == popups[i]);
            assert(keep(popups.last()));
            assert(left =~= popups);
        }
    } else {
        assert(without(popups, state) =~= popups);
    }
}

/// Once the root was closed the family stays closing, whatever is closed or
/// recorded later, and admits no popup.
pub proof fn law_closing_is_final<N, H>(
    family: FamilyView<N, H>,
    state: FrameNavigationState,
    popup: Popup<N>,
    opener: FrameNavigationState,
    browser_id: i32,
)
    requires
        family.closing,
    ensures
        !family.admits(opener, browser_id),
        family.close(state).closing,
        family.record(popup).closing,
{
}

/// A browser whose close was handled opens no further popup, under whatever
/// identifier; where it was the root, no browser does.
pub proof fn law_closed_browser_opens_nothing<N, H>(
    family: FamilyView<N, H>,
    state: FrameNavigationState,
    opener: FrameNavigationState,
    browser_id: i32,
)
    requires
        opener.instance == state.instance || family.root.instance == state.instance,
    ensures
        !family.close(state).admits(opener, browser_id),
{
    let after = family.close(state);
    if !family.poisoned && family.root.instance != state.instance {
        lemma_without(family.popups, state);
        assert forall|i: int| #![trigger after.popups[i]] 0 <= i < after.popups.len() implies
            after.popups[i].state.instance != state.instance by {
            assert(after.popups[i].state == without(family.popups, state)[i].state);
        }
    }
}

/// After a close no entry of the closed browser is left, no live popup descends
/// from it (none at all is live where it was the root), and a popup that was not
/// revoked is left as it was.
pub proof fn law_close_revokes_exactly_the_descendants<N, H>(
    family: FamilyView<N, H>,
    state: FrameNavigationState,
    index: int,
)
    requires
        !family.poisoned,
        0 <= index < family.close(state).popups.len(),
    ensures
        ({
            let left = without(family.popups, state);
            let whole = family.root.instance == state.instance;
            let after = family.close(state).popups;
            &&& after.len() == left.len()
            &&& after[index].state.instance != state.instance
            &&& !crate::revocation::is_revoked(
                crate::revocation::nodes_of(after),
                state.instance,
                whole,
                index,
            )
            &&& after[index] == if crate::revocation::is_revoked(
                crate::revocation::nodes_of(left),
                state.instance,
                whole,
                index,
            ) {
                Popup { closing: true, ..left[index] }
            } else {
                left[index]
            }
        }),
{
    let left = without(family.popups, state);
    let whole = family.root.instance == state.instance;
    let after = family.close(state).popups;
    let order = family.revoked_by(state);
    lemma_without(family.popups, state);
    assert(left[index].state.instance != state.instance);
    crate::revocation::law_order_lists_the_revoked(
        crate::revocation::nodes_of(left),
        state.instance,
        whole,
    );
    crate::revocation::law_order_lists_the_revoked(
        crate::revocation::nodes_of(after),
        state.instance,
        whole,
    );
    crate::revocation::law_revoking_again_finds_nothing(left, state.instance, whole);
    let again = crate::revocation::revocation_order(
        crate::revocation::nodes_of(after),
        state.instance,
        whole,
    );
    assert(!again.contains(index));
    assert(order.contains(index) <==> crate::revocation::is_revoked(
        crate::revocation::nodes_of(left),
        state.instance,
        whole,
        index,
    ));
}

/// Whatever is handed out for native close was revoked before: its entry is marked as
/// closing in the family, and its state is among those to close first.
pub proof fn law_native_close_comes_after_revocation<N, H>(
    family: FamilyView<N, H>,
    state: FrameNavigationState,
    teardown: Teardown<N>,
    k: int,
)
    requires
        family.is_teardown(state, teardown),
        0 <= k < teardown.browsers@.len(),
    ensures
        ({
            let after = family.close(state).popups;
            let i = family.revoked_by(state)[k];
            &&& 0 <= i < after.len()
            &&& after[i].closing
            &&& after[i].native == teardown.browsers@[k]
            &&& after[i].state == teardown.states@[k + 1]
        }),
{
    let order = family.revoked_by(state);
    let left = without(family.popups, state);
    if !family.poisoned {
        crate::revocation::law_order_lists_the_revoked(
            crate::revocation::nodes_of(left),
            state.instance,
            family.root.instance == state.instance,
        );
        assert(order.contains(order[k]));
    }
}

/// Handling the same close again changes nothing and tears nothing down.
pub proof fn law_closing_again_changes_nothing<N, H>(
    family: FamilyView<N, H>,
    state: FrameNavigationState,
)
    ensures
        family.close(state).close(state) == family.close(state),
        family.close(state).revoked_by(state).len() == 0,
{
    let once = family.close(state);
    let left = without(family.popups, state);
    if !family.poisoned {
        lemma_without(family.popups, state);
        assert forall|i: int| #![trigger once.popups[i]] 0 <= i < once.popups.len() implies
            once.popups[i].state.instance != state.instance by {
            assert(once.popups[i].state == left[i].state);
        }
        lemma_without(once.popups, state);
        crate::revocation::law_revoking_again_finds_nothing(
            left,
            state.instance,
            family.root.instance == state.instance,
        );
        let none = once.revoked_by(state);
        assert forall|i: int| !none.contains(i) by {}
        assert(crate::revocation::mark(once.popups, none) =~= once.popups);
    }
    assert(once.close(state) =~= once);
}

/// A recorded popup may itself open popups, under the identifier that its browser has,
/// while there is room.
pub proof fn law_recorded_popup_may_open<N, H>(
    family: FamilyView<N, H>,
    popup: Popup<N>,
    opener: FrameNavigationState,
    browser_id: i32,
)
    requires
        !family.closing,
        !family.poisoned,
        !popup.closing,
        opener.instance == popup.state.instance,
    ensures
        family.record(popup).admits(opener, browser_id) <==> opener.browser_id == Some(browser_id)
            && family.record(popup).popups.len() < MAX_POPUPS,
{
    let after = family.record(popup);
    assert(after.popups[family.popups.len() as int] == popup);
}

/// The handlers of a family are the same throughout.
pub proof fn law_handlers_stay<N, H>(
    family: FamilyView<N, H>,
    state: FrameNavigationState,
    popup: Popup<N>,
)
    ensures
        family.close(state).handlers == family.handlers,
        family.record(popup).handlers == family.handlers,
{
}

/// A family stays well-formed: under every close, when a popup is recorded whose opener
/// was admitted, and when its lock is poisoned.
pub proof fn law_family_stays_well_formed<N, H>(
    family: FamilyView<N, H>,
    state: FrameNavigationState,
    popup: Popup<N>,
    browser_id: i32,
)
    requires
        family.well_formed(),
    ensures
        family.close(state).well_formed(),
        family.admits(popup.opener, browser_id) ==> family.record(popup).well_formed(),
        (FamilyView { poisoned: true, ..family }).well_formed(),
{
    if !family.poisoned {
        lemma_close_keeps_well_formed(family, state);
    }
    if family.admits(popup.opener, browser_id) {
        let after = family.record(popup);
        assert forall|i: int|
            #![trigger after.popups[i]]
            0 <= i < after.popups.len() && !after.popups[i].closing implies after.has_live(
            after.popups[i].opener,
        ) by {
            let opener = after.popups[i].opener;
            if i < family.popups.len() {
                assert(after.popups[i] == family.popups[i]);
            }
            assert(family.has_live(opener));
            if family.root.instance != opener.instance {
                let j = choose|j: int|
                    #![trigger family.popups[j]]
                    0 <= j < family.popups.len() && !family.popups[j].closing
                        && family.popups[j].state.instance == opener.instance;
                assert(after.popups[j] == family.popups[j]);
            }
        }
    }
}

proof fn lemma_close_keeps_well_formed<N, H>(family: FamilyView<N, H>, state: FrameNavigationState)
    requires
        family.well_formed(),
        !family.poisoned,
    ensures
        family.close(state).well_formed(),
{
    let after = family.close(state);
    let left = without(family.popups, state);
    let nodes = crate::revocation::nodes_of(left);
    let whole = family.root.instance == state.instance;
    lemma_without(family.popups, state);
    assert forall|i: int| #![trigger after.popups[i]] 0 <= i < left.len() implies {
        &&& after.closing ==> after.popups[i].closing
        &&& !after.popups[i].closing ==> after.has_live(after.popups[i].opener)
    } by {
        law_close_revokes_exactly_the_descendants(family, state, i);
        assert(family.popups.contains(left[i]));
        let j = family.popups.index_of(left[i]);
        assert(family.popups[j] == left[i]);
        assert(nodes[i] == left[i].node());
        let opener = left[i].opener;
        if !after.popups[i].closing && family.root.instance != opener.instance {
            let q = choose|q: int|
                #![trigger family.popups[q]]
                0 <= q < family.popups.len() && !family.popups[q].closing
                    && family.popups[q].state.instance == opener.instance;
            crate::close_order::lemma_descends_by_opener(nodes, state.instance, i);
            assert(opener.instance != state.instance);
            assert(family.popups.contains(family.popups[q]));
            crate::close_order::lemma_without_holds(family.popups, state, family.popups[q]);
            let k = left.index_of(family.popups[q]);
            assert(nodes[k] == left[k].node());
            law_close_revokes_exactly_the_descendants(family, state, k);
            assert(after.popups[k] == left[k]);
        }
    }
}

/// Each popup keeps a browser of its own: under every close, and when a popup with a
/// new browser is recorded.
pub proof fn law_browsers_stay_distinct<N, H>(
    family: FamilyView<N, H>,
    state: FrameNavigationState,
    popup: Popup<N>,
)
    requires
        family.has_distinct_browsers(),
    ensures
        family.close(state).has_distinct_browsers(),
        popup.state.instance != family.root.instance && (forall|i: int|
            #![trigger family.popups[i]]
            0 <= i < family.popups.len() ==> family.popups[i].state.instance
                != popup.state.instance) ==> family.record(popup).has_distinct_browsers(),
{
    let after = family.close(state);
    if !family.poisoned {
        let left = without(family.popups, state);
        lemma_without(family.popups, state);
        lemma_without_stays_distinct(family.popups, state);
        assert forall|i: int| #![trigger after.popups[i]] 0 <= i < after.popups.len() implies
            after.popups[i].state == left[i].state && after.popups[i].state.instance
            != family.root.instance by {
            assert(family.popups.contains(left[i]));
            let j = family.popups.index_of(left[i]);
            assert(family.popups[j] == left[i]);
        }
    }
}

proof fn lemma_without_stays_distinct<N>(popups: Seq<Popup<N>>, state: FrameNavigationState)
    requires
        forall|i: int, j: int|
            #![trigger popups[i], popups[j]]
            0 <= i < j < popups.len() ==> popups[i].state.instance != popups[j].state.instance,
    ensures
        forall|i: int, j: int|
            #![trigger without(popups, state)[i], without(popups, state)[j]]
            0 <= i < j < without(popups, state).len() ==> without(popups, state)[i].state.instance
                != without(popups, state)[j].state.instance,
    decreases popups.len(),
{
    reveal(Seq::filter);
    if popups.len() > 0 {
        let shorter = popups.drop_last();
        assert forall|i: int, j: int|
            #![trigger shorter[i], shorter[j]]
            0 <= i < j < shorter.len() implies shorter[i].state.instance
            != shorter[j].state.instance by {
            assert(popups[i] == shorter[i] && popups[j] == shorter[j]);
        }
        lemma_without_stays_distinct(shorter, state);
        lemma_without(shorter, state);
        let before = without(shorter, state);
        let left = without(popups, state);
        assert forall|i: int, j: int|
            #![trigger left[i], left[j]]
            0 <= i < j < left.len() implies left[i].state.instance != left[j].state.instance by {
            assert(left[i] == before[i]);
            if j < before.len() {
                assert(left[j] == before[j]);
            } else {
                assert(shorter.contains(before[i]));
                let k = shorter.index_of(before[i]);
                assert(popups[k] == left[i]);
                assert(popups[popups.len() - 1] == left[j]);
            }
        }
    }
}

/// The root may open popups, under the identifier that its browser has, while the family
/// lasts and there is room, whatever popups there are; so may every live popup of the list.
pub proof fn law_live_browsers_may_open<N, H>(
    family: FamilyView<N, H>,
    opener: FrameNavigationState,
    browser_id: i32,
)
    requires
        !family.closing,
        !family.poisoned,
        family.popups.len() < 128,
        opener.browser_id == Some(browser_id),
    ensures
        opener.instance == family.root.instance ==> family.admits(opener, browser_id),
        forall|i: int|
            #![trigger family.popups[i]]
            0 <= i < family.popups.len() && !family.popups[i].closing
                && family.popups[i].state.instance == opener.instance ==> family.admits(
                opener,
                browser_id,
            ),
{
}

/// Nobody else may: not under another identifier than the browser's own, not in a family
/// that is closing, poisoned or full, and not a browser that is neither the root nor a
/// live popup of the family.
pub proof fn law_no_other_browser_may_open<N, H>(
    family: FamilyView<N, H>,
    opener: FrameNavigationState,
    browser_id: i32,
)
    requires
        family.admits(opener, browser_id),
    ensures
        !family.closing,
        !family.poisoned,
        family.popups.len() < 128,
        opener.browser_id == Some(browser_id),
        opener.instance == family.root.instance || exists|i: int|
            #![trigger family.popups[i]]
            0 <= i < family.popups.len() && !family.popups[i].closing
                && family.popups[i].state.instance == opener.instance,
{
}

/// Recording a popup adds it at the end of the list and changes nothing else.
pub proof fn law_recording_only_appends<N, H>(family: FamilyView<N, H>, popup: Popup<N>)
    ensures
        family.record(popup).root == family.root,
        family.record(popup).closing == family.closing,
        family.record(popup).poisoned == family.poisoned,
        family.record(popup).handlers == family.handlers,
        family.record(popup).popups.len() == family.popups.len() + 1,
        family.record(popup).popups.last() == popup,
        forall|i: int|
            #![trigger family.record(popup).popups[i]]
            0 <= i < family.popups.len() ==> family.record(popup).popups[i] == family.popups[i],
{
}

/// What a close leaves of a family: the entries of other browsers, in their order, with
/// nothing changed but that some are now closing. None of them is live where the root was
/// closed, none that was opened by the closed browser, and none that was opened by a popup
/// which this close revoked.
pub proof fn law_close_leaves_no_live_descendant<N, H>(
    family: FamilyView<N, H>,
    state: FrameNavigationState,
)
    ensures
        ({
            let after = family.close(state);
            let left = family.popups.filter(
                |popup: Popup<N>| popup.state.instance != state.instance,
            );
            let root_closed = family.root.instance == state.instance;
            &&& after.root == family.root
            &&& after.poisoned == family.poisoned
            &&& after.handlers == family.handlers
            &&& after.closing == (family.closing || root_closed)
            &&& family.poisoned ==> after.popups == family.popups
            &&& !family.poisoned ==> {
                &&& after.popups.len() == left.len()
                &&& forall|i: int|
                    #![trigger after.popups[i]]
                    0 <= i < left.len() ==> {
                        &&& after.popups[i].state == left[i].state
                        &&& after.popups[i].opener == left[i].opener
                        &&& after.popups[i].native == left[i].native
                        &&& left[i].closing ==> after.popups[i].closing
                        &&& root_closed ==> after.popups[i].closing
                        &&& left[i].opener.instance == state.instance
                            ==> after.popups[i].closing
                    }
                &&& forall|i: int, j: int|
                    #![trigger after.popups[i], after.popups[j]]
                    0 <= i < left.len() && 0 <= j < left.len() && !left[j].closing
                        && after.popups[j].closing && left[i].opener.instance
                        == left[j].state.instance ==> after.popups[i].closing
            }
        }),
{
    let keep = |popup: Popup<N>| popup.state.instance != state.instance;
    let left = family.popups.filter(keep);
    assert(without(family.popups, state) == left);
    if !family.poisoned {
        crate::revocation::law_every_descendant_is_revoked(
            left,
            state.instance,
            family.root.instance == state.instance,
            family.revoked_by(state),
        );
    }
}

/// A close spares what does not descend from the closed browser: whatever set of browsers
/// holds the closed one, and with the opener of a live popup that popup's browser, holds
/// the opener of every popup that the close of a browser other than the root makes
/// closing.
pub proof fn law_close_spares_the_others<N, H>(
    family: FamilyView<N, H>,
    state: FrameNavigationState,
    below: spec_fn(u64) -> bool,
    index: int,
)
    requires
        !family.poisoned,
        family.root.instance != state.instance,
        below(state.instance),
        forall|i: int|
            #![trigger family.popups[i]]
            0 <= i < family.popups.len() && !family.popups[i].closing && below(
                family.popups[i].opener.instance,
            ) ==> below(family.popups[i].state.instance),
        0 <= index < family.close(state).popups.len(),
    ensures
        ({
            let left = family.popups.filter(
                |popup: Popup<N>| popup.state.instance != state.instance,
            );
            !left[index].closing && family.close(state).popups[index].closing ==> below(
                left[index].opener.instance,
            )
        }),
{
    let keep = |popup: Popup<N>| popup.state.instance != state.instance;
    let left = family.popups.filter(keep);
    let order = family.revoked_by(state);
    assert(without(family.popups, state) == left);
    crate::revocation::law_every_descendant_is_revoked(left, state.instance, false, order);
    if !left[index].closing && family.close(state).popups[index].closing {
        assert(order.contains(index));
        let k = order.index_of(index);
        lemma_without(family.popups, state);
        assert forall|i: int|
            #![trigger left[i]]
            0 <= i < left.len() && !left[i].closing && below(left[i].opener.instance) implies below(
            left[i].state.instance,
        ) by {
            assert(family.popups.contains(left[i]));
            let j = family.popups.index_of(left[i]);
            assert(family.popups[j] == left[i]);
        }
        crate::revocation::law_only_descendants_are_revoked(
            left,
            state.instance,
            order,
            below,
            k,
        );
    }
}

/// Everything that a close makes closing is torn down, and nothing else: there is an
/// enumeration, without repetition, of exactly the popups that go from live to closing,
/// such that their browsers are those handed out for native close and their states, after
/// the closed browser's own, those to be closed. It goes by the list with the root closed,
/// else by the repeated search of the list. A poisoned family tears down no popup.
pub proof fn law_what_is_revoked_is_torn_down<N, H>(
    family: FamilyView<N, H>,
    state: FrameNavigationState,
    teardown: Teardown<N>,
)
    requires
        family.is_teardown(state, teardown),
    ensures
        teardown.states@.len() == teardown.browsers@.len() + 1,
        teardown.states@[0] == state,
        family.poisoned ==> teardown.browsers@.len() == 0,
        !family.poisoned ==> ({
            let after = family.close(state).popups;
            let left = family.popups.filter(
                |popup: Popup<N>| popup.state.instance != state.instance,
            );
            exists|order: Seq<int>|
                {
                    &&& #[trigger] order.len() == teardown.browsers@.len()
                    &&& order.no_duplicates()
                    &&& forall|k: int|
                        #![trigger order[k]]
                        0 <= k < order.len() ==> {
                            &&& 0 <= order[k] < left.len()
                            &&& !left[order[k]].closing
                            &&& after[order[k]].closing
                            &&& teardown.browsers@[k] == left[order[k]].native
                            &&& teardown.states@[k + 1] == left[order[k]].state
                        }
                    &&& forall|i: int|
                        #![trigger left[i]]
                        0 <= i < left.len() && !left[i].closing && after[i].closing
                            ==> order.contains(i)
                    &&& if family.root.instance == state.instance {
                        forall|j: int, k: int|
                            #![trigger order[j], order[k]]
                            0 <= j < k < order.len() ==> order[j] < order[k]
                    } else {
                        crate::revocation::is_search_order(left, state.instance, order)
                    }
                }
        }),
        !family.poisoned ==> forall|i: int|
            #![trigger family.close(state).popups[i]]
            0 <= i < family.close(state).popups.len() && family.close(state).popups[i].closing
                && !family.popups.filter(
                |popup: Popup<N>| popup.state.instance != state.instance,
            )[i].closing ==> teardown.browsers@.contains(family.close(state).popups[i].native)
                && teardown.states@.contains(family.close(state).popups[i].state),
{
    let keep = |popup: Popup<N>| popup.state.instance != state.instance;
    let left = family.popups.filter(keep);
    let order = family.revoked_by(state);
    let after = family.close(state).popups;
    let root_closed = family.root.instance == state.instance;
    assert(without(family.popups, state) == left);
    assert(family.revoked_popups(state).len() == order.len());
    if !family.poisoned {
        crate::revocation::law_every_descendant_is_revoked(
            left,
            state.instance,
            root_closed,
            order,
        );
        crate::revocation::law_revocation_goes_by_the_list(
            left,
            state.instance,
            root_closed,
            order,
        );
        assert forall|k: int| #![trigger order[k]] 0 <= k < order.len() implies {
            &&& 0 <= order[k] < left.len()
            &&& !left[order[k]].closing
            &&& after[order[k]].closing
            &&& teardown.browsers@[k] == left[order[k]].native
            &&& teardown.states@[k + 1] == left[order[k]].state
        } by {
            assert(family.revoked_popups(state)[k] == left[order[k]]);
        }
        assert forall|i: int|
            #![trigger left[i]]
            0 <= i < left.len() && !left[i].closing && after[i].closing implies order.contains(
            i,
        ) by {}
        assert(order.len() == teardown.browsers@.len());
        assert forall|i: int|
            #![trigger after[i]]
            0 <= i < after.len() && after[i].closing && !left[i].closing implies {
            &&& teardown.browsers@.contains(after[i].native)
            &&& teardown.states@.contains(after[i].state)
        } by {
            let k = order.index_of(i);
            assert(order[k] == i);
            assert(teardown.browsers@[k] == after[i].native);
            assert(teardown.states@[k + 1] == after[i].state);
        }
    }
}

/// A live popup that is marked is one live popup less.
proof fn lemma_one_marked<N>(popups: Seq<Popup<N>>, index: int)
    requires
        0 <= index < popups.len(),
        !popups[index].closing,
    ensures
        popups.update(index, Popup { closing: true, ..popups[index] }).filter(
            |popup: Popup<N>| !popup.closing,
        ).len() + 1 == popups.filter(|popup: Popup<N>| !popup.closing).len(),
    decreases popups.len(),
{
    reveal(Seq::filter);
    let marked = Popup { closing: true, ..popups[index] };
    let next = popups.update(index, marked);
    if index == popups.len() - 1 {
        assert(next.drop_last() =~= popups.drop_last());
    } else {
        lemma_one_marked(popups.drop_last(), index);
        assert(next.drop_last() =~= popups.drop_last().update(index, marked));
    }
}

proof fn lemma_marked_are_not_live<N>(popups: Seq<Popup<N>>, order: Seq<int>)
    requires
        order.no_duplicates(),
        forall|k: int|
            #![trigger order[k]]
            0 <= k < order.len() ==> 0 <= order[k] < popups.len() && !popups[order[k]].closing,
    ensures
        crate::revocation::mark(popups, order).filter(|popup: Popup<N>| !popup.closing).len()
            + order.len() == popups.filter(|popup: Popup<N>| !popup.closing).len(),
    decreases order.len(),
{
    if order.len() == 0 {
        assert(crate::revocation::mark(popups, order) =~= popups);
    } else {
        let fewer = order.drop_last();
        let index = order[order.len() - 1];
        assert forall|k: int| #![trigger fewer[k]] 0 <= k < fewer.len() implies 0 <= fewer[k]
            < popups.len() && !popups[fewer[k]].closing && fewer[k] != index by {
            assert(order[k] == fewer[k]);
        }
        lemma_marked_are_not_live(popups, fewer);
        crate::revocation::lemma_mark(popups, fewer, index);
        assert(fewer.push(index) =~= order);
        assert(!fewer.contains(index));
        lemma_one_marked(crate::revocation::mark(popups, fewer), index);
    }
}

/// No popup gets lost in a close: of the live popups of other browsers, as many as are not
/// left live are handed out for native close.
pub proof fn law_live_popups_are_left_or_handed_out<N, H>(
    family: FamilyView<N, H>,
    state: FrameNavigationState,
    teardown: Teardown<N>,
)
    requires
        family.is_teardown(state, teardown),
        !family.poisoned,
    ensures
        family.popups.filter(|popup: Popup<N>| popup.state.instance != state.instance).filter(
            |popup: Popup<N>| !popup.closing,
        ).len() == family.close(state).popups.filter(|popup: Popup<N>| !popup.closing).len()
            + teardown.browsers@.len(),
{
    let left = without(family.popups, state);
    let order = family.revoked_by(state);
    crate::revocation::law_every_descendant_is_revoked(
        left,
        state.instance,
        family.root.instance == state.instance,
        order,
    );
    lemma_marked_are_not_live(left, order);
    assert(teardown.browsers@.len() == order.len());
}

} // verus!
