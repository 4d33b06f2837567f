//! What holds over any sequence of closes.

use crate::navigation::FrameNavigationState;
use crate::popup::{FamilyView, Popup};
use vstd::prelude::*;

verus! {

/// The family after `closes`, one after the other.
pub open spec fn close_all<N, H>(
    family: FamilyView<N, H>,
    closes: Seq<FrameNavigationState>,
) -> FamilyView<N, H>
    decreases closes.len(),
{
    if closes.len() == 0 {
        family
    } else {
        close_all(family, closes.drop_last()).close(closes.last())
    }
}

/// The popups that `closes` hand out for native close, in their order.
pub open spec fn handed_out<N, H>(
    family: FamilyView<N, H>,
    closes: Seq<FrameNavigationState>,
) -> Seq<Popup<N>>
    decreases closes.len(),
{
    if closes.len() == 0 {
        Seq::empty()
    } else {
        handed_out(family, closes.drop_last()) + close_all(
            family,
            closes.drop_last(),
        ).revoked_popups(closes.last())
    }
}

/// Whether both are entries of one popup, whatever became of it meanwhile.
pub open spec fn is_same_popup<N>(a: Popup<N>, b: Popup<N>) -> bool {
    a.state == b.state && a.opener == b.opener && a.native == b.native
}

/// How many of `popups` are entries of `popup`.
pub open spec fn count<N>(popups: Seq<Popup<N>>, popup: Popup<N>) -> nat
    decreases popups.len(),
{
    if popups.len() == 0 {
        0
    } else {
        count(popups.drop_last(), popup) + if is_same_popup(popups.last(), popup) {
            1nat
        } else {
            0nat
        }
    }
}

/// How many of `popups` are live entries of `popup`.
pub open spec fn live_count<N>(popups: Seq<Popup<N>>, popup: Popup<N>) -> nat
    decreases popups.len(),
{
    if popups.len() == 0 {
        0
    } else {
        live_count(popups.drop_last(), popup) + if !popups.last().closing && is_same_popup(
            popups.last(),
            popup,
        ) {
            1nat
        } else {
            0nat
        }
    }
}

/// What is handed out was not being closed before.
pub proof fn law_handed_out_popups_were_live<N, H>(
    family: FamilyView<N, H>,
    state: FrameNavigationState,
    k: int,
)
    requires
        0 <= k < family.revoked_by(state).len(),
    ensures
        ({
            let left = crate::popup::without(family.popups, state);
            let i = family.revoked_by(state)[k];
            &&& 0 <= i < left.len()
            &&& !left[i].closing
            &&& family.revoked_popups(state)[k] == left[i]
        }),
{
    let left = crate::popup::without(family.popups, state);
    let nodes = crate::revocation::nodes_of(left);
    let order = family.revoked_by(state);
    let whole = family.root.instance == state.instance;
    let i = order[k];
    crate::revocation::law_order_lists_the_revoked(nodes, state.instance, whole);
    assert(order.contains(i));
    assert(nodes[i] == left[i].node());
    crate::close_order::lemma_descends_by_opener(nodes, state.instance, i);
}

/// A popup that is being closed stays so under the close of another browser, and leaves
/// the family with its own.
pub proof fn law_closing_popup_stays_closing<N, H>(
    family: FamilyView<N, H>,
    state: FrameNavigationState,
    popup: Popup<N>,
)
    requires
        family.popups.contains(popup),
        popup.closing,
    ensures
        popup.state.instance != state.instance ==> family.close(state).popups.contains(popup),
        popup.state.instance == state.instance && !family.poisoned ==> forall|i: int|
            #![trigger family.close(state).popups[i]]
            0 <= i < family.close(state).popups.len() ==> family.close(
                state,
            ).popups[i].state.instance != popup.state.instance,
{
    if !family.poisoned {
        let left = crate::popup::without(family.popups, state);
        let after = family.close(state).popups;
        crate::popup::lemma_without(family.popups, state);
        crate::close_order::lemma_without_holds(family.popups, state, popup);
        if popup.state.instance != state.instance {
            let i = left.index_of(popup);
            assert(after[i] == popup);
        } else {
            assert forall|i: int| #![trigger after[i]] 0 <= i < after.len() implies
                after[i].state.instance != popup.state.instance by {
                assert(after[i].state == left[i].state);
            }
        }
    }
}

/// Over any sequence of closes a popup that is being closed stays so until its own close
/// removes it; after that the family has no entry of its browser.
pub proof fn law_closing_is_never_taken_back<N, H>(
    family: FamilyView<N, H>,
    closes: Seq<FrameNavigationState>,
    popup: Popup<N>,
)
    requires
        family.popups.contains(popup),
        popup.closing,
    ensures
        (forall|k: int|
            #![trigger closes[k]]
            0 <= k < closes.len() ==> closes[k].instance != popup.state.instance) ==> close_all(
            family,
            closes,
        ).popups.contains(popup),
        !family.poisoned && (exists|k: int|
            #![trigger closes[k]]
            0 <= k < closes.len() && closes[k].instance == popup.state.instance) ==> forall|i: int|
            #![trigger close_all(family, closes).popups[i]]
            0 <= i < close_all(family, closes).popups.len() ==> close_all(
                family,
                closes,
            ).popups[i].state.instance != popup.state.instance,
    decreases closes.len(),
{
    if closes.len() > 0 {
        let earlier = closes.drop_last();
        let before = close_all(family, earlier);
        law_closing_is_never_taken_back(family, earlier, popup);
        lemma_poison_stays(family, earlier);
        let closed_before = exists|k: int|
            #![trigger earlier[k]]
            0 <= k < earlier.len() && earlier[k].instance == popup.state.instance;
        if closed_before {
            let k = choose|k: int|
                #![trigger earlier[k]]
                0 <= k < earlier.len() && earlier[k].instance == popup.state.instance;
            assert(closes[k] == earlier[k]);
            if !family.poisoned {
                let left = crate::popup::without(before.popups, closes.last());
                let after = close_all(family, closes).popups;
                crate::popup::lemma_without(before.popups, closes.last());
                assert forall|i: int| #![trigger after[i]] 0 <= i < after.len() implies
                    after[i].state.instance != popup.state.instance by {
                    assert(after[i].state == left[i].state);
                    assert(before.popups.contains(left[i]));
                    let j = before.popups.index_of(left[i]);
                    assert(before.popups[j] == left[i]);
                }
            }
        } else {
            assert(forall|k: int|
                #![trigger closes[k]]
                0 <= k < earlier.len() ==> closes[k] == earlier[k]);
            law_closing_popup_stays_closing(before, closes.last(), popup);
            assert(closes[closes.len() - 1] == closes.last());
        }
    }
}

proof fn lemma_poison_stays<N, H>(family: FamilyView<N, H>, closes: Seq<FrameNavigationState>)
    ensures
        close_all(family, closes).poisoned == family.poisoned,
    decreases closes.len(),
{
    if closes.len() > 0 {
        lemma_poison_stays(family, closes.drop_last());
    }
}

/// Marking a live popup takes it from the live ones.
proof fn lemma_live_count_update<N>(popups: Seq<Popup<N>>, index: int, popup: Popup<N>)
    requires
        0 <= index < popups.len(),
        !popups[index].closing,
    ensures
        live_count(popups.update(index, Popup { closing: true, ..popups[index] }), popup) + if (
        is_same_popup(popups[index], popup)) {
            1nat
        } else {
            0nat
        } == live_count(popups, popup),
    decreases popups.len(),
{
    let next = popups.update(index, Popup { closing: true, ..popups[index] });
    if index == popups.len() - 1 {
        assert(next.drop_last() =~= popups.drop_last());
    } else {
        assert(next.drop_last() =~= popups.drop_last().update(
            index,
            Popup { closing: true, ..popups[index] },
        ));
        lemma_live_count_update(popups.drop_last(), index, popup);
    }
}

/// What is marked and what is live afterwards add up to what was live.
proof fn lemma_mark_takes_from_the_live<N>(
    popups: Seq<Popup<N>>,
    order: Seq<int>,
    popup: Popup<N>,
)
    requires
        order.no_duplicates(),
        forall|k: int|
            #![trigger order[k]]
            0 <= k < order.len() ==> 0 <= order[k] < popups.len() && !popups[order[k]].closing,
    ensures
        count(order.map_values(|i: int| popups[i]), popup) + live_count(
            crate::revocation::mark(popups, order),
            popup,
        ) == live_count(popups, popup),
    decreases order.len(),
{
    let taken = order.map_values(|i: int| popups[i]);
    if order.len() == 0 {
        assert(crate::revocation::mark(popups, order) =~= popups);
        assert(count(taken, popup) == 0);
    } else {
        let fewer = order.drop_last();
        let index = order.last();
        assert(order[order.len() - 1] == index);
        assert(fewer.push(index) =~= order);
        assert forall|k: int| #![trigger fewer[k]] 0 <= k < fewer.len() implies 0 <= fewer[k]
            < popups.len() && !popups[fewer[k]].closing && fewer[k] != index by {
            assert(order[k] == fewer[k]);
        }
        lemma_mark_takes_from_the_live(popups, fewer, popup);
        crate::revocation::lemma_mark(popups, fewer, index);
        let current = crate::revocation::mark(popups, fewer);
        assert(!fewer.contains(index));
        assert(current[index] == popups[index]);
        lemma_live_count_update(current, index, popup);
        assert(taken.drop_last() =~= fewer.map_values(|i: int| popups[i]));
        assert(taken.last() == popups[index]);
    }
}

/// Taking a browser out of a list adds no live popup.
proof fn lemma_without_adds_none<N>(
    popups: Seq<Popup<N>>,
    state: FrameNavigationState,
    popup: Popup<N>,
)
    ensures
        live_count(crate::popup::without(popups, state), popup) <= live_count(popups, popup),
    decreases popups.len(),
{
    reveal(Seq::filter);
    if popups.len() > 0 {
        let shorter = popups.drop_last();
        lemma_without_adds_none(shorter, state, popup);
        let before = crate::popup::without(shorter, state);
        if popups.last().state.instance != state.instance {
            assert(before.push(popups.last()).drop_last() =~= before);
        }
    }
}

/// One close hands out and leaves live no more entries of a popup than were live.
proof fn lemma_one_close<N, H>(
    family: FamilyView<N, H>,
    state: FrameNavigationState,
    popup: Popup<N>,
)
    ensures
        count(family.revoked_popups(state), popup) + live_count(
            family.close(state).popups,
            popup,
        ) <= live_count(family.popups, popup),
{
    if family.poisoned {
        assert(family.revoked_popups(state).len() == 0);
    } else {
        let left = crate::popup::without(family.popups, state);
        let order = family.revoked_by(state);
        let nodes = crate::revocation::nodes_of(left);
        crate::revocation::law_order_lists_the_revoked(
            nodes,
            state.instance,
            family.root.instance == state.instance,
        );
        assert forall|k: int| #![trigger order[k]] 0 <= k < order.len() implies 0 <= order[k]
            < left.len() && !left[order[k]].closing by {
            law_handed_out_popups_were_live(family, state, k);
        }
        lemma_mark_takes_from_the_live(left, order, popup);
        lemma_without_adds_none(family.popups, state, popup);
        assert(family.revoked_popups(state) =~= order.map_values(|i: int| left[i]));
    }
}

proof fn lemma_count_adds<N>(a: Seq<Popup<N>>, b: Seq<Popup<N>>, popup: Popup<N>)
    ensures
        count(a + b, popup) == count(a, popup) + count(b, popup),
    decreases b.len(),
{
    if b.len() == 0 {
        assert(a + b =~= a);
    } else {
        lemma_count_adds(a, b.drop_last(), popup);
        assert((a + b).drop_last() =~= a + b.drop_last());
        assert((a + b).last() == b.last());
    }
}

/// Where each popup has a browser of its own, it has one entry.
proof fn lemma_distinct_entries<N>(popups: Seq<Popup<N>>, popup: Popup<N>)
    requires
        forall|i: int, j: int|
            #![trigger popups[i], popups[j]]
            0 <= i < j < popups.len() ==> popups[i].state.instance != popups[j].state.instance,
    ensures
        live_count(popups, popup) <= 1,
        live_count(popups, popup) > 0 ==> exists|i: int|
            #![trigger popups[i]]
            0 <= i < popups.len() && popups[i].state == popup.state,
    decreases popups.len(),
{
    if popups.len() > 0 {
        let shorter = popups.drop_last();
        assert forall|i: int, j: int|
            #![trigger shorter[i], shorter[j]]
            0 <= i < j < shorter.len() implies shorter[i].state.instance
            != shorter[j].state.instance by {
            assert(popups[i] == shorter[i] && popups[j] == shorter[j]);
        }
        lemma_distinct_entries(shorter, popup);
        if live_count(shorter, popup) > 0 {
            let i = choose|i: int|
                #![trigger shorter[i]]
                0 <= i < shorter.len() && shorter[i].state == popup.state;
            assert(popups[i] == shorter[i]);
            assert(popups[popups.len() - 1] == popups.last());
        } else if live_count(popups, popup) > 0 {
            assert(popups[popups.len() - 1].state == popup.state);
        }
    }
}

/// Over any sequence of closes, in whatever order they arrive, a popup is handed out for
/// native close at most once: what is handed out and what is live in the end is never
/// more than what was live in the beginning. So a popup that is being closed is not
/// handed out again, nor does it become live again.
pub proof fn law_each_popup_is_handed_out_once<N, H>(
    family: FamilyView<N, H>,
    closes: Seq<FrameNavigationState>,
    popup: Popup<N>,
)
    ensures
        count(handed_out(family, closes), popup) + live_count(
            close_all(family, closes).popups,
            popup,
        ) <= live_count(family.popups, popup),
        family.has_distinct_browsers() ==> count(handed_out(family, closes), popup) <= 1,
        live_count(family.popups, popup) == 0 ==> count(handed_out(family, closes), popup) == 0,
    decreases closes.len(),
{
    if family.has_distinct_browsers() {
        lemma_distinct_entries(family.popups, popup);
    }
    if closes.len() > 0 {
        let earlier = closes.drop_last();
        let before = close_all(family, earlier);
        law_each_popup_is_handed_out_once(family, earlier, popup);
        lemma_one_close(before, closes.last(), popup);
        lemma_count_adds(
            handed_out(family, earlier),
            before.revoked_popups(closes.last()),
            popup,
        );
    }
}

} // verus!
