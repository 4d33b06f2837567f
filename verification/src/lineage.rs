//! What is left of a family after a close, and what is reported of it.

use crate::navigation::FrameNavigationState;
use crate::observation::PopupSight;
use crate::popup::{FamilyView, Popup};
use crate::revocation::Node;
use vstd::prelude::*;

verus! {

/// Whether `chain` leads from the browser `origin` down to its last node, be the nodes
/// being closed or not.
pub open spec fn is_lineage(nodes: Seq<Node>, origin: u64, chain: Seq<int>) -> bool {
    &&& chain.len() > 0
    &&& forall|k: int| #![trigger chain[k]] 0 <= k < chain.len() ==> 0 <= chain[k] < nodes.len()
    &&& nodes[chain[0]].opener == origin
    &&& forall|j: int, k: int|
        #![trigger chain[j], chain[k]]
        0 <= j && k == j + 1 && k < chain.len() ==> nodes[chain[k]].opener
            == nodes[chain[j]].state
}

/// In a well-formed family the opener of a live popup is live: so is every popup of a
/// lineage that ends in a live one.
proof fn lemma_lineage_of_a_live_popup<N, H>(
    family: FamilyView<N, H>,
    state: FrameNavigationState,
    chain: Seq<int>,
    k: int,
)
    requires
        family.well_formed(),
        family.has_distinct_browsers(),
        !family.poisoned,
        is_lineage(
            crate::revocation::nodes_of(crate::popup::without(family.popups, state)),
            state.instance,
            chain,
        ),
        0 <= k < chain.len(),
        !crate::popup::without(family.popups, state)[chain.last()].closing,
    ensures
        !crate::popup::without(family.popups, state)[chain[k]].closing,
    decreases chain.len() - k,
{
    let left = crate::popup::without(family.popups, state);
    let nodes = crate::revocation::nodes_of(left);
    if k == chain.len() - 1 {
        assert(chain.last() == chain[k]);
    } else {
        lemma_lineage_of_a_live_popup(family, state, chain, k + 1);
        crate::popup::lemma_without(family.popups, state);
        let child = left[chain[k + 1]];
        let parent = left[chain[k]];
        assert(nodes[chain[k + 1]].opener == nodes[chain[k]].state);
        assert(child.opener.instance == parent.state.instance);
        assert(family.popups.contains(child) && family.popups.contains(parent));
        let c = family.popups.index_of(child);
        let p = family.popups.index_of(parent);
        assert(family.popups[c] == child && family.popups[p] == parent);
        assert(family.has_live(child.opener));
        let q = choose|q: int|
            #![trigger family.popups[q]]
            0 <= q < family.popups.len() && !family.popups[q].closing
                && family.popups[q].state.instance == child.opener.instance;
        assert(q == p);
    }
}

/// After a close nothing that descends from the closed browser is reported, through
/// whatever popups it descends and whatever CEF has to say of it.
pub proof fn law_no_descendant_is_reported<N, H>(
    family: FamilyView<N, H>,
    state: FrameNavigationState,
    chain: Seq<int>,
    sight: PopupSight,
)
    requires
        family.well_formed(),
        family.has_distinct_browsers(),
        !family.poisoned,
        is_lineage(
            crate::revocation::nodes_of(family.close(state).popups),
            state.instance,
            chain,
        ),
    ensures
        family.close(state).popups[chain.last()].closing,
        !crate::observation::is_reported(family.close(state).popups[chain.last()], sight),
{
    let left = crate::popup::without(family.popups, state);
    let nodes = crate::revocation::nodes_of(left);
    let after = family.close(state).popups;
    let after_nodes = crate::revocation::nodes_of(after);
    let index = chain.last();
    assert(chain[chain.len() - 1] == index);
    assert forall|i: int| 0 <= i < nodes.len() implies #[trigger] nodes[i].state
        == after_nodes[i].state && nodes[i].opener == after_nodes[i].opener by {}
    assert forall|j: int, k: int|
        #![trigger chain[j], chain[k]]
        0 <= j && k == j + 1 && k < chain.len() implies nodes[chain[k]].opener
        == nodes[chain[j]].state by {
        assert(after_nodes[chain[k]].opener == after_nodes[chain[j]].state);
        assert(nodes[chain[k]].state == after_nodes[chain[k]].state);
        assert(nodes[chain[j]].state == after_nodes[chain[j]].state);
    }
    assert(nodes[chain[0]].state == after_nodes[chain[0]].state);
    assert(is_lineage(nodes, state.instance, chain));
    lemma_close_revokes(family, state, index);
    if !left[index].closing {
        assert forall|k: int|
            #![trigger chain[k]]
            0 <= k < chain.len() implies 0 <= chain[k] < nodes.len()
            && !nodes[chain[k]].closing by {
            lemma_lineage_of_a_live_popup(family, state, chain, k);
        }
        assert(crate::revocation::is_descent(nodes, state.instance, chain));
    }
}

proof fn lemma_close_revokes<N, H>(
    family: FamilyView<N, H>,
    state: FrameNavigationState,
    index: int,
)
    requires
        !family.poisoned,
        0 <= index < family.close(state).popups.len(),
    ensures
        ({
            let left = crate::popup::without(family.popups, state);
            let nodes = crate::revocation::nodes_of(left);
            &&& left[index].closing ==> family.close(state).popups[index].closing
            &&& !left[index].closing && crate::revocation::descends(nodes, state.instance, index)
                ==> family.close(state).popups[index].closing
        }),
{
    crate::popup::law_close_revokes_exactly_the_descendants(family, state, index);
}

/// Taking a browser out, marking popups and picking the reported ones amounts to picking
/// the reported ones that are neither.
proof fn lemma_reported_after_marking<N>(
    popups: Seq<Popup<N>>,
    state: FrameNavigationState,
    gone: spec_fn(Popup<N>) -> bool,
    sight_of: spec_fn(Popup<N>) -> PopupSight,
)
    ensures
        crate::observation::reported(
            crate::popup::without(popups, state).map_values(
                |popup: Popup<N>| Popup { closing: popup.closing || gone(popup), ..popup },
            ),
            sight_of,
        ) == crate::observation::reported(popups, sight_of).filter(
            |popup: Popup<N>| popup.state.instance != state.instance && !gone(popup),
        ),
    decreases popups.len(),
{
    reveal(Seq::filter);
    let change = |popup: Popup<N>| Popup { closing: popup.closing || gone(popup), ..popup };
    let stays = |popup: Popup<N>| popup.state.instance != state.instance && !gone(popup);
    if popups.len() == 0 {
        assert(crate::popup::without(popups, state).map_values(change) =~= popups);
    } else {
        let shorter = popups.drop_last();
        let last = popups.last();
        lemma_reported_after_marking(shorter, state, gone, sight_of);
        let left = crate::popup::without(shorter, state);
        let seen = crate::observation::reported(shorter, sight_of);
        assert(seen.push(last).drop_last() =~= seen);
        assert(left.push(last).map_values(change) =~= left.map_values(change).push(
            change(last),
        ));
        assert(left.map_values(change).push(change(last)).drop_last() =~= left.map_values(
            change,
        ));
        if !gone(last) {
            assert(change(last) == last);
        }
    }
}

/// After a close the popups that are reported are those that were before, in the same
/// order, without the closed browser's own and its descendants; where it was the root,
/// none is left.
pub proof fn law_the_others_are_still_reported<N, H>(
    family: FamilyView<N, H>,
    state: FrameNavigationState,
    sight_of: spec_fn(Popup<N>) -> PopupSight,
)
    requires
        !family.poisoned,
    ensures
        ({
            let nodes = crate::revocation::nodes_of(
                crate::popup::without(family.popups, state),
            );
            crate::observation::reported(family.close(state).popups, sight_of)
                == crate::observation::reported(family.popups, sight_of).filter(
                |popup: Popup<N>|
                    popup.state.instance != state.instance && family.root.instance
                        != state.instance && !crate::close_order::is_reached(
                        nodes,
                        state.instance,
                        popup.opener.instance,
                    ),
            )
        }),
{
    let left = crate::popup::without(family.popups, state);
    let nodes = crate::revocation::nodes_of(left);
    let whole = family.root.instance == state.instance;
    let gone = |popup: Popup<N>|
        whole || crate::close_order::is_reached(nodes, state.instance, popup.opener.instance);
    crate::close_order::lemma_mark_by_opener(left, state.instance, whole);
    lemma_reported_after_marking(family.popups, state, gone, sight_of);
    assert(family.close(state).popups =~= left.map_values(
        |popup: Popup<N>| Popup { closing: popup.closing || gone(popup), ..popup },
    ));
    let stays = |popup: Popup<N>| popup.state.instance != state.instance && !gone(popup);
    assert(stays =~= (|popup: Popup<N>|
        popup.state.instance != state.instance && family.root.instance != state.instance
            && !crate::close_order::is_reached(nodes, state.instance, popup.opener.instance)));
}

} // verus!
