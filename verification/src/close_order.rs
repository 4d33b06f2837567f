//! Closes that arrive out of order.
//!
//! CEF reports the closes of a family's browsers in any order. Whether a popup is
//! revoked depends on its opener alone, so that the family ends up the same.

use crate::navigation::FrameNavigationState;
use crate::popup::{FamilyView, Popup};
use crate::revocation::Node;
use vstd::prelude::*;

verus! {

/// Whether the browser `browser` is `origin` or that of a live node that descends
/// from it.
pub open spec fn is_reached(nodes: Seq<Node>, origin: u64, browser: u64) -> bool {
    ||| browser == origin
    ||| exists|i: int|
        #![trigger nodes[i]]
        0 <= i < nodes.len() && nodes[i].state == browser && crate::revocation::descends(
            nodes,
            origin,
            i,
        )
}

/// A live node descends from `origin` exactly when its opener is reached from it.
pub(crate) proof fn lemma_descends_by_opener(nodes: Seq<Node>, origin: u64, index: int)
    requires
        0 <= index < nodes.len(),
    ensures
        crate::revocation::descends(nodes, origin, index) <==> !nodes[index].closing && is_reached(
            nodes,
            origin,
            nodes[index].opener,
        ),
{
    if crate::revocation::descends(nodes, origin, index) {
        let chain = choose|chain: Seq<int>| #[trigger]
            crate::revocation::is_descent(nodes, origin, chain) && chain.last() == index;
        assert(chain[chain.len() - 1] == index);
        if chain.len() > 1 {
            let upper = chain.drop_last();
            let parent = chain[chain.len() - 2];
            assert forall|j: int, k: int|
                #![trigger upper[j], upper[k]]
                0 <= j && k == j + 1 && k < upper.len() implies nodes[upper[k]].opener
                == nodes[upper[j]].state by {
                assert(upper[j] == chain[j] && upper[k] == chain[k]);
            }
            assert(crate::revocation::is_descent(nodes, origin, upper));
            assert(upper.last() == parent);
            assert(nodes[parent].state == nodes[index].opener);
        }
    }
    if !nodes[index].closing && is_reached(nodes, origin, nodes[index].opener) {
        if nodes[index].opener == origin {
            let chain = seq![index];
            assert(crate::revocation::is_descent(nodes, origin, chain));
            assert(chain.last() == index);
        } else {
            let i = choose|i: int|
                #![trigger nodes[i]]
                0 <= i < nodes.len() && nodes[i].state == nodes[index].opener
                    && crate::revocation::descends(nodes, origin, i);
            let upper = choose|chain: Seq<int>| #[trigger]
                crate::revocation::is_descent(nodes, origin, chain) && chain.last() == i;
            let chain = upper.push(index);
            assert(crate::revocation::is_descent(nodes, origin, chain));
            assert(chain.last() == index);
        }
    }
}

/// Whatever holds of `origin`, and of the browser of each live node with whose opener
/// it holds, holds of every browser that is reached.
proof fn lemma_reach_by_induction(
    nodes: Seq<Node>,
    origin: u64,
    holds: spec_fn(u64) -> bool,
    browser: u64,
)
    requires
        holds(origin),
        forall|i: int|
            #![trigger nodes[i]]
            0 <= i < nodes.len() && !nodes[i].closing && holds(nodes[i].opener) ==> holds(
                nodes[i].state,
            ),
        is_reached(nodes, origin, browser),
    ensures
        holds(browser),
{
    if browser != origin {
        let i = choose|i: int|
            #![trigger nodes[i]]
            0 <= i < nodes.len() && nodes[i].state == browser && crate::revocation::descends(
                nodes,
                origin,
                i,
            );
        let chain = choose|chain: Seq<int>| #[trigger]
            crate::revocation::is_descent(nodes, origin, chain) && chain.last() == i;
        lemma_chain_by_induction(nodes, origin, holds, chain, chain.len() - 1);
        assert(chain[chain.len() - 1] == i);
    }
}

proof fn lemma_chain_by_induction(
    nodes: Seq<Node>,
    origin: u64,
    holds: spec_fn(u64) -> bool,
    chain: Seq<int>,
    k: int,
)
    requires
        holds(origin),
        forall|i: int|
            #![trigger nodes[i]]
            0 <= i < nodes.len() && !nodes[i].closing && holds(nodes[i].opener) ==> holds(
                nodes[i].state,
            ),
        crate::revocation::is_descent(nodes, origin, chain),
        0 <= k < chain.len(),
    ensures
        holds(nodes[chain[k]].state),
    decreases k,
{
    if k > 0 {
        lemma_chain_by_induction(nodes, origin, holds, chain, k - 1);
        assert(nodes[chain[k]].opener == nodes[chain[k - 1]].state);
    }
}

/// The browser of a live node is reached when its opener is.
pub(crate) proof fn lemma_reach_step(nodes: Seq<Node>, origin: u64, index: int)
    requires
        0 <= index < nodes.len(),
        !nodes[index].closing,
        is_reached(nodes, origin, nodes[index].opener),
    ensures
        is_reached(nodes, origin, nodes[index].state),
{
    lemma_descends_by_opener(nodes, origin, index);
}

/// The popup as the close of `origin` in a family with `nodes` leaves it.
pub open spec fn revoked<N>(nodes: Seq<Node>, origin: u64, whole: bool, popup: Popup<N>) -> Popup<N> {
    Popup {
        closing: popup.closing || whole || is_reached(nodes, origin, popup.opener.instance),
        ..popup
    }
}

/// A close leaves each popup as follows from its opener.
pub(crate) proof fn lemma_mark_by_opener<N>(popups: Seq<Popup<N>>, origin: u64, whole: bool)
    ensures
        crate::revocation::mark(
            popups,
            crate::revocation::revocation_order(
                crate::revocation::nodes_of(popups),
                origin,
                whole,
            ),
        ) == popups.map_values(
            |popup: Popup<N>|
                revoked(crate::revocation::nodes_of(popups), origin, whole, popup),
        ),
{
    let nodes = crate::revocation::nodes_of(popups);
    let order = crate::revocation::revocation_order(nodes, origin, whole);
    let by_order = crate::revocation::mark(popups, order);
    let by_opener = popups.map_values(|popup: Popup<N>| revoked(nodes, origin, whole, popup));
    crate::revocation::law_order_lists_the_revoked(nodes, origin, whole);
    assert forall|i: int| 0 <= i < popups.len() implies by_order[i] == by_opener[i] by {
        lemma_descends_by_opener(nodes, origin, i);
        assert(order.contains(i) <==> crate::revocation::is_revoked(nodes, origin, whole, i));
        assert(nodes[i] == popups[i].node());
    }
    assert(by_order =~= by_opener);
}

/// Taking a browser out of a list and changing the popups in it can be done in either
/// order, if the change leaves each popup its browser.
proof fn lemma_without_map<N>(
    popups: Seq<Popup<N>>,
    change: spec_fn(Popup<N>) -> Popup<N>,
    state: FrameNavigationState,
)
    requires
        forall|popup: Popup<N>| (#[trigger] change(popup)).state == popup.state,
    ensures
        crate::popup::without(popups.map_values(change), state) == crate::popup::without(
            popups,
            state,
        ).map_values(change),
    decreases popups.len(),
{
    reveal(Seq::filter);
    if popups.len() == 0 {
        assert(crate::popup::without(popups.map_values(change), state)
            =~= crate::popup::without(popups, state).map_values(change));
    } else {
        let shorter = popups.drop_last();
        lemma_without_map(shorter, change, state);
        assert(popups.map_values(change).drop_last() =~= shorter.map_values(change));
        assert(change(popups.last()).state == popups.last().state);
        assert(crate::popup::without(popups.map_values(change), state)
            =~= crate::popup::without(popups, state).map_values(change));
    }
}

/// Two browsers can be taken out of a list in either order.
proof fn lemma_without_commutes<N>(
    popups: Seq<Popup<N>>,
    a: FrameNavigationState,
    b: FrameNavigationState,
)
    ensures
        crate::popup::without(crate::popup::without(popups, a), b) == crate::popup::without(
            crate::popup::without(popups, b),
            a,
        ),
    decreases popups.len(),
{
    reveal(Seq::filter);
    if popups.len() > 0 {
        let shorter = popups.drop_last();
        lemma_without_commutes(shorter, a, b);
        let last = popups.last();
        let without_a = crate::popup::without(shorter, a);
        let without_b = crate::popup::without(shorter, b);
        assert(without_a.push(last).drop_last() =~= without_a);
        assert(without_b.push(last).drop_last() =~= without_b);
    }
}

/// A list without a browser holds a popup exactly when the list does and the popup
/// is not that browser's.
pub(crate) proof fn lemma_without_holds<N>(popups: Seq<Popup<N>>, state: FrameNavigationState, popup: Popup<N>)
    ensures
        crate::popup::without(popups, state).contains(popup) <==> popups.contains(popup)
            && popup.state.instance != state.instance,
    decreases popups.len(),
{
    reveal(Seq::filter);
    if popups.len() > 0 {
        let shorter = popups.drop_last();
        lemma_without_holds(shorter, state, popup);
        let left = crate::popup::without(popups, state);
        let before = crate::popup::without(shorter, state);
        if popups.contains(popup) && popup.state.instance != state.instance {
            if shorter.contains(popup) {
                let k = before.index_of(popup);
                assert(left[k] == popup);
            } else {
                let k = popups.index_of(popup);
                assert(k == popups.len() - 1) by {
                    if k < popups.len() - 1 {
                        assert(shorter[k] == popup);
                    }
                }
                assert(left[left.len() - 1] == popup);
            }
        }
        if left.contains(popup) {
            let k = left.index_of(popup);
            if popups.last().state.instance != state.instance && k == left.len() - 1 {
                assert(popups[popups.len() - 1] == popup);
            } else {
                assert(before[k] == popup);
                let j = shorter.index_of(popup);
                assert(popups[j] == popup);
            }
        }
    }
}

/// With neither browser the root: closing `a` and then `b` reaches exactly the browsers
/// that are reached from either in the list without both.
proof fn lemma_joint_reach<N>(
    popups: Seq<Popup<N>>,
    a: FrameNavigationState,
    b: FrameNavigationState,
    browser: u64,
)
    ensures
        ({
            let without_a = crate::revocation::nodes_of(crate::popup::without(popups, a));
            let rest = crate::popup::without(crate::popup::without(popups, a), b);
            let marked = crate::revocation::nodes_of(
                rest.map_values(
                    |popup: Popup<N>| revoked(without_a, a.instance, false, popup),
                ),
            );
            let nodes = crate::revocation::nodes_of(rest);
            is_reached(without_a, a.instance, browser) || is_reached(marked, b.instance, browser)
                <==> is_reached(nodes, a.instance, browser) || is_reached(
                nodes,
                b.instance,
                browser,
            )
        }),
{
    let list_a = crate::popup::without(popups, a);
    let without_a = crate::revocation::nodes_of(list_a);
    let rest = crate::popup::without(list_a, b);
    let changed = rest.map_values(
        |popup: Popup<N>| revoked(without_a, a.instance, false, popup),
    );
    let marked = crate::revocation::nodes_of(changed);
    let nodes = crate::revocation::nodes_of(rest);
    let jointly = |u: u64| is_reached(nodes, a.instance, u) || is_reached(nodes, b.instance, u);
    let in_turn = |u: u64|
        is_reached(without_a, a.instance, u) || is_reached(marked, b.instance, u);

    // A step in the list without both keeps what is reached jointly.
    assert forall|i: int|
        #![trigger nodes[i]]
        0 <= i < nodes.len() && !nodes[i].closing && jointly(nodes[i].opener) implies jointly(
        nodes[i].state,
    ) by {
        if is_reached(nodes, a.instance, nodes[i].opener) {
            lemma_reach_step(nodes, a.instance, i);
        } else {
            lemma_reach_step(nodes, b.instance, i);
        }
    }
    // So does a step in the list without `a`, which may lead to `b`.
    assert forall|i: int|
        #![trigger without_a[i]]
        0 <= i < without_a.len() && !without_a[i].closing && jointly(
            without_a[i].opener,
        ) implies jointly(without_a[i].state) by {
        assert(without_a[i] == list_a[i].node());
        if without_a[i].state != b.instance {
            assert(list_a.contains(list_a[i]));
            lemma_without_holds(list_a, b, list_a[i]);
            let j = rest.index_of(list_a[i]);
            assert(nodes[j] == without_a[i]);
        }
    }
    // And one in the marked list.
    assert forall|i: int|
        #![trigger marked[i]]
        0 <= i < marked.len() && !marked[i].closing && jointly(marked[i].opener) implies jointly(
        marked[i].state,
    ) by {
        assert(marked[i] == changed[i].node());
        assert(nodes[i] == rest[i].node());
        assert(marked[i].opener == nodes[i].opener && marked[i].state == nodes[i].state);
    }
    if is_reached(without_a, a.instance, browser) {
        lemma_reach_by_induction(without_a, a.instance, jointly, browser);
    }
    if is_reached(marked, b.instance, browser) {
        lemma_reach_by_induction(marked, b.instance, jointly, browser);
    }

    // A step in the list without both keeps what is reached in turn.
    assert forall|i: int|
        #![trigger nodes[i]]
        0 <= i < nodes.len() && !nodes[i].closing && in_turn(nodes[i].opener) implies in_turn(
        nodes[i].state,
    ) by {
        assert(nodes[i] == rest[i].node());
        assert(marked[i] == changed[i].node());
        if is_reached(without_a, a.instance, nodes[i].opener) {
            assert(rest.contains(rest[i]));
            lemma_without_holds(list_a, b, rest[i]);
            let j = list_a.index_of(rest[i]);
            assert(without_a[j] == nodes[i]);
            lemma_reach_step(without_a, a.instance, j);
        } else {
            assert(!marked[i].closing);
            lemma_reach_step(marked, b.instance, i);
        }
    }
    if is_reached(nodes, a.instance, browser) {
        lemma_reach_by_induction(nodes, a.instance, in_turn, browser);
    }
    if is_reached(nodes, b.instance, browser) {
        lemma_reach_by_induction(nodes, b.instance, in_turn, browser);
    }
}

/// What two closes leave of a family, popup by popup.
proof fn lemma_two_closes<N, H>(
    family: FamilyView<N, H>,
    a: FrameNavigationState,
    b: FrameNavigationState,
)
    requires
        !family.poisoned,
    ensures
        ({
            let rest = crate::popup::without(crate::popup::without(family.popups, a), b);
            let nodes = crate::revocation::nodes_of(rest);
            let whole = family.root.instance == a.instance || family.root.instance == b.instance;
            family.close(a).close(b).popups == rest.map_values(
                |popup: Popup<N>|
                    Popup {
                        closing: popup.closing || whole || is_reached(
                            nodes,
                            a.instance,
                            popup.opener.instance,
                        ) || is_reached(nodes, b.instance, popup.opener.instance),
                        ..popup
                    },
            )
        }),
{
    let list_a = crate::popup::without(family.popups, a);
    let without_a = crate::revocation::nodes_of(list_a);
    let whole_a = family.root.instance == a.instance;
    let whole_b = family.root.instance == b.instance;
    let rest = crate::popup::without(list_a, b);
    let nodes = crate::revocation::nodes_of(rest);
    let first = |popup: Popup<N>| revoked(without_a, a.instance, whole_a, popup);
    let once = family.close(a).popups;
    lemma_mark_by_opener(list_a, a.instance, whole_a);
    assert(once =~= list_a.map_values(first));
    lemma_without_map(list_a, first, b);
    let changed = rest.map_values(first);
    assert(crate::popup::without(once, b) == changed);
    let marked = crate::revocation::nodes_of(changed);
    let second = |popup: Popup<N>| revoked(marked, b.instance, whole_b, popup);
    lemma_mark_by_opener(changed, b.instance, whole_b);
    let twice = family.close(a).close(b).popups;
    assert(twice =~= changed.map_values(second));
    let expected = rest.map_values(
        |popup: Popup<N>|
            Popup {
                closing: popup.closing || whole_a || whole_b || is_reached(
                    nodes,
                    a.instance,
                    popup.opener.instance,
                ) || is_reached(nodes, b.instance, popup.opener.instance),
                ..popup
            },
    );
    assert forall|i: int| 0 <= i < rest.len() implies twice[i] == expected[i] by {
        assert(changed[i] == first(rest[i]));
        assert(twice[i] == second(changed[i]));
        if !whole_a && !whole_b {
            lemma_joint_reach(family.popups, a, b, rest[i].opener.instance);
            assert(first =~= (|popup: Popup<N>| revoked(without_a, a.instance, false, popup)));
        }
    }
    assert(twice =~= expected);
}

/// The order in which two closes arrive does not matter: the family ends up the same.
pub proof fn law_closes_commute<N, H>(
    family: FamilyView<N, H>,
    a: FrameNavigationState,
    b: FrameNavigationState,
)
    ensures
        family.close(a).close(b) == family.close(b).close(a),
{
    if !family.poisoned {
        lemma_two_closes(family, a, b);
        lemma_two_closes(family, b, a);
        lemma_without_commutes(family.popups, a, b);
        assert(family.close(a).close(b).popups =~= family.close(b).close(a).popups);
    }
    assert(family.close(a).close(b) =~= family.close(b).close(a));
}

} // verus!
