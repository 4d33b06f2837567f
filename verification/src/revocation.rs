//! Revoking the descendants of a closed browser.
//!
//! The popups of a family form a graph: each was opened by the family's root or
//! by another popup. When a browser goes away, the popups that descend from it
//! are revoked, wherever they stand in the list.

use crate::navigation::FrameNavigationState;
use crate::popup::Popup;
use vstd::prelude::*;

verus! {

/// What the walk reads of one popup.
pub struct Node {
    /// The popup's own browser.
    pub state: u64,
    /// The browser that opened it.
    pub opener: u64,
    /// Whether it is being closed already.
    pub closing: bool,
}

/// The nodes of a list of popups.
pub open spec fn nodes_of<N>(popups: Seq<Popup<N>>) -> Seq<Node> {
    popups.map_values(|popup: Popup<N>| popup.node())
}

/// Whether `chain` leads from the browser `origin` down to its last node: the
/// first node was opened by `origin` and each later one by the node before it,
/// and none of them is being closed.
pub open spec fn is_descent(nodes: Seq<Node>, origin: u64, chain: Seq<int>) -> bool {
    &&& chain.len() > 0
    &&& forall|k: int|
        #![trigger chain[k]]
        0 <= k < chain.len() ==> 0 <= chain[k] < nodes.len() && !nodes[chain[k]].closing
    &&& nodes[chain[0]].opener == origin
    &&& forall|j: int, k: int|
        #![trigger chain[j], chain[k]]
        0 <= j && k == j + 1 && k < chain.len() ==> nodes[chain[k]].opener
            == nodes[chain[j]].state
}

/// Whether the node at `index` is live and descends from the browser `origin`.
pub open spec fn descends(nodes: Seq<Node>, origin: u64, index: int) -> bool {
    exists|chain: Seq<int>| #[trigger]
        is_descent(nodes, origin, chain) && chain.last() == index
}

/// Whether closing `origin` revokes the node at `index`: with the root closed
/// (`whole`) every live node goes, else the live descendants of `origin`.
pub open spec fn is_revoked(nodes: Seq<Node>, origin: u64, whole: bool, index: int) -> bool {
    &&& 0 <= index < nodes.len()
    &&& if whole {
        !nodes[index].closing
    } else {
        descends(nodes, origin, index)
    }
}

/// Whether the opener of the node at `index` is `origin` or one of the nodes at
/// the places listed in `order`.
pub open spec fn opener_revoked(
    nodes: Seq<Node>,
    origin: u64,
    order: Seq<int>,
    index: int,
) -> bool {
    ||| nodes[index].opener == origin
    ||| exists|k: int|
        #![trigger order[k]]
        0 <= k < order.len() && nodes[order[k]].state == nodes[index].opener
}

/// Whether the node at `index` is due, when those in `order` were revoked.
pub open spec fn is_due(
    nodes: Seq<Node>,
    origin: u64,
    whole: bool,
    order: Seq<int>,
    index: int,
) -> bool {
    &&& !nodes[index].closing
    &&& !order.contains(index)
    &&& whole || opener_revoked(nodes, origin, order, index)
}

/// `order` after one pass over the nodes from `index` on, which appends each
/// node that is due when the pass comes to it.
pub open spec fn pass(
    nodes: Seq<Node>,
    origin: u64,
    whole: bool,
    order: Seq<int>,
    index: int,
) -> Seq<int>
    decreases nodes.len() - index,
{
    if index < 0 || index >= nodes.len() {
        order
    } else if is_due(nodes, origin, whole, order, index) {
        pass(nodes, origin, whole, order.push(index), index + 1)
    } else {
        pass(nodes, origin, whole, order, index + 1)
    }
}

/// What `count` passes revoke, in the order in which they do.
pub open spec fn passes(nodes: Seq<Node>, origin: u64, whole: bool, count: nat) -> Seq<int>
    decreases count,
{
    if count == 0 {
        Seq::empty()
    } else {
        pass(nodes, origin, whole, passes(nodes, origin, whole, (count - 1) as nat), 0)
    }
}

/// The places of the revoked nodes in the order in which they are revoked: pass
/// by pass until a pass finds none. As many passes as there are nodes suffice.
pub open spec fn revocation_order(nodes: Seq<Node>, origin: u64, whole: bool) -> Seq<int> {
    passes(nodes, origin, whole, nodes.len())
}

/// `popups` with those at the places in `order` marked as closing.
pub open spec fn mark<N>(popups: Seq<Popup<N>>, order: Seq<int>) -> Seq<Popup<N>> {
    popups.map(
        |i: int, popup: Popup<N>|
            Popup { closing: popup.closing || order.contains(i), ..popup },
    )
}

/// `indices` as mathematical integers.
pub open spec fn places(indices: Seq<usize>) -> Seq<int> {
    indices.map_values(|index: usize| index as int)
}

/// Whether the places in `order` are distinct, in range and those of nodes that
/// were not being closed.
spec fn is_clean(nodes: Seq<Node>, order: Seq<int>) -> bool {
    &&& order.no_duplicates()
    &&& forall|k: int|
        #![trigger order[k]]
        0 <= k < order.len() ==> 0 <= order[k] < nodes.len() && !nodes[order[k]].closing
}

/// A pass keeps what was revoked before it, and revokes only live nodes, each
/// once.
proof fn lemma_pass_extends(
    nodes: Seq<Node>,
    origin: u64,
    whole: bool,
    order: Seq<int>,
    index: int,
)
    requires
        is_clean(nodes, order),
        0 <= index,
    ensures
        is_clean(nodes, pass(nodes, origin, whole, order, index)),
        order.len() <= pass(nodes, origin, whole, order, index).len(),
        pass(nodes, origin, whole, order, index).take(order.len() as int) =~= order,
    decreases nodes.len() - index,
{
    if index < nodes.len() {
        if is_due(nodes, origin, whole, order, index) {
            let next = order.push(index);
            assert(is_clean(nodes, next));
            lemma_pass_extends(nodes, origin, whole, next, index + 1);
            let end = pass(nodes, origin, whole, next, index + 1);
            assert(end.take(order.len() as int) =~= end.take(next.len() as int).take(
                order.len() as int,
            ));
        } else {
            lemma_pass_extends(nodes, origin, whole, order, index + 1);
        }
    }
}

/// After a pass that revokes nothing no node is due, and a further pass revokes
/// nothing either.
proof fn lemma_idle_pass(nodes: Seq<Node>, origin: u64, whole: bool, order: Seq<int>, index: int)
    requires
        is_clean(nodes, order),
        0 <= index,
        pass(nodes, origin, whole, order, index).len() == order.len(),
    ensures
        pass(nodes, origin, whole, order, index) == order,
        forall|i: int|
            index <= i < nodes.len() ==> !#[trigger] is_due(nodes, origin, whole, order, i),
    decreases nodes.len() - index,
{
    if index < nodes.len() {
        if is_due(nodes, origin, whole, order, index) {
            let next = order.push(index);
            assert(is_clean(nodes, next));
            lemma_pass_extends(nodes, origin, whole, next, index + 1);
        } else {
            lemma_idle_pass(nodes, origin, whole, order, index + 1);
        }
    }
}

/// A list of distinct places is no longer than the list of nodes.
proof fn lemma_clean_is_bounded(nodes: Seq<Node>, order: Seq<int>)
    requires
        is_clean(nodes, order),
    ensures
        order.len() <= nodes.len(),
{
    let all = vstd::set_lib::set_int_range(0, nodes.len() as int);
    vstd::set_lib::lemma_int_range(0, nodes.len() as int);
    order.unique_seq_to_set();
    assert(order.to_set().subset_of(all));
    vstd::set_lib::lemma_len_subset(order.to_set(), all);
}

/// Once a pass revokes nothing, any larger number of passes gives the same.
proof fn lemma_passes_settle(
    nodes: Seq<Node>,
    origin: u64,
    whole: bool,
    settled: nat,
    count: nat,
)
    requires
        settled <= count,
        passes(nodes, origin, whole, settled + 1) == passes(nodes, origin, whole, settled),
    ensures
        passes(nodes, origin, whole, count) == passes(nodes, origin, whole, settled),
    decreases count,
{
    if settled < count {
        lemma_passes_settle(nodes, origin, whole, settled, (count - 1) as nat);
    }
}

/// Passes revoke live nodes, each once, and either the last of them revoked
/// nothing or each revoked at least one.
proof fn lemma_passes_progress(nodes: Seq<Node>, origin: u64, whole: bool, count: nat)
    ensures
        is_clean(nodes, passes(nodes, origin, whole, count)),
        count <= passes(nodes, origin, whole, count).len() || passes(
            nodes,
            origin,
            whole,
            count + 1,
        ) == passes(nodes, origin, whole, count),
    decreases count,
{
    let order = passes(nodes, origin, whole, count);
    if count > 0 {
        let prior = (count - 1) as nat;
        let before = passes(nodes, origin, whole, prior);
        lemma_passes_progress(nodes, origin, whole, prior);
        lemma_pass_extends(nodes, origin, whole, before, 0);
        if order.len() == before.len() {
            lemma_idle_pass(nodes, origin, whole, before, 0);
        }
    }
}

/// The revocation order is complete: no node is due after it.
proof fn lemma_order_is_settled(nodes: Seq<Node>, origin: u64, whole: bool)
    ensures
        is_clean(nodes, revocation_order(nodes, origin, whole)),
        forall|i: int|
            0 <= i < nodes.len() ==> !#[trigger] is_due(
                nodes,
                origin,
                whole,
                revocation_order(nodes, origin, whole),
                i,
            ),
{
    let order = revocation_order(nodes, origin, whole);
    lemma_passes_progress(nodes, origin, whole, nodes.len());
    let after = passes(nodes, origin, whole, (nodes.len() + 1) as nat);
    lemma_passes_progress(nodes, origin, whole, (nodes.len() + 1) as nat);
    lemma_clean_is_bounded(nodes, order);
    lemma_clean_is_bounded(nodes, after);
    lemma_pass_extends(nodes, origin, whole, order, 0);
    lemma_idle_pass(nodes, origin, whole, order, 0);
}

/// Whether each node in `order` was opened by `origin` or by a node that stands
/// before it in `order`.
pub open spec fn follows_openers(nodes: Seq<Node>, origin: u64, order: Seq<int>) -> bool {
    forall|k: int|
        #![trigger order[k]]
        0 <= k < order.len() ==> opener_revoked(nodes, origin, order.take(k), order[k])
}

/// A pass over descendants revokes descendants, each after its opener.
proof fn lemma_pass_descends(nodes: Seq<Node>, origin: u64, order: Seq<int>, index: int)
    requires
        is_clean(nodes, order),
        follows_openers(nodes, origin, order),
        forall|k: int|
            #![trigger order[k]]
            0 <= k < order.len() ==> descends(nodes, origin, order[k]),
        0 <= index,
    ensures
        follows_openers(nodes, origin, pass(nodes, origin, false, order, index)),
        forall|k: int|
            #![trigger pass(nodes, origin, false, order, index)[k]]
            0 <= k < pass(nodes, origin, false, order, index).len() ==> descends(
                nodes,
                origin,
                pass(nodes, origin, false, order, index)[k],
            ),
    decreases nodes.len() - index,
{
    if index < nodes.len() {
        if is_due(nodes, origin, false, order, index) {
            let next = order.push(index);
            assert(is_clean(nodes, next));
            assert(next.take(order.len() as int) =~= order);
            assert forall|k: int|
                #![trigger next[k]]
                0 <= k < next.len() implies opener_revoked(
                nodes,
                origin,
                next.take(k),
                next[k],
            ) by {
                if k < order.len() {
                    assert(next.take(k) =~= order.take(k));
                    assert(next[k] == order[k]);
                }
            }
            assert(descends(nodes, origin, index)) by {
                if nodes[index].opener == origin {
                    let chain = seq![index];
                    assert(is_descent(nodes, origin, chain));
                    assert(chain.last() == index);
                } else {
                    let k = choose|k: int|
                        #![trigger order[k]]
                        0 <= k < order.len() && nodes[order[k]].state == nodes[index].opener;
                    let upper = choose|chain: Seq<int>| #[trigger]
                        is_descent(nodes, origin, chain) && chain.last() == order[k];
                    let chain = upper.push(index);
                    assert(is_descent(nodes, origin, chain));
                    assert(chain.last() == index);
                }
            }
            assert forall|k: int| #![trigger next[k]] 0 <= k < next.len() implies descends(
                nodes,
                origin,
                next[k],
            ) by {
                if k < order.len() {
                    assert(next[k] == order[k]);
                }
            }
            lemma_pass_descends(nodes, origin, next, index + 1);
        } else {
            lemma_pass_descends(nodes, origin, order, index + 1);
        }
    }
}

/// Passes revoke only descendants, each after its opener.
proof fn lemma_passes_descend(nodes: Seq<Node>, origin: u64, count: nat)
    ensures
        follows_openers(nodes, origin, passes(nodes, origin, false, count)),
        forall|k: int|
            #![trigger passes(nodes, origin, false, count)[k]]
            0 <= k < passes(nodes, origin, false, count).len() ==> descends(
                nodes,
                origin,
                passes(nodes, origin, false, count)[k],
            ),
    decreases count,
{
    if count > 0 {
        let prior = (count - 1) as nat;
        lemma_passes_descend(nodes, origin, prior);
        lemma_passes_progress(nodes, origin, false, prior);
        lemma_pass_descends(nodes, origin, passes(nodes, origin, false, prior), 0);
    }
}

/// Every node of a chain is revoked by an order after which none is due.
proof fn lemma_chain_is_revoked(nodes: Seq<Node>, origin: u64, order: Seq<int>, chain: Seq<int>)
    requires
        is_descent(nodes, origin, chain),
        forall|i: int|
            0 <= i < nodes.len() ==> !#[trigger] is_due(nodes, origin, false, order, i),
    ensures
        order.contains(chain.last()),
    decreases chain.len(),
{
    let index = chain.last();
    assert(index == chain[chain.len() - 1]);
    assert(!is_due(nodes, origin, false, order, index));
    if chain.len() == 1 {
        assert(opener_revoked(nodes, origin, order, index));
    } else {
        let upper = chain.drop_last();
        assert(upper.last() == chain[chain.len() - 2]);
        assert forall|j: int, k: int|
            #![trigger upper[j], upper[k]]
            0 <= j && k == j + 1 && k < upper.len() implies nodes[upper[k]].opener
            == nodes[upper[j]].state by {
            assert(upper[j] == chain[j] && upper[k] == chain[k]);
        }
        assert(is_descent(nodes, origin, upper));
        lemma_chain_is_revoked(nodes, origin, order, upper);
        let k = order.index_of(upper.last());
        assert(nodes[order[k]].state == nodes[index].opener);
        assert(opener_revoked(nodes, origin, order, index));
    }
}

/// The revocation order lists exactly the live nodes that descend from the
/// closed browser, or every live node where the root was closed, each once;
/// and no node comes before the revoked node that opened it.
pub proof fn law_order_lists_the_revoked(nodes: Seq<Node>, origin: u64, whole: bool)
    ensures
        revocation_order(nodes, origin, whole).no_duplicates(),
        forall|i: int| #[trigger]
            revocation_order(nodes, origin, whole).contains(i) <==> is_revoked(
                nodes,
                origin,
                whole,
                i,
            ),
        !whole ==> follows_openers(nodes, origin, revocation_order(nodes, origin, whole)),
{
    let order = revocation_order(nodes, origin, whole);
    lemma_order_is_settled(nodes, origin, whole);
    assert forall|i: int| #[trigger] order.contains(i) implies is_revoked(
        nodes,
        origin,
        whole,
        i,
    ) by {
        let k = order.index_of(i);
        assert(order[k] == i);
        if !whole {
            lemma_passes_descend(nodes, origin, nodes.len());
        }
    }
    assert forall|i: int| is_revoked(nodes, origin, whole, i) implies #[trigger] order.contains(
        i,
    ) by {
        assert(!is_due(nodes, origin, whole, order, i));
        if !whole {
            let chain = choose|chain: Seq<int>| #[trigger]
                is_descent(nodes, origin, chain) && chain.last() == i;
            lemma_chain_is_revoked(nodes, origin, order, chain);
        }
    }
    if !whole {
        lemma_passes_descend(nodes, origin, nodes.len());
    }
}

/// Indices and the places that they stand for agree.
proof fn lemma_places(indices: Seq<usize>)
    ensures
        forall|i: usize| #[trigger]
            indices.contains(i) <==> places(indices).contains(i as int),
        places(indices).no_duplicates() ==> indices.no_duplicates(),
{
    let order = places(indices);
    assert forall|i: usize| #[trigger] indices.contains(i) implies order.contains(i as int) by {
        let k = indices.index_of(i);
        assert(order[k] == i as int);
    }
    assert forall|i: usize| order.contains(i as int) implies #[trigger] indices.contains(i) by {
        let k = order.index_of(i as int);
        assert(indices[k] == i);
    }
    if order.no_duplicates() {
        assert forall|j: int, k: int|
            0 <= j < indices.len() && 0 <= k < indices.len() && j != k implies indices[j]
            != indices[k] by {
            assert(order[j] != order[k]);
        }
    }
}

/// Whether `revoked` lists `origin` and then the browsers of the nodes in `order`.
spec fn lists(
    nodes: Seq<Node>,
    origin: u64,
    revoked: Seq<FrameNavigationState>,
    order: Seq<int>,
) -> bool {
    &&& revoked.len() == order.len() + 1
    &&& revoked[0].instance == origin
    &&& forall|k: int|
        #![trigger order[k]]
        0 <= k < order.len() ==> revoked[k + 1].instance == nodes[order[k]].state
}

/// The opener of a node is among the listed browsers exactly when it is revoked.
proof fn lemma_lists(
    nodes: Seq<Node>,
    origin: u64,
    revoked: Seq<FrameNavigationState>,
    order: Seq<int>,
    index: int,
)
    requires
        lists(nodes, origin, revoked, order),
    ensures
        opener_revoked(nodes, origin, order, index) <==> exists|k: int|
            #![trigger revoked[k]]
            0 <= k < revoked.len() && revoked[k].instance == nodes[index].opener,
{
    if nodes[index].opener == origin {
        assert(revoked[0].instance == nodes[index].opener);
    } else if opener_revoked(nodes, origin, order, index) {
        let k = choose|k: int|
            #![trigger order[k]]
            0 <= k < order.len() && nodes[order[k]].state == nodes[index].opener;
        assert(revoked[k + 1].instance == nodes[index].opener);
    }
    if exists|k: int|
        #![trigger revoked[k]]
        0 <= k < revoked.len() && revoked[k].instance == nodes[index].opener {
        let k = choose|k: int|
            #![trigger revoked[k]]
            0 <= k < revoked.len() && revoked[k].instance == nodes[index].opener;
        if k > 0 {
            assert(revoked[(k - 1) + 1].instance == nodes[order[k - 1]].state);
        }
    }
}

/// Marking one more popup amounts to one more place.
pub(crate) proof fn lemma_mark<N>(popups: Seq<Popup<N>>, order: Seq<int>, index: int)
    requires
        0 <= index < popups.len(),
    ensures
        mark(popups, order.push(index)) == mark(popups, order).update(
            index,
            Popup { closing: true, ..mark(popups, order)[index] },
        ),
{
    let next = order.push(index);
    assert forall|i: int| next.contains(i) <==> order.contains(i) || i == index by {
        if order.contains(i) {
            let k = order.index_of(i);
            assert(next[k] == i);
        }
        assert(next[order.len() as int] == index);
    }
    assert(mark(popups, next) =~= mark(popups, order).update(
        index,
        Popup { closing: true, ..mark(popups, order)[index] },
    ));
}

/// Whether `parent` is among `revoked`.
fn contains_browser(revoked: &Vec<FrameNavigationState>, parent: &FrameNavigationState) -> (r: bool)
    ensures
        r == exists|k: int|
            #![trigger revoked@[k]]
            0 <= k < revoked@.len() && revoked@[k].instance == parent.instance,
{
    let mut k: usize = 0;
    while k < revoked.len()
        invariant
            k <= revoked@.len(),
            forall|j: int|
                #![trigger revoked@[j]]
                0 <= j < k ==> revoked@[j].instance != parent.instance,
        decreases revoked@.len() - k,
    {
        if revoked[k].is_same_browser(parent) {
            return true;
        }
        k += 1;
    }
    false
}

/// Marks as closing every live popup that descends from the browser of `state`,
/// or every live popup when the root was closed, and returns their places in the
/// order in which they were found. The caller closes the state of each of them
/// before it asks for any native close.
///
/// The list may hold a popup before its opener: passes are made over it until
/// one finds nothing.
pub fn revoke_descendants<N>(
    state: &FrameNavigationState,
    root_closed: bool,
    popups: &mut Vec<Popup<N>>,
) -> (indices: Vec<usize>)
    ensures
        places(indices@) == revocation_order(nodes_of(old(popups)@), state.instance, root_closed),
        indices@.no_duplicates(),
        forall|i: usize| #[trigger]
            indices@.contains(i) <==> is_revoked(
                nodes_of(old(popups)@),
                state.instance,
                root_closed,
                i as int,
            ),
        final(popups)@ == mark(old(popups)@, places(indices@)),
{
    let ghost nodes = nodes_of(popups@);
    let ghost origin = state.instance;
    let ghost mut count: nat = 0;
    let mut revoked: Vec<FrameNavigationState> = vec![*state];
    let mut indices: Vec<usize> = Vec::new();
    assert(places(indices@) =~= passes(nodes, origin, root_closed, 0));
    assert(popups@ =~= mark(popups@, places(indices@)));
    loop
        invariant
            nodes == nodes_of(old(popups)@),
            origin == state.instance,
            places(indices@) == passes(nodes, origin, root_closed, count),
            count <= indices@.len(),
            lists(nodes, origin, revoked@, places(indices@)),
            popups@ == mark(old(popups)@, places(indices@)),
            popups@.len() == nodes.len(),
        decreases nodes.len() - indices@.len(),
    {
        let before: usize = indices.len();
        let ghost start = places(indices@);
        proof {
            lemma_passes_progress(nodes, origin, root_closed, count);
            lemma_clean_is_bounded(nodes, start);
        }
        let mut index: usize = 0;
        while index < popups.len()
            invariant
                index <= popups@.len(),
                nodes == nodes_of(old(popups)@),
                origin == state.instance,
                before <= indices@.len(),
                is_clean(nodes, places(indices@)),
                pass(nodes, origin, root_closed, start, 0) == pass(
                    nodes,
                    origin,
                    root_closed,
                    places(indices@),
                    index as int,
                ),
                lists(nodes, origin, revoked@, places(indices@)),
                popups@ == mark(old(popups)@, places(indices@)),
                popups@.len() == nodes.len(),
            decreases popups@.len() - index,
        {
            let ghost order = places(indices@);
            let state = popups[index].state;
            let opener = popups[index].opener;
            let opener_gone = root_closed || contains_browser(&revoked, &opener);
            proof {
                assert(popups@[index as int].closing == (nodes[index as int].closing
                    || order.contains(index as int)));
                lemma_lists(nodes, origin, revoked@, order, index as int);
            }
            if !popups[index].closing && opener_gone {
                assert(is_due(nodes, origin, root_closed, order, index as int));
                popups[index].closing = true;
                revoked.push(state);
                indices.push(index);
                proof {
                    assert(places(indices@) =~= order.push(index as int));
                    lemma_mark(old(popups)@, order, index as int);
                }
            }
            index += 1;
        }
        if indices.len() == before {
            proof {
                let order = places(indices@);
                lemma_pass_extends(nodes, origin, root_closed, start, 0);
                lemma_idle_pass(nodes, origin, root_closed, start, 0);
                lemma_clean_is_bounded(nodes, order);
                lemma_passes_settle(nodes, origin, root_closed, count, nodes.len());
                law_order_lists_the_revoked(nodes, origin, root_closed);
                lemma_places(indices@);
            }
            return indices;
        }
        proof {
            count = count + 1;
            lemma_passes_progress(nodes, origin, root_closed, count);
            lemma_clean_is_bounded(nodes, places(indices@));
        }
    }
}

/// A descent carries over to another list along `image`, where the nodes agree.
proof fn lemma_descent_carries_over(
    from: Seq<Node>,
    to: Seq<Node>,
    image: Seq<int>,
    origin: u64,
    index: int,
)
    requires
        image.len() == from.len(),
        forall|i: int|
            #![trigger image[i]]
            0 <= i < from.len() ==> 0 <= image[i] < to.len() && to[image[i]] == from[i],
        0 <= index < from.len(),
        descends(from, origin, index),
    ensures
        descends(to, origin, image[index]),
{
    let chain = choose|chain: Seq<int>| #[trigger]
        is_descent(from, origin, chain) && chain.last() == index;
    let carried = chain.map_values(|i: int| image[i]);
    assert forall|k: int| #![trigger carried[k]] 0 <= k < carried.len() implies 0 <= carried[k]
        < to.len() && !to[carried[k]].closing && to[carried[k]] == from[chain[k]] by {
        assert(carried[k] == image[chain[k]]);
    }
    assert forall|j: int, k: int|
        #![trigger carried[j], carried[k]]
        0 <= j && k == j + 1 && k < carried.len() implies to[carried[k]].opener
        == to[carried[j]].state by {
        assert(from[chain[k]].opener == from[chain[j]].state);
    }
    assert(is_descent(to, origin, carried));
    assert(carried.last() == image[index]);
}

/// Which popups are revoked does not depend on where they stand in the list:
/// rearranging the list rearranges the revoked ones with it.
pub proof fn law_arrangement_does_not_matter(
    nodes: Seq<Node>,
    rearranged: Seq<Node>,
    source: Seq<int>,
    target: Seq<int>,
    origin: u64,
    whole: bool,
    index: int,
)
    requires
        source.len() == rearranged.len(),
        target.len() == nodes.len(),
        forall|i: int|
            #![trigger source[i]]
            0 <= i < rearranged.len() ==> 0 <= source[i] < nodes.len() && nodes[source[i]]
                == rearranged[i] && target[source[i]] == i,
        forall|i: int|
            #![trigger target[i]]
            0 <= i < nodes.len() ==> 0 <= target[i] < rearranged.len()
                && rearranged[target[i]] == nodes[i] && source[target[i]] == i,
        0 <= index < rearranged.len(),
    ensures
        revocation_order(rearranged, origin, whole).contains(index) <==> revocation_order(
            nodes,
            origin,
            whole,
        ).contains(source[index]),
{
    law_order_lists_the_revoked(nodes, origin, whole);
    law_order_lists_the_revoked(rearranged, origin, whole);
    if !whole {
        if descends(rearranged, origin, index) {
            lemma_descent_carries_over(rearranged, nodes, source, origin, index);
        }
        if descends(nodes, origin, source[index]) {
            lemma_descent_carries_over(nodes, rearranged, target, origin, source[index]);
        }
    }
}

/// Revoking is done once: with the revoked popups marked, the same close revokes
/// nothing more.
pub proof fn law_revoking_again_finds_nothing<N>(
    popups: Seq<Popup<N>>,
    origin: u64,
    whole: bool,
)
    ensures
        revocation_order(
            nodes_of(mark(popups, revocation_order(nodes_of(popups), origin, whole))),
            origin,
            whole,
        ).len() == 0,
{
    let nodes = nodes_of(popups);
    let order = revocation_order(nodes, origin, whole);
    let after = nodes_of(mark(popups, order));
    let again = revocation_order(after, origin, whole);
    law_order_lists_the_revoked(nodes, origin, whole);
    law_order_lists_the_revoked(after, origin, whole);
    assert forall|i: int| 0 <= i < nodes.len() implies after[i] == (Node {
        closing: nodes[i].closing || order.contains(i),
        ..#[trigger] nodes[i]
    }) by {}
    if again.len() > 0 {
        let index = again[0];
        assert(again.contains(index));
        if !whole {
            let chain = choose|chain: Seq<int>| #[trigger]
                is_descent(after, origin, chain) && chain.last() == index;
            assert forall|k: int| #![trigger chain[k]] 0 <= k < chain.len() implies 0 <= chain[k]
                < nodes.len() && !nodes[chain[k]].closing && !after[chain[k]].closing
                && nodes[chain[k]].opener == after[chain[k]].opener && nodes[chain[k]].state
                == after[chain[k]].state by {}
            assert(is_descent(nodes, origin, chain));
            assert(order.contains(index));
            assert(chain[chain.len() - 1] == index);
        }
        assert(is_revoked(nodes, origin, whole, index));
        assert(after[index].closing);
        assert(false);
    }
}

/// Every live popup below a closed browser is revoked, each once, and nothing but its
/// closing flag changes: with the root closed no live popup is left; else a popup that
/// was opened by the closed browser, or by a popup that is revoked, is closing in the end.
pub proof fn law_every_descendant_is_revoked<N>(
    popups: Seq<Popup<N>>,
    origin: u64,
    whole: bool,
    order: Seq<int>,
)
    requires
        order == revocation_order(nodes_of(popups), origin, whole),
    ensures
        ({
            let after = mark(popups, order);
            &&& forall|j: int, k: int|
                #![trigger order[j], order[k]]
                0 <= j < k < order.len() ==> order[j] != order[k]
            &&& forall|k: int|
                #![trigger order[k]]
                0 <= k < order.len() ==> {
                    &&& 0 <= order[k] < popups.len()
                    &&& !popups[order[k]].closing
                    &&& after[order[k]].closing
                }
            &&& after.len() == popups.len()
            &&& forall|i: int|
                #![trigger after[i]]
                0 <= i < popups.len() ==> {
                    &&& after[i].state == popups[i].state
                    &&& after[i].opener == popups[i].opener
                    &&& after[i].native == popups[i].native
                    &&& popups[i].closing ==> after[i].closing
                    &&& after[i].closing && !popups[i].closing ==> order.contains(i)
                    &&& whole ==> after[i].closing
                    &&& popups[i].opener.instance == origin ==> after[i].closing
                }
            &&& forall|i: int, j: int|
                #![trigger after[i], after[j]]
                0 <= i < popups.len() && 0 <= j < popups.len() && !popups[j].closing
                    && after[j].closing && popups[i].opener.instance == popups[j].state.instance
                    ==> after[i].closing
        }),
{
    let nodes = nodes_of(popups);
    let after = mark(popups, order);
    lemma_order_is_settled(nodes, origin, whole);
    assert forall|i: int| 0 <= i < popups.len() implies {
        &&& #[trigger] after[i] == (Popup {
            closing: popups[i].closing || order.contains(i),
            ..popups[i]
        })
        &&& nodes[i] == popups[i].node()
        &&& !is_due(nodes, origin, whole, order, i)
    } by {}
    assert forall|i: int, j: int|
        #![trigger after[i], after[j]]
        0 <= i < popups.len() && 0 <= j < popups.len() && !popups[j].closing && after[j].closing
            && popups[i].opener.instance == popups[j].state.instance implies after[i].closing by {
        assert(order.contains(j));
        let k = order.index_of(j);
        assert(nodes[order[k]].state == nodes[i].opener);
        assert(opener_revoked(nodes, origin, order, i));
        assert(!is_due(nodes, origin, whole, order, i));
    }
    assert forall|i: int| #![trigger after[i]] 0 <= i < popups.len() implies {
        &&& whole ==> after[i].closing
        &&& popups[i].opener.instance == origin ==> after[i].closing
    } by {
        assert(!is_due(nodes, origin, whole, order, i));
    }
    assert forall|k: int| #![trigger order[k]] 0 <= k < order.len() implies {
        &&& 0 <= order[k] < popups.len()
        &&& !popups[order[k]].closing
        &&& after[order[k]].closing
    } by {
        assert(order.contains(order[k]));
        assert(nodes[order[k]] == popups[order[k]].node());
        assert(after[order[k]].closing);
    }
}

/// Nothing but descendants is revoked: whatever set of browsers holds the closed one, and
/// with the opener of a live popup that popup's browser, holds the opener of every revoked
/// popup.
pub proof fn law_only_descendants_are_revoked<N>(
    popups: Seq<Popup<N>>,
    origin: u64,
    order: Seq<int>,
    below: spec_fn(u64) -> bool,
    k: int,
)
    requires
        order == revocation_order(nodes_of(popups), origin, false),
        below(origin),
        forall|i: int|
            #![trigger popups[i]]
            0 <= i < popups.len() && !popups[i].closing && below(popups[i].opener.instance)
                ==> below(popups[i].state.instance),
        0 <= k < order.len(),
    ensures
        below(popups[order[k]].opener.instance),
    decreases k,
{
    let nodes = nodes_of(popups);
    law_order_lists_the_revoked(nodes, origin, false);
    let index = order[k];
    assert(order.contains(index));
    assert(opener_revoked(nodes, origin, order.take(k), index));
    assert(nodes[index] == popups[index].node());
    if nodes[index].opener != origin {
        let upper = order.take(k);
        let j = choose|j: int|
            #![trigger upper[j]]
            0 <= j < upper.len() && nodes[upper[j]].state == nodes[index].opener;
        assert(upper[j] == order[j]);
        law_only_descendants_are_revoked(popups, origin, order, below, j);
        law_every_descendant_is_revoked(popups, origin, false, order);
        assert(nodes[order[j]] == popups[order[j]].node());
    }
}

/// What one pass appends stands in the order of the list; and a live node that it leaves
/// behind had no revoked opener when the pass came to it.
proof fn lemma_pass_in_detail(
    nodes: Seq<Node>,
    origin: u64,
    whole: bool,
    order: Seq<int>,
    index: int,
)
    requires
        is_clean(nodes, order),
        0 <= index,
    ensures
        ({
            let end = pass(nodes, origin, whole, order, index);
            &&& forall|k: int|
                #![trigger end[k]]
                order.len() <= k < end.len() ==> index <= end[k] < nodes.len()
            &&& forall|j: int, k: int|
                #![trigger end[j], end[k]]
                order.len() <= j < k < end.len() ==> end[j] < end[k]
            &&& forall|i: int|
                #![trigger nodes[i]]
                index <= i < nodes.len() && !nodes[i].closing && !end.contains(i) ==> {
                    &&& !whole
                    &&& nodes[i].opener != origin
                    &&& forall|r: int|
                        #![trigger end[r]]
                        0 <= r < end.len() && nodes[end[r]].state == nodes[i].opener ==> r
                            >= order.len() && end[r] > i
                }
        }),
    decreases nodes.len() - index,
{
    let end = pass(nodes, origin, whole, order, index);
    lemma_pass_extends(nodes, origin, whole, order, index);
    if index < nodes.len() {
        let next = if is_due(nodes, origin, whole, order, index) {
            order.push(index)
        } else {
            order
        };
        assert(is_clean(nodes, next));
        lemma_pass_in_detail(nodes, origin, whole, next, index + 1);
        lemma_pass_extends(nodes, origin, whole, next, index + 1);
        assert(end == pass(nodes, origin, whole, next, index + 1));
        assert forall|k: int| 0 <= k < next.len() implies #[trigger] end[k] == next[k] by {
            assert(end.take(next.len() as int)[k] == end[k]);
        }
        assert forall|i: int|
            #![trigger nodes[i]]
            index <= i < nodes.len() && !nodes[i].closing && !end.contains(i) implies {
            &&& !whole
            &&& nodes[i].opener != origin
            &&& forall|r: int|
                #![trigger end[r]]
                0 <= r < end.len() && nodes[end[r]].state == nodes[i].opener ==> r
                    >= order.len() && end[r] > i
        } by {
            if i == index {
                if is_due(nodes, origin, whole, order, index) {
                    assert(end[order.len() as int] == index);
                    assert(end.contains(index));
                }
                assert(!order.contains(index)) by {
                    if order.contains(index) {
                        let k = order.index_of(index);
                        assert(end[k] == index);
                    }
                }
                assert(!opener_revoked(nodes, origin, order, index));
                assert forall|r: int|
                    #![trigger end[r]]
                    0 <= r < end.len() && nodes[end[r]].state == nodes[i].opener implies r
                    >= order.len() && end[r] > i by {
                    if r < order.len() {
                        assert(end[r] == order[r]);
                    }
                }
            } else {
                assert forall|r: int|
                    #![trigger end[r]]
                    0 <= r < end.len() && nodes[end[r]].state == nodes[i].opener implies r
                    >= order.len() && end[r] > i by {}
            }
        }
    }
}

/// Where the order steps back, a pass ended.
proof fn lemma_step_back_ends_a_pass(
    nodes: Seq<Node>,
    origin: u64,
    whole: bool,
    count: nat,
    w: int,
) -> (ended: nat)
    requires
        0 < w < passes(nodes, origin, whole, count).len(),
        passes(nodes, origin, whole, count)[w - 1] > passes(nodes, origin, whole, count)[w],
    ensures
        0 < ended < count,
        passes(nodes, origin, whole, ended) =~= passes(nodes, origin, whole, count).take(w),
    decreases count,
{
    let order = passes(nodes, origin, whole, count);
    let prior = (count - 1) as nat;
    let before = passes(nodes, origin, whole, prior);
    lemma_passes_progress(nodes, origin, whole, prior);
    lemma_pass_in_detail(nodes, origin, whole, before, 0);
    lemma_pass_extends(nodes, origin, whole, before, 0);
    assert forall|k: int| 0 <= k < before.len() implies #[trigger] before[k] == order[k] by {
        assert(order.take(before.len() as int)[k] == order[k]);
    }
    if w < before.len() {
        assert(before[w - 1] == order[w - 1] && before[w] == order[w]);
        let ended = lemma_step_back_ends_a_pass(nodes, origin, whole, prior, w);
        assert(before.take(w) =~= order.take(w));
        ended
    } else if w == before.len() {
        assert(order.take(w) =~= before);
        prior
    } else {
        assert(order[w - 1] < order[w]);
        prior
    }
}

/// Whether `order` is that of a search which goes over the list from its beginning again
/// and again and takes each popup as soon as it comes to it with its opener gone:
/// a popup comes after its opener, and one that was left for a later round (some place
/// before it in the order steps back) had its opener taken behind it, later in the round
/// that ended there.
pub open spec fn is_search_order<N>(popups: Seq<Popup<N>>, origin: u64, order: Seq<int>) -> bool {
    &&& forall|q: int|
        #![trigger order[q]]
        0 <= q < order.len() ==> popups[order[q]].opener.instance == origin || exists|r: int|
            #![trigger order[r]]
            0 <= r < q && popups[order[r]].state.instance == popups[order[q]].opener.instance
    &&& forall|v: int, w: int, q: int|
        #![trigger order[v], order[w], order[q]]
        0 <= v && w == v + 1 && w <= q < order.len() && order[v] > order[w] ==> {
            &&& popups[order[q]].opener.instance != origin
            &&& forall|r: int|
                #![trigger order[r]]
                0 <= r < w && popups[order[r]].state.instance == popups[order[q]].opener.instance
                    ==> order[r] > order[q] && (forall|x: int, y: int|
                    #![trigger order[x], order[y]]
                    r <= x < y < w ==> order[x] < order[y])
        }
}

/// The revoked popups come in the order of a repeated search of the list; with the root
/// closed, in the order of the list.
pub proof fn law_revocation_goes_by_the_list<N>(
    popups: Seq<Popup<N>>,
    origin: u64,
    whole: bool,
    order: Seq<int>,
)
    requires
        order == revocation_order(nodes_of(popups), origin, whole),
    ensures
        whole ==> forall|j: int, k: int|
            #![trigger order[j], order[k]]
            0 <= j < k < order.len() ==> order[j] < order[k],
        !whole ==> is_search_order(popups, origin, order),
{
    let nodes = nodes_of(popups);
    law_order_lists_the_revoked(nodes, origin, whole);
    law_every_descendant_is_revoked(popups, origin, whole, order);
    if whole {
        assert forall|j: int, k: int|
            #![trigger order[j], order[k]]
            0 <= j < k < order.len() implies order[j] < order[k] by {
            lemma_whole_is_ascending(nodes, origin, nodes.len(), j, k);
        }
    } else {
        assert forall|q: int| #![trigger order[q]] 0 <= q < order.len() implies {
            popups[order[q]].opener.instance == origin || exists|r: int|
                #![trigger order[r]]
                0 <= r < q && popups[order[r]].state.instance
                    == popups[order[q]].opener.instance
        } by {
            let upper = order.take(q);
            assert(opener_revoked(nodes, origin, upper, order[q]));
            assert(nodes[order[q]] == popups[order[q]].node());
            if nodes[order[q]].opener != origin {
                let r = choose|r: int|
                    #![trigger upper[r]]
                    0 <= r < upper.len() && nodes[upper[r]].state == nodes[order[q]].opener;
                assert(upper[r] == order[r]);
                assert(nodes[order[r]] == popups[order[r]].node());
                assert(popups[order[r]].state.instance == popups[order[q]].opener.instance);
            }
        }
        assert forall|v: int, w: int, q: int|
            #![trigger order[v], order[w], order[q]]
            0 <= v && w == v + 1 && w <= q < order.len() && order[v] > order[w] implies {
            &&& popups[order[q]].opener.instance != origin
            &&& forall|r: int|
                #![trigger order[r]]
                0 <= r < w && popups[order[r]].state.instance
                    == popups[order[q]].opener.instance ==> order[r] > order[q] && (forall|
                    x: int,
                    y: int,
                |
                    #![trigger order[x], order[y]]
                    r <= x < y < w ==> order[x] < order[y])
        } by {
            let ended = lemma_step_back_ends_a_pass(nodes, origin, false, nodes.len(), w);
            let end = passes(nodes, origin, false, ended);
            let start = passes(nodes, origin, false, (ended - 1) as nat);
            lemma_passes_progress(nodes, origin, false, (ended - 1) as nat);
            lemma_pass_in_detail(nodes, origin, false, start, 0);
            assert(end == order.take(w));
            assert forall|k: int| 0 <= k < w implies #[trigger] order[k] == end[k] by {}
            let index = order[q];
            assert(!end.contains(index)) by {
                if end.contains(index) {
                    let k = end.index_of(index);
                    assert(order[k] == index);
                }
            }
            assert(nodes[index] == popups[index].node());
            assert forall|r: int|
                #![trigger order[r]]
                0 <= r < w && popups[order[r]].state.instance
                    == popups[order[q]].opener.instance implies order[r] > order[q] && (forall|
                x: int,
                y: int,
            |
                #![trigger order[x], order[y]]
                r <= x < y < w ==> order[x] < order[y]) by {
                assert(order[r] == end[r]);
                assert(nodes[end[r]] == popups[end[r]].node());
                assert forall|x: int, y: int|
                    #![trigger order[x], order[y]]
                    r <= x < y < w implies order[x] < order[y] by {
                    assert(order[x] == end[x] && order[y] == end[y]);
                }
            }
        }
    }
}

proof fn lemma_whole_is_ascending(nodes: Seq<Node>, origin: u64, count: nat, j: int, k: int)
    requires
        0 <= j < k < passes(nodes, origin, true, count).len(),
    ensures
        passes(nodes, origin, true, count)[j] < passes(nodes, origin, true, count)[k],
    decreases count,
{
    let order = passes(nodes, origin, true, count);
    let prior = (count - 1) as nat;
    let before = passes(nodes, origin, true, prior);
    lemma_passes_progress(nodes, origin, true, prior);
    lemma_pass_in_detail(nodes, origin, true, before, 0);
    lemma_pass_extends(nodes, origin, true, before, 0);
    assert forall|m: int| 0 <= m < before.len() implies #[trigger] before[m] == order[m] by {
        assert(order.take(before.len() as int)[m] == order[m]);
    }
    if k < before.len() {
        lemma_whole_is_ascending(nodes, origin, prior, j, k);
        assert(before[j] == order[j] && before[k] == order[k]);
    } else if j < before.len() {
        // One pass takes every live node: a second has nothing left.
        let earlier = (prior - 1) as nat;
        let start = passes(nodes, origin, true, earlier);
        lemma_passes_progress(nodes, origin, true, earlier);
        lemma_pass_in_detail(nodes, origin, true, start, 0);
        let index = order[k];
        assert(before.contains(index));
        let m = before.index_of(index);
        assert(order[m] == index);
        lemma_passes_progress(nodes, origin, true, count);
        assert(false);
    }
}

/// The indices that are returned are the places of the revoked popups.
pub proof fn law_indices_are_places(indices: Seq<usize>)
    ensures
        places(indices).len() == indices.len(),
        forall|k: int|
            #![trigger indices[k]]
            #![trigger places(indices)[k]]
            0 <= k < indices.len() ==> places(indices)[k] == indices[k],
{
}

} // verus!
