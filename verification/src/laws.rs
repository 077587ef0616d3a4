//! What holds of the library as a whole.

use crate::control;
use crate::control::ControlState;
use crate::control::UserError;
use crate::frame::Priority;
use crate::frame::StreamDependency;
use crate::frame::StreamId;
use crate::order;
use crate::order::Entry;
use crate::store;
use crate::store::StoreView;
use crate::sync;
use crate::sync::Locked;
use crate::tree;
use crate::tree::Tree;
use parking_lot::Mutex;
use vstd::prelude::*;

verus! {

/// The chain of a store is sorted, and each of its streams stands in it once.
pub open spec fn valid(store: StoreView) -> bool {
    &&& order::sorted(store.order)
    &&& tree::linked(store.order)
}

/// Each link of a live stream stands in the band that the stream asked for.
pub open spec fn agrees(store: StoreView) -> bool {
    forall|i: int|
        0 <= i < store.order.len() && store.is_live((#[trigger] store.order[i]).0)
            ==> store.request_priority(store.order[i].0) == Some(store.order[i].1)
}

/// A new link makes the chain hold one stream more, and no other.
proof fn lemma_insert_linked(order: Seq<Entry>, place: int, id: StreamId, weight: u8)
    requires
        tree::linked(order),
        0 <= place <= order.len(),
        id != StreamId::zero(),
        !order::holds(order, id),
    ensures
        tree::linked(order.insert(place, (id, weight))),
{
    let longer = order.insert(place, (id, weight));
    assert forall|i: int, j: int|
        #![trigger longer[i], longer[j]]
        0 <= i < j < longer.len() implies longer[i].0 != longer[j].0 by {
        let a = if i < place { i } else { i - 1 };
        let b = if j < place { j } else { j - 1 };
        if i == place {
            assert(longer[j] == order[b]);
        } else if j == place {
            assert(longer[i] == order[a]);
        } else {
            assert(longer[i] == order[a] && longer[j] == order[b]);
        }
    }
    assert forall|i: int| 0 <= i < longer.len() implies (#[trigger] longer[i]).0
        != StreamId::zero() by {
        if i != place {
            assert(longer[i] == order[if i < place { i } else { i - 1 }]);
        }
    }
}

/// Without one of its links, the chain holds that stream no longer.
proof fn lemma_remove_linked(order: Seq<Entry>, at: int)
    requires
        tree::linked(order),
        0 <= at < order.len(),
    ensures
        tree::linked(order.remove(at)),
        !order::holds(order.remove(at), order[at].0),
{
    let rest = order.remove(at);
    assert forall|i: int| 0 <= i < rest.len() implies (#[trigger] rest[i]).0 != order[at].0
        && rest[i].0 != StreamId::zero() by {
        let j = if i < at { i } else { i + 1 };
        assert(rest[i] == order[j]);
        assert(order[j].0 != order[at].0);
    }
    assert forall|i: int, j: int|
        #![trigger rest[i], rest[j]]
        0 <= i < j < rest.len() implies rest[i].0 != rest[j].0 by {
        assert(rest[i] == order[if i < at { i } else { i + 1 }]);
        assert(rest[j] == order[if j < at { j } else { j + 1 }]);
    }
}

/// Nothing is left out where everything is to be kept.
proof fn lemma_filter_all(order: Seq<Entry>, keep: spec_fn(Entry) -> bool)
    requires
        forall|i: int| 0 <= i < order.len() ==> keep(#[trigger] order[i]),
    ensures
        order.filter(keep) == order,
    decreases order.len(),
{
    reveal(Seq::filter);
    if order.len() > 0 {
        let front = order.drop_last();
        assert forall|i: int| 0 <= i < front.len() implies keep(#[trigger] front[i]) by {
            assert(front[i] == order[i]);
        }
        lemma_filter_all(front, keep);
        assert(order =~= front.push(order.last()));
    } else {
        assert(order.filter(keep) =~= order);
    }
}

/// What is left out depends on the links alone.
proof fn lemma_filter_same(
    order: Seq<Entry>,
    one: spec_fn(Entry) -> bool,
    other: spec_fn(Entry) -> bool,
)
    requires
        forall|i: int| 0 <= i < order.len() ==> one(#[trigger] order[i]) == other(order[i]),
    ensures
        order.filter(one) == order.filter(other),
    decreases order.len(),
{
    reveal(Seq::filter);
    if order.len() > 0 {
        let front = order.drop_last();
        assert forall|i: int| 0 <= i < front.len() implies one(#[trigger] front[i]) == other(
            front[i],
        ) by {
            assert(front[i] == order[i]);
        }
        lemma_filter_same(front, one, other);
    } else {
        assert(order.filter(one) =~= order.filter(other));
    }
}

/// Pruning a valid store leaves a chain of live streams that is sorted and linked.
proof fn lemma_chain(store: StoreView)
    requires
        valid(store),
    ensures
        order::sorted(store.chain()),
        tree::linked(store.chain()),
        forall|i: int| 0 <= i < store.chain().len() ==> store.is_live((#[trigger] store.chain()[i]).0),
        agrees(store) ==> agrees(store.pruned()),
{
    let keep = store::live_links(store.streams);
    let chain = store.chain();
    order::lemma_filter(store.order, keep);
    assert forall|i: int| 0 <= i < chain.len() implies store.is_live((#[trigger] chain[i]).0)
        && chain[i].0 != StreamId::zero() by {
        assert(keep(chain[i]));
        let j = choose|j: int| 0 <= j < store.order.len() && store.order[j] == chain[i];
        assert(store.order[j].0 != StreamId::zero());
    }
    if agrees(store) {
        assert forall|i: int| 0 <= i < chain.len() && store.is_live((#[trigger] chain[i]).0) implies
            store.request_priority(chain[i].0) == Some(chain[i].1) by {
            let j = choose|j: int| 0 <= j < store.order.len() && store.order[j] == chain[i];
            assert(store.is_live(store.order[j].0));
        }
    }
}

/// Where the link at `at` goes by moving to the band of `weight`, and which parent it gets there.
pub proof fn lemma_move(order: Seq<Entry>, at: int, weight: u8)
    requires
        order::sorted(order),
        tree::linked(order),
        0 <= at < order.len(),
    ensures
        ({
            let rest = order.remove(at);
            let place = order::band_end(rest, weight);
            &&& 0 <= place <= rest.len()
            &&& order::new_parent(order, at, weight) == order::parent_at(rest, place)
            &&& order::parent_at(order, at) == order::parent_at(rest, at)
            &&& order::parent_at(order, at) == order::parent_at(rest, place) <==> at == place
            &&& order::moved(order, at, weight)[place] == (order[at].0, weight)
            &&& order::moved(order, at, weight).remove(place) == rest
        }),
{
    let id = order[at].0;
    let rest = order.remove(at);
    let place = order::band_end(rest, weight);
    let end = order::band_end(order, weight);
    order::lemma_band_end(rest, weight);
    order::lemma_band_end(order, weight);
    lemma_remove_linked(order, at);
    assert forall|i: int| 0 <= i < rest.len() implies #[trigger] rest[i] == order[if i < at {
        i
    } else {
        i + 1
    }] by {}
    // The border lies one place nearer where the link itself stood before it.
    let border = if at < end { end - 1 } else { end };
    assert(place == border) by {
        if border > 0 {
            if at < end {
                if at == end - 1 {
                    assert(rest[border - 1] == order[at - 1]);
                    assert(order[at - 1].1 >= order[at].1);
                } else {
                    assert(rest[border - 1] == order[end - 1]);
                }
            } else {
                assert(rest[border - 1] == order[end - 1]);
            }
        }
        assert forall|i: int| border <= i < rest.len() implies rest[i].1 < weight by {
            assert(rest[i] == order[if i < at { i } else { i + 1 }]);
        }
        order::lemma_band_end_unique(rest, weight, border);
    }
    if end > 0 && end - 1 != at {
        assert(order[end - 1].0 != order[at].0);
    }
    assert(id != StreamId::zero());
    if at != place {
        if at > 0 && place > 0 {
            assert(rest[at - 1].0 != rest[place - 1].0);
        } else if at > 0 {
            assert(rest[at - 1].0 != StreamId::zero());
        } else {
            assert(rest[place - 1].0 != StreamId::zero());
        }
    }
    assert(order::moved(order, at, weight).remove(place) =~= rest);
}

/// A move keeps the same streams in the chain.
proof fn lemma_move_members(order: Seq<Entry>, at: int, weight: u8, other: StreamId)
    requires
        0 <= at < order.len(),
    ensures
        order::holds(order::moved(order, at, weight), other) == order::holds(order, other),
{
    let rest = order.remove(at);
    let place = order::band_end(rest, weight);
    let after = order::moved(order, at, weight);
    order::lemma_band_end(rest, weight);
    if order::holds(after, other) {
        let i = choose|i: int| 0 <= i < after.len() && (#[trigger] after[i]).0 == other;
        if i == place {
            assert(order[at].0 == other);
        } else {
            let j = if i < place { i } else { i - 1 };
            assert(after[i] == rest[j]);
            assert(order[if j < at { j } else { j + 1 }].0 == other);
        }
    }
    if order::holds(order, other) {
        let i = choose|i: int| 0 <= i < order.len() && (#[trigger] order[i]).0 == other;
        if i == at {
            assert(after[place].0 == other);
        } else {
            let j = if i < at { i } else { i - 1 };
            assert(rest[j] == order[i]);
            assert(after[if j < place { j } else { j + 1 }].0 == other);
        }
    }
}

/// A linked chain holds a stream at one place only.
proof fn lemma_position_is(order: Seq<Entry>, id: StreamId, at: int)
    requires
        order::distinct(order),
        0 <= at < order.len(),
        order[at].0 == id,
    ensures
        order::position(order, id) == Some(at),
{
    order::lemma_position(order, id);
    if let Some(first) = order::position(order, id) {
        if first != at {
            assert(order[first].0 != order[at].0);
        }
    }
}

/// Leaving one stream more out takes just its link out.
proof fn lemma_filter_without(
    order: Seq<Entry>,
    keep: spec_fn(Entry) -> bool,
    less: spec_fn(Entry) -> bool,
    id: StreamId,
)
    requires
        order::distinct(order),
        forall|entry: Entry| #[trigger] less(entry) == (keep(entry) && entry.0 != id),
    ensures
        match order::position(order.filter(keep), id) {
            Some(at) => order.filter(less) == order.filter(keep).remove(at),
            None => order.filter(less) == order.filter(keep),
        },
    decreases order.len(),
{
    reveal(Seq::filter);
    if order.len() > 0 {
        let front = order.drop_last();
        let last = order.last();
        let kept = front.filter(keep);
        assert forall|i: int, j: int|
            #![trigger front[i], front[j]]
            0 <= i < j < front.len() implies front[i].0 != front[j].0 by {
            assert(front[i] == order[i] && front[j] == order[j]);
        }
        lemma_filter_without(front, keep, less, id);
        order::lemma_position(kept, id);
        assert(kept.push(last).drop_last() =~= kept);
        if keep(last) && last.0 == id {
            if let Some(at) = order::position(kept, id) {
                order::lemma_filter(front, keep);
                let j = choose|j: int| 0 <= j < front.len() && front[j] == kept[at];
                assert(order[j].0 != order[order.len() - 1].0);
            }
            assert(kept.push(last).remove(kept.len() as int) =~= kept);
        } else if keep(last) {
            if let Some(at) = order::position(kept, id) {
                assert(kept.push(last).remove(at) =~= kept.remove(at).push(last));
            }
        }
    } else {
        assert(order.filter(less) =~= order.filter(keep));
    }
}

/// Closing a stream takes its link, and no other, out of the chain.
proof fn lemma_closed_chain(store: StoreView, id: StreamId)
    requires
        valid(store),
    ensures
        match order::position(store.chain(), id) {
            Some(at) => store.closed(id).chain() == store.chain().remove(at),
            None => store.closed(id).chain() == store.chain(),
        },
{
    if store.streams.contains_key(id) {
        lemma_filter_without(
            store.order,
            store::live_links(store.streams),
            store::live_links(store.closed(id).streams),
            id,
        );
    } else {
        order::lemma_position(store.chain(), id);
        lemma_chain(store);
    }
}

/// Forgetting a stream takes its link, and no other, out of the chain.
proof fn lemma_removed_chain(store: StoreView, id: StreamId)
    requires
        valid(store),
    ensures
        match order::position(store.chain(), id) {
            Some(at) => store.removed(id).chain() == store.chain().remove(at),
            None => store.removed(id).chain() == store.chain(),
        },
{
    lemma_filter_without(
        store.order,
        store::live_links(store.streams),
        store::live_links(store.removed(id).streams),
        id,
    );
}

/// A new weight closes no stream.
proof fn lemma_requested_live(store: StoreView, id: StreamId, weight: u8)
    requires
        store.is_live(id),
    ensures
        store::live_links(store.requested(id, weight).streams) == store::live_links(store.streams),
        forall|other: StreamId| #[trigger]
            store.requested(id, weight).is_live(other) == store.is_live(other),
{
    assert(store::live_links(store.requested(id, weight).streams) =~= store::live_links(
        store.streams,
    ));
}

/// A change leaves only links of live streams behind.
proof fn lemma_changed_chain(store: StoreView, id: StreamId, weight: u8)
    requires
        valid(store),
    ensures
        store.changed(id, weight).chain() == (if !store.is_live(id) || store.request_priority(id)
            == Some(weight) {
            store.chain()
        } else {
            store.changed(id, weight).order
        }),
{
    if store.is_live(id) && store.request_priority(id) != Some(weight) {
        let chain = store.chain();
        let after = store.changed(id, weight).order;
        lemma_chain(store);
        lemma_requested_live(store, id, weight);
        order::lemma_position(chain, id);
        let keep = store::live_links(store.streams);
        if let Some(at) = order::position(chain, id) {
            let rest = chain.remove(at);
            let place = order::band_end(rest, weight);
            lemma_move(chain, at, weight);
            assert forall|i: int| 0 <= i < after.len() implies keep(#[trigger] after[i]) by {
                if i != place {
                    let j = if i < place { i } else { i - 1 };
                    assert(after[i] == rest[j]);
                    assert(rest[j] == chain[if j < at { j } else { j + 1 }]);
                }
            }
        } else {
            assert forall|i: int| 0 <= i < after.len() implies keep(#[trigger] after[i]) by {
                assert(store.is_live(chain[i].0));
            }
        }
        lemma_filter_all(after, keep);
    }
}

/// Opening a live stream leaves only links of live streams behind.
proof fn lemma_opened_chain(store: StoreView, id: StreamId)
    requires
        store.is_live(id),
        store.request_priority(id) is Some,
    ensures
        store.opened(id).chain() == store.opened(id).order,
{
    let keep = store::live_links(store.streams);
    let chain = store.chain();
    let after = store.opened(id).order;
    let weight = store.request_priority(id)->0;
    let place = order::band_end(chain, weight);
    order::lemma_filter(store.order, keep);
    order::lemma_band_end(chain, weight);
    assert forall|i: int| 0 <= i < after.len() implies keep(#[trigger] after[i]) by {
        if i != place {
            assert(after[i] == chain[if i < place { i } else { i - 1 }]);
        }
    }
    lemma_filter_all(after, keep);
}

/// A new store is valid, and any tree follows its chain.
pub proof fn law_new_store(tree: Tree)
    requires
        !tree.contains_key(StreamId::zero()),
    ensures
        valid(StoreView::empty()),
        agrees(StoreView::empty()),
        tree::follows(tree, StoreView::empty().chain()),
{
    reveal(Seq::filter);
}

/// A stream that is put in keeps a store valid. One that has no link leaves the chain as it is,
/// and the bands in agreement.
pub proof fn law_new_stream(store: StoreView, id: StreamId, stream: store::Stream)
    requires
        valid(store),
    ensures
        valid(store.inserted(id, stream)),
        !order::holds(store.order, id) ==> {
            &&& store.inserted(id, stream).chain() == store.chain()
            &&& agrees(store) ==> agrees(store.inserted(id, stream))
        },
{
    if !order::holds(store.order, id) {
        lemma_filter_same(
            store.order,
            store::live_links(store.inserted(id, stream).streams),
            store::live_links(store.streams),
        );
        if agrees(store) {
            assert forall|i: int| 0 <= i < store.order.len() implies (#[trigger] store.order[i]).0
                != id by {}
        }
    }
}

/// Opening a stream that is not in the chain keeps a store valid, and its bands in agreement with
/// the weights that the streams asked for.
pub proof fn law_opening_keeps_valid(store: StoreView, id: StreamId)
    requires
        valid(store),
        id != StreamId::zero(),
        !order::holds(store.chain(), id),
    ensures
        valid(store.opened(id)),
        agrees(store) ==> agrees(store.opened(id)),
{
    if let Some(weight) = store.request_priority(id) {
        let chain = store.chain();
        let after = store.opened(id);
        let place = order::band_end(chain, weight);
        lemma_chain(store);
        order::lemma_band_end(chain, weight);
        order::lemma_placed_sorted(chain, id, weight);
        lemma_insert_linked(chain, place, id, weight);
        if agrees(store) {
            assert forall|i: int|
                0 <= i < after.order.len() && after.is_live((#[trigger] after.order[i]).0) implies
                after.request_priority(after.order[i].0) == Some(after.order[i].1) by {
                if i != place {
                    assert(after.order[i] == chain[if i < place { i } else { i - 1 }]);
                    assert(store.pruned().order[if i < place { i } else { i - 1 }]
                        == after.order[i]);
                }
            }
        }
    }
}

/// A moved chain is sorted and linked.
proof fn lemma_moved_linked(order: Seq<Entry>, at: int, weight: u8)
    requires
        order::sorted(order),
        tree::linked(order),
        0 <= at < order.len(),
    ensures
        order::sorted(order::moved(order, at, weight)),
        tree::linked(order::moved(order, at, weight)),
{
    let rest = order.remove(at);
    assert(order[at].0 != StreamId::zero());
    order::lemma_band_end(rest, weight);
    lemma_remove_linked(order, at);
    order::lemma_remove_sorted(order, at);
    order::lemma_placed_sorted(rest, order[at].0, weight);
    lemma_insert_linked(rest, order::band_end(rest, weight), order[at].0, weight);
}

/// A change of weight keeps the bands in agreement with the weights that the streams asked for.
proof fn lemma_change_agrees(store: StoreView, id: StreamId, weight: u8)
    requires
        valid(store),
        agrees(store),
    ensures
        agrees(store.changed(id, weight)),
{
    if store.is_live(id) && store.request_priority(id) != Some(weight) {
        let chain = store.chain();
        let after = store.changed(id, weight);
        lemma_chain(store);
        assert(agrees(store.pruned()));
        order::lemma_position(chain, id);
        assert forall|k: int| 0 <= k < chain.len() && (#[trigger] chain[k]).0 != id implies
            after.request_priority(chain[k].0) == Some(chain[k].1) by {
            assert(store.pruned().order[k] == chain[k]);
        }
        assert forall|i: int|
            0 <= i < after.order.len() && after.is_live((#[trigger] after.order[i]).0) implies
            after.request_priority(after.order[i].0) == Some(after.order[i].1) by {
            if let Some(at) = order::position(chain, id) {
                let rest = chain.remove(at);
                let place = order::band_end(rest, weight);
                order::lemma_band_end(rest, weight);
                if i != place {
                    let j = if i < place { i } else { i - 1 };
                    let k = if j < at { j } else { j + 1 };
                    assert(after.order[i] == rest[j]);
                    assert(rest[j] == chain[k]);
                    assert(chain[k].0 != chain[at].0);
                }
            } else {
                assert(after.order[i] == chain[i]);
                assert(chain[i].0 != id);
            }
        }
    }
}

/// A change of weight keeps a store valid, its bands in agreement with the weights that the
/// streams asked for, and the same live streams in the chain.
pub proof fn law_change_keeps_valid(store: StoreView, id: StreamId, weight: u8)
    requires
        valid(store),
    ensures
        valid(store.changed(id, weight)),
        agrees(store) ==> agrees(store.changed(id, weight)),
        forall|other: StreamId| #[trigger]
            order::holds(store.changed(id, weight).chain(), other) == order::holds(
                store.chain(),
                other,
            ),
{
    lemma_changed_chain(store, id, weight);
    lemma_chain(store);
    order::lemma_position(store.chain(), id);
    if agrees(store) {
        lemma_change_agrees(store, id, weight);
    }
    if store.is_live(id) && store.request_priority(id) != Some(weight) {
        if let Some(at) = order::position(store.chain(), id) {
            lemma_moved_linked(store.chain(), at, weight);
            assert forall|other: StreamId| #[trigger]
                order::holds(store.changed(id, weight).chain(), other) == order::holds(
                    store.chain(),
                    other,
                ) by {
                lemma_move_members(store.chain(), at, weight, other);
            }
        }
    }
}

/// Closing a stream keeps a store valid and its bands in agreement, and takes that stream, and no
/// other, out of the chain.
pub proof fn law_closing_keeps_valid(store: StoreView, id: StreamId)
    requires
        valid(store),
    ensures
        valid(store.closed(id)),
        agrees(store) ==> agrees(store.closed(id)),
        match order::position(store.chain(), id) {
            Some(at) => store.closed(id).chain() == store.chain().remove(at),
            None => store.closed(id).chain() == store.chain(),
        },
        !order::holds(store.closed(id).chain(), id),
{
    lemma_closed_chain(store, id);
    lemma_chain(store);
    order::lemma_position(store.chain(), id);
    if let Some(at) = order::position(store.chain(), id) {
        lemma_remove_linked(store.chain(), at);
    }
    if agrees(store) {
        let after = store.closed(id);
        assert forall|i: int|
            0 <= i < after.order.len() && after.is_live((#[trigger] after.order[i]).0) implies
            after.request_priority(after.order[i].0) == Some(after.order[i].1) by {
            assert(store.is_live(store.order[i].0));
        }
    }
}

/// Forgetting a stream keeps a store valid and its bands in agreement, and takes that stream, and
/// no other, out of the chain.
pub proof fn law_forgetting_keeps_valid(store: StoreView, id: StreamId)
    requires
        valid(store),
    ensures
        valid(store.removed(id)),
        agrees(store) ==> agrees(store.removed(id)),
        match order::position(store.chain(), id) {
            Some(at) => store.removed(id).chain() == store.chain().remove(at),
            None => store.removed(id).chain() == store.chain(),
        },
        !order::holds(store.removed(id).chain(), id),
{
    lemma_removed_chain(store, id);
    lemma_chain(store);
    order::lemma_position(store.chain(), id);
    if let Some(at) = order::position(store.chain(), id) {
        lemma_remove_linked(store.chain(), at);
    }
    if agrees(store) {
        let after = store.removed(id);
        assert forall|i: int|
            0 <= i < after.order.len() && after.is_live((#[trigger] after.order[i]).0) implies
            after.request_priority(after.order[i].0) == Some(after.order[i].1) by {
            assert(store.is_live(store.order[i].0));
        }
    }
}

/// The frames that a change of weight adds to those that wait to be sent.
pub open spec fn new_frames(store: StoreView, id: StreamId, weight: u8) -> Seq<Priority> {
    store.changed(id, weight).updates.skip(store.updates.len() as int)
}

/// The place that a stream has in the chain.
pub open spec fn place_of(store: StoreView, id: StreamId) -> int {
    order::position(store.chain(), id)->0
}

/// The stream that a stream of the chain depends on.
pub open spec fn parent_of(store: StoreView, id: StreamId) -> StreamId {
    order::parent_at(store.chain(), place_of(store, id))
}

/// The initial HEADERS of a stream put it into the tree of the peer where the store has it: if the
/// tree follows the chain before, it follows the chain after.
pub proof fn law_opening_reaches_the_peer(store: StoreView, id: StreamId, tree: Tree)
    requires
        valid(store),
        id != StreamId::zero(),
        store.is_live(id),
        !order::holds(store.chain(), id),
        tree::follows(tree, store.chain()),
    ensures
        match store.opening(id) {
            Some(dependency) => tree::follows(
                tree::applied(tree, Priority { stream_id: id, dependency }),
                store.opened(id).chain(),
            ),
            None => store.opened(id) == store,
        },
{
    if let Some(weight) = store.request_priority(id) {
        lemma_chain(store);
        lemma_opened_chain(store, id);
        order::lemma_band_end(store.chain(), weight);
        tree::lemma_attached(
            tree,
            store.chain(),
            order::band_end(store.chain(), weight),
            id,
            weight,
        );
    }
}

/// The frames of a move, by the place that the link goes to.
proof fn lemma_frames(order: Seq<Entry>, at: int, weight: u8)
    requires
        order::sorted(order),
        tree::linked(order),
        0 <= at < order.len(),
    ensures
        ({
            let rest = order.remove(at);
            let place = order::band_end(rest, weight);
            let own = order::reparented(order[at].0, order::parent_at(rest, place), weight);
            order::move_frames(order, at, weight) == (if at == place {
                Seq::empty()
            } else if at + 1 < order.len() {
                seq![
                    order::reparented(
                        order[at + 1].0,
                        order::parent_at(order, at),
                        order[at + 1].1,
                    ),
                    own,
                ]
            } else {
                seq![own]
            })
        }),
{
    lemma_move(order, at, weight);
    let rest = order.remove(at);
    let place = order::band_end(rest, weight);
    let own = order::reparented(order[at].0, order::parent_at(rest, place), weight);
    if at != place && at + 1 < order.len() {
        let child = order::reparented(
            order[at + 1].0,
            order::parent_at(order, at),
            order[at + 1].1,
        );
        assert(seq![child] + seq![own] =~= seq![child, own]);
    }
}

/// A chain without its last link is followed where the chain is.
proof fn lemma_follows_front(tree: Tree, order: Seq<Entry>)
    requires
        order.len() > 0,
        tree::follows(tree, order),
    ensures
        tree::follows(tree, order.remove(order.len() - 1)),
{
    let rest = order.remove(order.len() - 1);
    assert forall|i: int| 0 <= i < rest.len() implies #[trigger] tree::hangs(tree, rest, i) by {
        assert(tree::hangs(tree, order, i));
        assert(rest[i] == order[i]);
        if i > 0 {
            assert(rest[i - 1] == order[i - 1]);
        }
    }
}

/// Which band a link stands in does not matter to the tree.
proof fn lemma_follows_reweighed(tree: Tree, order: Seq<Entry>, at: int, weight: u8)
    requires
        0 <= at < order.len(),
        tree::follows(tree, order),
    ensures
        tree::follows(tree, order.remove(at).insert(at, (order[at].0, weight))),
{
    let after = order.remove(at).insert(at, (order[at].0, weight));
    assert(after =~= order.update(at, (order[at].0, weight)));
    assert forall|i: int| 0 <= i < after.len() implies #[trigger] tree::hangs(tree, after, i) by {
        assert(tree::hangs(tree, order, i));
        assert(after[i].0 == order[i].0);
    }
}

/// The frames of a move turn a tree that follows a chain into one that follows the moved chain.
proof fn lemma_move_frames(order: Seq<Entry>, at: int, weight: u8, tree: Tree)
    requires
        order::sorted(order),
        tree::linked(order),
        0 <= at < order.len(),
        tree::follows(tree, order),
    ensures
        tree::follows(
            tree::applied_all(tree, order::move_frames(order, at, weight)),
            order::moved(order, at, weight),
        ),
{
    let id = order[at].0;
    let rest = order.remove(at);
    let place = order::band_end(rest, weight);
    let own = order::reparented(id, order::parent_at(rest, place), weight);
    lemma_frames(order, at, weight);
    order::lemma_band_end(rest, weight);
    lemma_remove_linked(order, at);
    assert(id != StreamId::zero());
    if at == place {
        lemma_follows_reweighed(tree, order, at, weight);
    } else if at + 1 < order.len() {
        let child = order::reparented(
            order[at + 1].0,
            order::parent_at(order, at),
            order[at + 1].1,
        );
        tree::lemma_applied_two(tree, child, own);
        tree::lemma_detached(tree, order, at, order[at + 1].1);
        tree::lemma_attached(tree::applied(tree, child), rest, place, id, weight);
    } else {
        tree::lemma_applied_one(tree, own);
        lemma_follows_front(tree, order);
        tree::lemma_attached(tree, rest, place, id, weight);
    }
}

/// The PRIORITY frames of a change move the stream in the tree of the peer as the store has moved
/// it: if the tree follows the chain before, it follows the chain after.
pub proof fn law_change_reaches_the_peer(store: StoreView, id: StreamId, weight: u8, tree: Tree)
    requires
        valid(store),
        tree::follows(tree, store.chain()),
    ensures
        tree::follows(
            tree::applied_all(tree, new_frames(store, id, weight)),
            store.changed(id, weight).chain(),
        ),
{
    let chain = store.chain();
    let frames = new_frames(store, id, weight);
    lemma_chain(store);
    lemma_changed_chain(store, id, weight);
    order::lemma_position(chain, id);
    if store.is_live(id) && store.request_priority(id) != Some(weight) && order::position(chain, id)
        is Some {
        let at = order::position(chain, id)->0;
        assert(frames =~= order::move_frames(chain, at, weight));
        lemma_move_frames(chain, at, weight, tree);
    } else {
        assert(frames =~= Seq::<Priority>::empty());
    }
}

/// A stream that closes leaves the chain as it leaves the tree of the peer: if the tree follows
/// the chain before, it follows the chain after.
pub proof fn law_closing_reaches_the_peer(store: StoreView, id: StreamId, tree: Tree)
    requires
        valid(store),
        id != StreamId::zero(),
        tree::follows(tree, store.chain()),
    ensures
        tree::follows(tree::retired(tree, id), store.closed(id).chain()),
{
    lemma_chain(store);
    lemma_closed_chain(store, id);
    order::lemma_position(store.chain(), id);
    match order::position(store.chain(), id) {
        Some(at) => tree::lemma_retired(tree, store.chain(), at),
        None => tree::lemma_retired_outside(tree, store.chain(), id),
    }
}

/// A stream that is forgotten leaves the chain as it leaves the tree of the peer: if the tree
/// follows the chain before, it follows the chain after.
pub proof fn law_forgetting_reaches_the_peer(store: StoreView, id: StreamId, tree: Tree)
    requires
        valid(store),
        id != StreamId::zero(),
        tree::follows(tree, store.chain()),
    ensures
        tree::follows(tree::retired(tree, id), store.removed(id).chain()),
{
    lemma_chain(store);
    lemma_removed_chain(store, id);
    order::lemma_position(store.chain(), id);
    match order::position(store.chain(), id) {
        Some(at) => tree::lemma_retired(tree, store.chain(), at),
        None => tree::lemma_retired_outside(tree, store.chain(), id),
    }
}

/// A request depends on the latest live stream in the nearest weight band at or above its own, and
/// on the root where there is none; always exclusively, and with the weight that it asked for.
pub proof fn law_nearest_band(store: StoreView, id: StreamId)
    requires
        order::sorted(store.order),
        store.request_priority(id) is Some,
    ensures
        ({
            let weight = store.request_priority(id)->0;
            let chain = store.chain();
            let dependency = store.opening(id)->0;
            &&& store.opening(id) is Some
            &&& dependency.weight == weight
            &&& dependency.is_exclusive
            &&& (forall|i: int| 0 <= i < chain.len() ==> (#[trigger] chain[i]).1 < weight)
                ==> dependency.dependency_id == StreamId::zero()
            &&& (exists|i: int| 0 <= i < chain.len() && (#[trigger] chain[i]).1 >= weight)
                ==> exists|k: int|
                {
                    &&& 0 <= k < chain.len()
                    &&& (#[trigger] chain[k]).0 == dependency.dependency_id
                    &&& store.is_live(chain[k].0)
                    &&& chain[k].1 >= weight
                    &&& forall|i: int|
                        0 <= i < chain.len() && (#[trigger] chain[i]).1 >= weight ==> chain[i].1
                            >= chain[k].1 && i <= k
                }
        }),
{
    let weight = store.request_priority(id)->0;
    let chain = store.chain();
    let end = order::band_end(chain, weight);
    order::lemma_filter(store.order, store::live_links(store.streams));
    order::lemma_band_end(chain, weight);
    if end > 0 {
        assert(store::live_links(store.streams)(chain[end - 1]));
        assert(chain[end - 1].0 == store.opening(id)->0.dependency_id);
        assert forall|i: int| 0 <= i < chain.len() && (#[trigger] chain[i]).1 >= weight implies
            chain[i].1 >= chain[end - 1].1 && i <= end - 1 by {}
    }
}

/// A request without a priority says nothing of it in its HEADERS, and changes no chain.
pub proof fn law_without_a_priority(store: StoreView, id: StreamId)
    requires
        store.request_priority(id) is None,
    ensures
        store.opening(id) is None,
        store.opened(id) == store,
{
}

/// Opening a stream keeps the other links as they are, and puts it behind every stream of at
/// least its weight and before every other.
pub proof fn law_opening_keeps_the_others(store: StoreView, id: StreamId)
    requires
        store.request_priority(id) is Some,
    ensures
        ({
            let weight = store.request_priority(id)->0;
            let after = store.opened(id).order;
            exists|place: int|
                {
                    &&& 0 <= place < after.len()
                    &&& #[trigger] after[place] == (id, weight)
                    &&& after.remove(place) == store.chain()
                    &&& order::sorted(store.order) ==> forall|i: int|
                        0 <= i < place ==> (#[trigger] after[i]).1 >= weight
                    &&& forall|i: int| place < i < after.len() ==> (#[trigger] after[i]).1 < weight
                }
        }),
{
    let weight = store.request_priority(id)->0;
    let chain = store.chain();
    let after = store.opened(id).order;
    let place = order::band_end(chain, weight);
    order::lemma_filter(store.order, store::live_links(store.streams));
    order::lemma_band_end(chain, weight);
    assert(after.remove(place) =~= chain);
    assert(after[place] == (id, weight));
    assert forall|i: int| place < i < after.len() implies (#[trigger] after[i]).1 < weight by {
        assert(after[i] == chain[i - 1]);
    }
    if order::sorted(store.order) {
        assert forall|i: int| 0 <= i < place implies (#[trigger] after[i]).1 >= weight by {
            assert(after[i] == chain[i]);
            assert(chain[i].1 >= chain[place - 1].1);
        }
    }
}

/// A link that takes its place is the last one at or above its weight.
proof fn lemma_band_end_placed(order: Seq<Entry>, id: StreamId, weight: u8)
    ensures
        0 <= order::band_end(order, weight) <= order.len(),
        order::placed(order, id, weight)[order::band_end(order, weight)] == (id, weight),
        order::band_end(order::placed(order, id, weight), weight) == order::band_end(order, weight)
            + 1,
{
    let end = order::band_end(order, weight);
    let after = order::placed(order, id, weight);
    order::lemma_band_end(order, weight);
    assert forall|i: int| end + 1 <= i < after.len() implies after[i].1 < weight by {
        assert(after[i] == order[i - 1]);
    }
    order::lemma_band_end_unique(after, weight, end + 1);
}

/// Streams of equal weight keep their opening order: one that opens next after another of the
/// same weight depends on that one, and stands right behind it.
pub proof fn law_equal_weights_keep_opening_order(store: StoreView, first: StreamId, second: StreamId)
    requires
        store.is_live(first),
        store.request_priority(first) is Some,
        store.request_priority(first) == store.request_priority(second),
    ensures
        store.opened(first).opening(second) == Some(
            StreamDependency {
                dependency_id: first,
                weight: store.request_priority(first)->0,
                is_exclusive: true,
            },
        ),
        ({
            let after = store.opened(first).opened(second).order;
            let place = order::band_end(store.chain(), store.request_priority(first)->0);
            &&& 0 <= place
            &&& place + 1 < after.len()
            &&& after[place].0 == first
            &&& after[place + 1].0 == second
        }),
{
    let weight = store.request_priority(first)->0;
    let between = store.opened(first);
    lemma_band_end_placed(store.chain(), first, weight);
    lemma_opened_chain(store, first);
    assert(between.request_priority(second) == Some(weight));
    lemma_band_end_placed(between.chain(), second, weight);
}

/// A change moves one link and keeps the others as they are. The link goes behind every stream of
/// at least its new weight, as one that opens does.
pub proof fn law_change_keeps_the_others(store: StoreView, id: StreamId, weight: u8)
    requires
        valid(store),
        store.is_live(id),
        order::holds(store.chain(), id),
        store.request_priority(id) != Some(weight),
    ensures
        ({
            let rest = store.chain().remove(place_of(store, id));
            let after = store.changed(id, weight);
            &&& after.chain()[place_of(after, id)] == (id, weight)
            &&& after.chain().remove(place_of(after, id)) == rest
            &&& place_of(after, id) == order::band_end(rest, weight)
        }),
{
    let chain = store.chain();
    let after = store.changed(id, weight);
    lemma_chain(store);
    order::lemma_position(chain, id);
    let at = order::position(chain, id)->0;
    let place = order::band_end(chain.remove(at), weight);
    lemma_changed_chain(store, id, weight);
    lemma_move(chain, at, weight);
    lemma_moved_linked(chain, at, weight);
    lemma_position_is(after.chain(), id, place);
}

/// The parent that a change leaves a stream with.
proof fn lemma_new_place(store: StoreView, id: StreamId, weight: u8)
    requires
        valid(store),
        store.is_live(id),
        order::holds(store.chain(), id),
        store.request_priority(id) != Some(weight),
    ensures
        ({
            let rest = store.chain().remove(place_of(store, id));
            parent_of(store.changed(id, weight), id) == order::parent_at(
                rest,
                order::band_end(rest, weight),
            )
        }),
{
    let rest = store.chain().remove(place_of(store, id));
    let place = order::band_end(rest, weight);
    let after = store.changed(id, weight).chain();
    order::lemma_position(store.chain(), id);
    lemma_changed_chain(store, id, weight);
    order::lemma_band_end(rest, weight);
    law_change_keeps_the_others(store, id, weight);
    if place > 0 {
        assert(after.remove(place)[place - 1] == after[place - 1]);
    }
}

/// PRIORITY frames are queued only when the parent changes, behind those that wait already. The
/// child of the stream is reconnected to its old parent first; the frame of the stream itself,
/// with its new parent and weight, comes last.
pub proof fn law_frames_of_a_change(store: StoreView, id: StreamId, weight: u8)
    requires
        valid(store),
        store.is_live(id),
        order::holds(store.chain(), id),
        store.request_priority(id) != Some(weight),
    ensures
        ({
            let frames = new_frames(store, id, weight);
            let chain = store.chain();
            let at = place_of(store, id);
            let old_parent = parent_of(store, id);
            let new_parent = parent_of(store.changed(id, weight), id);
            &&& store.changed(id, weight).updates.take(store.updates.len() as int) == store.updates
            &&& old_parent == new_parent ==> frames.len() == 0
            &&& old_parent != new_parent ==> {
                &&& frames.len() == (if at + 1 < chain.len() {
                    2nat
                } else {
                    1nat
                })
                &&& frames.last() == order::reparented(id, new_parent, weight)
                &&& at + 1 < chain.len() ==> frames[0] == order::reparented(
                    chain[at + 1].0,
                    old_parent,
                    chain[at + 1].1,
                )
            }
        }),
{
    let chain = store.chain();
    lemma_chain(store);
    order::lemma_position(chain, id);
    let at = order::position(chain, id)->0;
    lemma_frames(chain, at, weight);
    lemma_move(chain, at, weight);
    lemma_new_place(store, id, weight);
    assert(new_frames(store, id, weight) =~= order::move_frames(chain, at, weight));
    assert(store.changed(id, weight).updates.take(store.updates.len() as int) =~= store.updates);
}

/// A stream that is closed or gone is no parent: what the HEADERS of a stream depend on is live,
/// or the root.
pub proof fn law_parents_are_live(store: StoreView, id: StreamId)
    ensures
        store.opening(id) matches Some(dependency) ==> dependency.dependency_id
            == StreamId::zero() || store.is_live(dependency.dependency_id),
{
    if let Some(weight) = store.request_priority(id) {
        let chain = store.chain();
        order::lemma_filter(store.order, store::live_links(store.streams));
        order::lemma_band_end(chain, weight);
        if order::band_end(chain, weight) > 0 {
            assert(store::live_links(store.streams)(chain[order::band_end(chain, weight) - 1]));
        }
    }
}

/// Before the first HEADERS of a stream, a change touches no chain and queues no frame: it only
/// sets the weight that the HEADERS will carry.
pub proof fn law_change_before_opening(store: StoreView, id: StreamId, weight: u8)
    requires
        valid(store),
        store.is_live(id),
        !order::holds(store.chain(), id),
    ensures
        store.changed(id, weight).updates == store.updates,
        store.changed(id, weight).chain() == store.chain(),
        store.changed(id, weight).request_priority(id) == Some(weight),
        store.changed(id, weight).opening(id) == Some(
            StreamDependency {
                dependency_id: order::parent_at(
                    store.chain(),
                    order::band_end(store.chain(), weight),
                ),
                weight,
                is_exclusive: true,
            },
        ),
{
    lemma_changed_chain(store, id, weight);
    order::lemma_position(store.chain(), id);
}

/// Of several changes before the first HEADERS, the last one counts.
pub proof fn law_last_change_before_opening(store: StoreView, id: StreamId, first: u8, last: u8)
    requires
        valid(store),
        store.is_live(id),
        !order::holds(store.chain(), id),
    ensures
        store.changed(id, first).changed(id, last).opening(id) == store.changed(id, last).opening(
            id,
        ),
        store.changed(id, first).changed(id, last).updates == store.updates,
{
    law_change_before_opening(store, id, first);
    law_change_keeps_valid(store, id, first);
    law_change_before_opening(store, id, last);
    law_change_before_opening(store.changed(id, first), id, last);
}

/// A change does not revive a closed stream: it leaves the store as it is.
pub proof fn law_closed_streams_stay_closed(store: StoreView, id: StreamId, weight: u8)
    ensures
        store.closed(id).changed(id, weight) == store.closed(id),
{
}

/// To ask for the same weight again changes nothing.
pub proof fn law_repeated_change(store: StoreView, id: StreamId, weight: u8)
    ensures
        store.changed(id, weight).changed(id, weight) == store.changed(id, weight),
{
}

/// `history` is a run of lockings of one control, each next after the one before it, as they were
/// when they were given back.
pub open spec fn lockings(
    control: Mutex<ControlState>,
    history: Seq<Locked<'_, ControlState>>,
) -> bool {
    &&& forall|i: int|
        0 <= i < history.len() ==> control::one_locking(control, #[trigger] history[i])
    &&& forall|i: int|
        0 < i < history.len() ==> next_after(history[i - 1], #[trigger] history[i])
}

/// Nothing locked the control between `earlier` and `later`.
pub open spec fn next_after(
    earlier: Locked<'_, ControlState>,
    later: Locked<'_, ControlState>,
) -> bool {
    sync::control_before(later) == Some(earlier)
}

/// No locking from `from` on changed the weight.
pub open spec fn weight_kept(history: Seq<Locked<'_, ControlState>>, from: int) -> bool {
    forall|i: int|
        from <= i < history.len() ==> sync::control_in(#[trigger] history[i]).weight
            == sync::control_found(history[i]).weight
}

/// A weight lasts as long as nobody changes it.
proof fn lemma_weight_lasts(
    control: Mutex<ControlState>,
    history: Seq<Locked<'_, ControlState>>,
    at: int,
    later: int,
)
    requires
        lockings(control, history),
        0 <= at <= later < history.len(),
        weight_kept(history, at + 1),
    ensures
        sync::control_in(history[later]).weight == sync::control_in(history[at]).weight,
    decreases later - at,
{
    if at < later {
        lemma_weight_lasts(control, history, at, later - 1);
        assert(next_after(history[later - 1], history[later]));
        assert(control::one_locking(control, history[later]));
    }
}

/// A control reads back the weight that it was given last, through whichever clone: what
/// `set_weight` wrote is what `weight` returns, as long as nobody writes in between.
pub proof fn law_weight_is_read_back(
    control: Mutex<ControlState>,
    history: Seq<Locked<'_, ControlState>>,
    at: int,
    written: u8,
    read: u8,
)
    requires
        lockings(control, history),
        0 <= at < history.len() - 1,
        control::weight_written(control, written, history[at]),
        weight_kept(history, at + 1),
        control::weight_read(control, read, history.last()),
    ensures
        read == written,
{
    lemma_weight_lasts(control, history, at, history.len() - 1);
}

/// A retry has the latest weight: a request that is let through finds what `set_weight` wrote last,
/// bound or not, as long as nobody writes in between.
pub proof fn law_retry_has_the_latest_weight(
    control: Mutex<ControlState>,
    history: Seq<Locked<'_, ControlState>>,
    at: int,
    written: u8,
    answer: Result<Locked<'_, ControlState>, UserError>,
)
    requires
        lockings(control, history),
        0 <= at < history.len() - 1,
        control::weight_written(control, written, history[at]),
        weight_kept(history, at + 1),
        control::request_answered(control, answer, history.last()),
    ensures
        answer matches Ok(given) ==> sync::control_in(given).weight == written,
{
    lemma_weight_lasts(control, history, at, history.len() - 1);
}

/// A new control has the weight that it was made with, through whichever clone, as long as nobody
/// writes another.
pub proof fn law_new_control_has_its_weight(
    control: Mutex<ControlState>,
    history: Seq<Locked<'_, ControlState>>,
    made: u8,
    read: u8,
)
    requires
        sync::made_with(control) == ControlState::unbound(made),
        lockings(control, history),
        history.len() > 0,
        sync::control_before(history[0]) is None,
        weight_kept(history, 0),
        control::weight_read(control, read, history.last()),
    ensures
        read == made,
{
    assert(control::one_locking(control, history[0]));
    lemma_weight_lasts(control, history, 0, history.len() - 1);
}

/// What the control holds lasts as long as it is left alone.
proof fn lemma_control_lasts(
    control: Mutex<ControlState>,
    history: Seq<Locked<'_, ControlState>>,
    later: int,
)
    requires
        lockings(control, history),
        0 <= later < history.len(),
        sync::control_before(history[0]) is None,
        forall|i: int|
            0 <= i < later ==> sync::control_in(#[trigger] history[i]) == sync::control_found(
                history[i],
            ),
    ensures
        sync::control_found(history[later]) == sync::made_with(control),
    decreases later,
{
    assert(control::one_locking(control, history[later]));
    if later > 0 {
        lemma_control_lasts(control, history, later - 1);
        assert(next_after(history[later - 1], history[later]));
    }
}

/// A new control is unbound: the first request that uses it is let through and finds the weight
/// that it was made with, as long as the control has only been read before.
pub proof fn law_new_control_takes_a_request(
    control: Mutex<ControlState>,
    history: Seq<Locked<'_, ControlState>>,
    made: u8,
    answer: Result<Locked<'_, ControlState>, UserError>,
)
    requires
        sync::made_with(control) == ControlState::unbound(made),
        lockings(control, history),
        history.len() > 0,
        sync::control_before(history[0]) is None,
        forall|i: int|
            0 <= i < history.len() - 1 ==> sync::control_in(#[trigger] history[i])
                == sync::control_found(history[i]),
        control::request_answered(control, answer, history.last()),
    ensures
        answer == Ok::<_, UserError>(history.last()),
        sync::control_in(history.last()) == ControlState::unbound(made),
{
    lemma_control_lasts(control, history, history.len() - 1);
}

/// Controls that do not share a mutex do not share a weight: what is written to one is no part of
/// the history of the other.
pub proof fn law_other_controls_are_not_touched(
    control: Mutex<ControlState>,
    other: Mutex<ControlState>,
    history: Seq<Locked<'_, ControlState>>,
    written: u8,
    locked: Locked<'_, ControlState>,
)
    requires
        control != other,
        lockings(control, history),
        control::weight_written(other, written, locked),
    ensures
        !history.contains(locked),
{
    if history.contains(locked) {
        let i = choose|i: int| 0 <= i < history.len() && history[i] == locked;
        assert(control::one_locking(control, history[i]));
    }
}

} // verus!
