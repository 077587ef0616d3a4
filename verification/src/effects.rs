//! What each operation does, said of the streams, the links and the frames themselves.

use crate::connection::Inner;
use crate::control;
use crate::control::Binding;
use crate::control::ControlState;
use crate::control::UserError;
use crate::frame::Priority;
use crate::frame::StreamDependency;
use crate::frame::StreamId;
use crate::laws;
use crate::order;
use crate::order::Entry;
use crate::store;
use crate::store::State;
use crate::store::StoreView;
use crate::store::Stream;
use crate::sync;
use crate::sync::Locked;
use crate::tree;
use parking_lot::Mutex;
use std::sync::Arc;
use vstd::prelude::*;

verus! {

/// A stream is live if and only if it is known and active, whatever its number and its weight.
pub proof fn law_live_is_known_and_active(store: StoreView, id: StreamId, band: u8)
    ensures
        store.is_live(id) <==> store.streams.contains_key(id) && store.streams[id].state
            == State::Active,
        store::is_live(store.streams, id) <==> store.streams.contains_key(id)
            && store.streams[id].state == State::Active,
        store::live_links(store.streams)((id, band)) <==> store.streams.contains_key(id)
            && store.streams[id].state == State::Active,
{
}

/// The weight that a stream asked for is what stands in its record, and a stream without a record
/// asked for none.
pub proof fn law_asked_weight_is_recorded(store: StoreView, id: StreamId)
    ensures
        store.streams.contains_key(id) ==> store.request_priority(id)
            == store.streams[id].request_priority,
        !store.streams.contains_key(id) ==> store.request_priority(id) is None,
{
}

/// A new store holds nothing.
pub proof fn law_new_store_is_empty()
    ensures
        forall|id: StreamId| !(#[trigger] StoreView::empty().streams.contains_key(id)),
        StoreView::empty().order.len() == 0,
        StoreView::empty().updates.len() == 0,
{
}

/// To put in, to close and to forget a stream each change the record of that stream as they say,
/// and neither another record nor a link nor a frame.
pub proof fn law_records_of_streams(store: StoreView, id: StreamId, stream: Stream)
    ensures
        ({
            let after = store.inserted(id, stream);
            &&& after.streams == store.streams.insert(id, stream)
            &&& after.order == store.order
            &&& after.updates == store.updates
        }),
        ({
            let after = store.removed(id);
            &&& after.streams == store.streams.remove(id)
            &&& after.order == store.order
            &&& after.updates == store.updates
        }),
        ({
            let after = store.closed(id);
            &&& store.streams.contains_key(id) ==> after.streams == store.streams.insert(
                id,
                Stream {
                    state: State::Closed,
                    request_priority: store.streams[id].request_priority,
                },
            )
            &&& !store.streams.contains_key(id) ==> after.streams == store.streams
            &&& after.order == store.order
            &&& after.updates == store.updates
        }),
{
}

/// A stream is live from when it is put in as active until it is closed or forgotten. What happens
/// to one stream does not matter to another.
pub proof fn law_life_of_a_stream(
    store: StoreView,
    id: StreamId,
    other: StreamId,
    asked: Option<u8>,
)
    requires
        id != other,
    ensures
        store.inserted(id, Stream { state: State::Active, request_priority: asked }).is_live(id),
        !store.inserted(id, Stream { state: State::Closed, request_priority: asked }).is_live(id),
        !store.closed(id).is_live(id),
        !store.removed(id).is_live(id),
        store.inserted(id, Stream { state: State::Active, request_priority: asked }).is_live(other)
            == store.is_live(other),
        store.closed(id).is_live(other) == store.is_live(other),
        store.removed(id).is_live(other) == store.is_live(other),
{
}

/// Bands that never rise: no link stands behind one of a smaller band.
pub proof fn law_sorted_chains(order: Seq<Entry>)
    ensures
        order::sorted(order) <==> forall|i: int, j: int|
            #![trigger order[i], order[j]]
            0 <= i < j < order.len() ==> order[j].1 <= order[i].1,
{
    if forall|i: int, j: int|
        #![trigger order[i], order[j]]
        0 <= i < j < order.len() ==> order[j].1 <= order[i].1 {
        assert forall|i: int, j: int| 0 <= i <= j < order.len() implies order[i].1
            >= order[j].1 by {
            if i < j {
                assert(order[j].1 <= order[i].1);
            }
        }
    }
}

/// A link depends on the link before it, and the first one on the root.
pub proof fn law_parents_in_the_chain(order: Seq<Entry>, position: int)
    requires
        0 <= position <= order.len(),
    ensures
        position == 0 ==> order::parent_at(order, position) == StreamId(0),
        position > 0 ==> order::parent_at(order, position) == order[position - 1].0,
{
}

/// The places of the links that are kept, in order.
proof fn lemma_kept(order: Seq<Entry>, keep: spec_fn(Entry) -> bool) -> (places: Seq<int>)
    ensures
        places.len() == order.filter(keep).len(),
        forall|i: int|
            0 <= i < places.len() ==> 0 <= #[trigger] places[i] < order.len()
                && order.filter(keep)[i] == order[places[i]],
        forall|i: int, j: int|
            #![trigger places[i], places[j]]
            0 <= i < j < places.len() ==> places[i] < places[j],
        forall|k: int|
            0 <= k < order.len() ==> (places.contains(k) <==> keep(#[trigger] order[k])),
    decreases order.len(),
{
    reveal(Seq::filter);
    if order.len() == 0 {
        Seq::empty()
    } else {
        let front = order.drop_last();
        let last = order.len() - 1;
        let before = lemma_kept(front, keep);
        assert forall|k: int| 0 <= k < last implies (before.contains(k) <==> keep(
            #[trigger] order[k],
        )) by {
            assert(front[k] == order[k]);
        }
        assert(!before.contains(last)) by {
            if before.contains(last) {
                let i = choose|i: int| 0 <= i < before.len() && before[i] == last;
                assert(before[i] < front.len());
            }
        }
        if keep(order.last()) {
            let places = before.push(last);
            assert forall|k: int| 0 <= k < order.len() implies (places.contains(k) <==> keep(
                #[trigger] order[k],
            )) by {
                if k == last {
                    assert(places[before.len() as int] == k);
                } else if before.contains(k) {
                    let i = choose|i: int| 0 <= i < before.len() && before[i] == k;
                    assert(places[i] == k);
                } else if places.contains(k) {
                    let i = choose|i: int| 0 <= i < places.len() && places[i] == k;
                    assert(i < before.len());
                    assert(before[i] == k);
                }
            }
            places
        } else {
            before
        }
    }
}

/// Pruning keeps a link if and only if its stream is known and active. The kept links stay in their
/// order, and nothing else changes. The result gives the places that they had.
pub proof fn law_pruning_keeps_the_links_of_active_streams(store: StoreView) -> (places: Seq<int>)
    ensures
        store.pruned().streams == store.streams,
        store.pruned().updates == store.updates,
        store.pruned().order == store.chain(),
        places.len() == store.chain().len(),
        forall|i: int|
            0 <= i < places.len() ==> 0 <= #[trigger] places[i] < store.order.len()
                && store.chain()[i] == store.order[places[i]],
        forall|i: int, j: int|
            #![trigger places[i], places[j]]
            0 <= i < j < places.len() ==> places[i] < places[j],
        forall|k: int|
            0 <= k < store.order.len() ==> (places.contains(k) <==> store.streams.contains_key(
                (#[trigger] store.order[k]).0,
            ) && store.streams[store.order[k].0].state == State::Active),
{
    lemma_kept(store.order, store::live_links(store.streams))
}

/// The HEADERS of a stream that asked for no weight, or is not known, say nothing of a priority, and
/// leave the store as it is.
pub proof fn law_headers_without_a_weight(store: StoreView, id: StreamId)
    requires
        !store.streams.contains_key(id) || store.streams[id].request_priority is None,
    ensures
        store.opening(id) is None,
        store.opened(id) == store,
{
}

/// The HEADERS of a stream carry the weight that stands in its record and depend, exclusively, on
/// the last link of an active stream in a band at or above that weight, or on the root where there
/// is none.
pub proof fn law_headers_with_a_weight(store: StoreView, id: StreamId, weight: u8)
    requires
        store.streams.contains_key(id),
        store.streams[id].request_priority == Some(weight),
    ensures
        store.opening(id) is Some,
        store.opening(id)->0.weight == weight,
        store.opening(id)->0.is_exclusive,
        ({
            let order = store.order;
            let streams = store.streams;
            let parent = store.opening(id)->0.dependency_id;
            ||| {
                &&& parent == StreamId(0)
                &&& forall|i: int|
                    0 <= i < order.len() && streams.contains_key((#[trigger] order[i]).0)
                        && streams[order[i].0].state == State::Active ==> order[i].1 < weight
            }
            ||| exists|k: int|
                {
                    &&& 0 <= k < order.len()
                    &&& (#[trigger] order[k]).0 == parent
                    &&& streams.contains_key(parent)
                    &&& streams[parent].state == State::Active
                    &&& order[k].1 >= weight
                    &&& forall|i: int|
                        k < i < order.len() && streams.contains_key((#[trigger] order[i]).0)
                            && streams[order[i].0].state == State::Active ==> order[i].1 < weight
                }
        }),
{
    let order = store.order;
    let streams = store.streams;
    let chain = store.chain();
    let end = order::band_end(chain, weight);
    let places = law_pruning_keeps_the_links_of_active_streams(store);
    order::lemma_band_end(chain, weight);
    let last = if end > 0 {
        places[end - 1]
    } else {
        -1
    };
    assert forall|i: int|
        last < i < order.len() && streams.contains_key((#[trigger] order[i]).0)
            && streams[order[i].0].state == State::Active implies order[i].1 < weight by {
        assert(places.contains(i));
        let n = choose|n: int| 0 <= n < places.len() && places[n] == i;
        if n < end - 1 {
            assert(places[n] < places[end - 1]);
        }
        assert(chain[n] == order[i]);
    }
    if end > 0 {
        assert(places.contains(last));
        assert(chain[end - 1] == order[last]);
    }
}

/// The HEADERS of a stream put one link for it into the pruned chain: behind a link of at least its
/// weight or first of all, and before links of smaller weight only. They change no record and queue
/// no frame. The result gives the place of the link.
pub proof fn law_headers_put_one_link_in(store: StoreView, id: StreamId, weight: u8) -> (place: int)
    requires
        store.streams.contains_key(id),
        store.streams[id].request_priority == Some(weight),
    ensures
        ({
            let after = store.opened(id);
            &&& after.streams == store.streams
            &&& after.updates == store.updates
            &&& 0 <= place < after.order.len()
            &&& after.order[place] == (id, weight)
            &&& after.order.remove(place) == store.chain()
            &&& place > 0 ==> after.order[place - 1].1 >= weight
            &&& forall|i: int|
                place < i < after.order.len() ==> (#[trigger] after.order[i]).1 < weight
        }),
{
    let chain = store.chain();
    let after = store.opened(id).order;
    let place = order::band_end(chain, weight);
    order::lemma_band_end(chain, weight);
    assert(after.remove(place) =~= chain);
    if place > 0 {
        assert(after[place - 1] == chain[place - 1]);
    }
    assert forall|i: int| place < i < after.len() implies (#[trigger] after[i]).1 < weight by {
        assert(after[i] == chain[i - 1]);
    }
    place
}

/// A stream that opens right after an active one of the same weight depends on that one.
pub proof fn law_peers_follow_each_other(
    store: StoreView,
    first: StreamId,
    second: StreamId,
    weight: u8,
)
    requires
        store.streams.contains_key(first),
        store.streams[first].state == State::Active,
        store.streams[first].request_priority == Some(weight),
        store.streams.contains_key(second),
        store.streams[second].request_priority == Some(weight),
    ensures
        store.opened(first).opening(second) == Some(
            StreamDependency { dependency_id: first, weight, is_exclusive: true },
        ),
{
    laws::law_equal_weights_keep_opening_order(store, first, second);
}

/// A change does nothing to a stream that is not known, is closed, or has that weight already.
pub proof fn law_change_that_does_nothing(store: StoreView, id: StreamId, weight: u8)
    requires
        ({
            ||| !store.streams.contains_key(id)
            ||| store.streams[id].state == State::Closed
            ||| store.streams[id].request_priority == Some(weight)
        }),
    ensures
        store.changed(id, weight) == store,
{
}

/// A change records the new weight of an active stream, whether it is larger or smaller than the
/// one before, and touches no other record.
pub proof fn law_change_records_the_weight(store: StoreView, id: StreamId, weight: u8)
    requires
        store.streams.contains_key(id),
        store.streams[id].state == State::Active,
    ensures
        store.changed(id, weight).streams == store.streams.insert(
            id,
            Stream { state: State::Active, request_priority: Some(weight) },
        ),
{
    assert(store.changed(id, weight).streams =~= store.streams.insert(
        id,
        Stream { state: State::Active, request_priority: Some(weight) },
    ));
}

/// A change of an active stream that has no link yet prunes the chain, and queues no frame.
pub proof fn law_change_without_a_link(store: StoreView, id: StreamId, weight: u8)
    requires
        store.streams.contains_key(id),
        store.streams[id].state == State::Active,
        store.streams[id].request_priority != Some(weight),
        forall|i: int| 0 <= i < store.order.len() ==> (#[trigger] store.order[i]).0 != id,
    ensures
        store.changed(id, weight).order == store.chain(),
        store.changed(id, weight).updates == store.updates,
{
    let places = law_pruning_keeps_the_links_of_active_streams(store);
    order::lemma_position(store.chain(), id);
    if let Some(at) = order::position(store.chain(), id) {
        assert(store.chain()[at] == store.order[places[at]]);
    }
}

/// A change takes the first link of the stream out of the pruned chain and puts one with the new
/// weight in, where a stream that opens with that weight goes. The result gives the place of the
/// new link.
pub proof fn law_change_moves_the_link(store: StoreView, id: StreamId, weight: u8, at: int) -> (place:
    int)
    requires
        store.streams.contains_key(id),
        store.streams[id].state == State::Active,
        store.streams[id].request_priority != Some(weight),
        0 <= at < store.chain().len(),
        store.chain()[at].0 == id,
        forall|i: int| 0 <= i < at ==> (#[trigger] store.chain()[i]).0 != id,
    ensures
        ({
            let after = store.changed(id, weight).order;
            &&& 0 <= place < after.len()
            &&& after[place] == (id, weight)
            &&& after.remove(place) == store.chain().remove(at)
            &&& place > 0 ==> after[place - 1].1 >= weight
            &&& forall|i: int| place < i < after.len() ==> (#[trigger] after[i]).1 < weight
        }),
{
    let chain = store.chain();
    let rest = chain.remove(at);
    let after = store.changed(id, weight).order;
    let place = order::band_end(rest, weight);
    order::lemma_position(chain, id);
    order::lemma_band_end(rest, weight);
    assert(order::position(chain, id) == Some(at));
    assert(after == rest.insert(place, (id, weight)));
    assert(after.remove(place) =~= rest);
    if place > 0 {
        assert(after[place - 1] == rest[place - 1]);
    }
    assert forall|i: int| place < i < after.len() implies (#[trigger] after[i]).1 < weight by {
        assert(after[i] == rest[i - 1]);
    }
    place
}

/// The new parent of a stream that changes is the last link at or above the new weight, or the root
/// where there is none, unless that link is its own: then it keeps the parent that it has. Where the
/// parent stays, no frame is queued. Where it does not, the frames go behind those that wait
/// already: first one that hands the next link to the old parent, if there is a next link, and then
/// that of the stream itself. Both are exclusive. The result gives the place of that last link, and
/// -1 where there is none.
pub proof fn law_change_queues_the_frames(store: StoreView, id: StreamId, weight: u8, at: int) -> (
    last: int)
    requires
        store.streams.contains_key(id),
        store.streams[id].state == State::Active,
        store.streams[id].request_priority != Some(weight),
        0 <= at < store.chain().len(),
        store.chain()[at].0 == id,
        forall|i: int| 0 <= i < at ==> (#[trigger] store.chain()[i]).0 != id,
    ensures
        ({
            let chain = store.chain();
            let old_parent = if at == 0 {
                StreamId(0)
            } else {
                chain[at - 1].0
            };
            let nearest = if last < 0 {
                StreamId(0)
            } else {
                chain[last].0
            };
            let new_parent = if nearest == id {
                old_parent
            } else {
                nearest
            };
            let own = Priority {
                stream_id: id,
                dependency: StreamDependency {
                    dependency_id: new_parent,
                    weight,
                    is_exclusive: true,
                },
            };
            let next = Priority {
                stream_id: chain[at + 1].0,
                dependency: StreamDependency {
                    dependency_id: old_parent,
                    weight: chain[at + 1].1,
                    is_exclusive: true,
                },
            };
            let before = store.updates;
            let after = store.changed(id, weight).updates;
            &&& -1 <= last < chain.len()
            &&& last >= 0 ==> chain[last].1 >= weight
            &&& forall|i: int| last < i < chain.len() ==> (#[trigger] chain[i]).1 < weight
            &&& old_parent == new_parent ==> after == before
            &&& old_parent != new_parent && at + 1 == chain.len() ==> after == before.push(own)
            &&& old_parent != new_parent && at + 1 < chain.len() ==> after == before.push(
                next,
            ).push(own)
        }),
{
    let chain = store.chain();
    let last = order::band_end(chain, weight) - 1;
    let before = store.updates;
    let after = store.changed(id, weight).updates;
    let frames = order::move_frames(chain, at, weight);
    order::lemma_position(chain, id);
    order::lemma_band_end(chain, weight);
    assert(order::position(chain, id) == Some(at));
    assert(after == before + frames);
    if frames.len() == 0 {
        assert(after =~= before);
    } else if frames.len() == 1 {
        assert(after =~= before.push(frames[0]));
    } else {
        assert(after =~= before.push(frames[0]).push(frames[1]));
    }
    last
}

/// A moved link stands at one place only.
proof fn lemma_moved_place(chain: Seq<Entry>, at: int, after: Seq<Entry>, place: int, other: int)
    requires
        order::distinct(chain),
        0 <= at < chain.len(),
        0 <= place < after.len(),
        after.remove(place) == chain.remove(at),
        0 <= other < after.len(),
        after[other].0 == chain[at].0,
    ensures
        other == place,
{
    let rest = chain.remove(at);
    assert(after.remove(place).len() == after.len() - 1 && rest.len() == chain.len() - 1);
    if other < place {
        assert(rest[other] == after[other]);
        if other < at {
            assert(rest[other] == chain[other]);
        } else {
            assert(rest[other] == chain[other + 1]);
        }
    } else if other > place {
        assert(rest[other - 1] == after[other]);
        if other - 1 < at {
            assert(rest[other - 1] == chain[other - 1]);
        } else {
            assert(rest[other - 1] == chain[other]);
        }
    }
}

/// The link at or above the new weight that comes last before a move is the one before the new
/// place, unless the move leaves the link where it is.
proof fn lemma_moved_parent(
    chain: Seq<Entry>,
    at: int,
    weight: u8,
    after: Seq<Entry>,
    place: int,
    last: int,
)
    requires
        order::sorted(chain),
        tree::linked(chain),
        0 <= at < chain.len(),
        0 <= place < after.len(),
        after.remove(place) == chain.remove(at),
        place > 0 ==> after[place - 1].1 >= weight,
        forall|i: int| place < i < after.len() ==> (#[trigger] after[i]).1 < weight,
        -1 <= last < chain.len(),
        last >= 0 ==> chain[last].1 >= weight,
        forall|i: int| last < i < chain.len() ==> (#[trigger] chain[i]).1 < weight,
    ensures
        order::parent_at(after, place) == order::new_parent(chain, at, weight),
        last + 1 == order::band_end(chain, weight),
{
    let rest = chain.remove(at);
    assert(after.remove(place).len() == after.len() - 1 && rest.len() == chain.len() - 1);
    order::lemma_band_end_unique(chain, weight, last + 1);
    if place > 0 {
        assert(rest[place - 1] == after[place - 1]);
    }
    assert forall|i: int| place <= i < rest.len() implies rest[i].1 < weight by {
        assert(rest[i] == after[i + 1]);
    }
    order::lemma_band_end_unique(rest, weight, place);
    laws::lemma_move(chain, at, weight);
}

/// The chain of a store that is sorted and holds each stream once is so too.
proof fn lemma_chain_of_streams(store: StoreView)
    requires
        forall|i: int, j: int|
            #![trigger store.order[i], store.order[j]]
            0 <= i < j < store.order.len() ==> store.order[j].1 <= store.order[i].1
                && store.order[j].0 != store.order[i].0,
        forall|i: int| 0 <= i < store.order.len() ==> (#[trigger] store.order[i]).0 != StreamId(0),
    ensures
        order::sorted(store.chain()),
        tree::linked(store.chain()),
{
    law_sorted_chains(store.order);
    order::lemma_filter(store.order, store::live_links(store.streams));
    let places = law_pruning_keeps_the_links_of_active_streams(store);
    assert forall|i: int| 0 <= i < store.chain().len() implies (#[trigger] store.chain()[i]).0
        != StreamId(0) by {
        assert(store.chain()[i] == store.order[places[i]]);
    }
}

/// In a sorted chain that holds each stream once, the frames of a change say where the stream stands
/// afterwards: none is queued if and only if it stands behind the same stream as before, and else
/// the last one queued names the stream before it and its new weight.
pub proof fn law_frames_say_where_the_stream_stands(
    store: StoreView,
    id: StreamId,
    weight: u8,
    at: int,
    place: int,
)
    requires
        store.streams.contains_key(id),
        store.streams[id].state == State::Active,
        store.streams[id].request_priority != Some(weight),
        forall|i: int, j: int|
            #![trigger store.order[i], store.order[j]]
            0 <= i < j < store.order.len() ==> store.order[j].1 <= store.order[i].1
                && store.order[j].0 != store.order[i].0,
        forall|i: int| 0 <= i < store.order.len() ==> (#[trigger] store.order[i]).0 != StreamId(0),
        0 <= at < store.chain().len(),
        store.chain()[at].0 == id,
        0 <= place < store.changed(id, weight).order.len(),
        store.changed(id, weight).order[place].0 == id,
    ensures
        ({
            let old_parent = if at == 0 {
                StreamId(0)
            } else {
                store.chain()[at - 1].0
            };
            let new_parent = if place == 0 {
                StreamId(0)
            } else {
                store.changed(id, weight).order[place - 1].0
            };
            let after = store.changed(id, weight).updates;
            &&& after == store.updates <==> old_parent == new_parent
            &&& old_parent != new_parent ==> after.last() == (Priority {
                stream_id: id,
                dependency: StreamDependency {
                    dependency_id: new_parent,
                    weight,
                    is_exclusive: true,
                },
            })
        }),
{
    let chain = store.chain();
    let after = store.changed(id, weight).order;
    lemma_chain_of_streams(store);
    assert forall|i: int| 0 <= i < at implies (#[trigger] chain[i]).0 != id by {
        assert(chain[i].0 != chain[at].0);
    }
    let new_place = law_change_moves_the_link(store, id, weight, at);
    let last = law_change_queues_the_frames(store, id, weight, at);
    lemma_moved_place(chain, at, after, new_place, place);
    lemma_moved_parent(chain, at, weight, after, place, last);
}

/// A new control is not bound and has its weight, and to write another weight leaves what it is
/// bound to as it is.
pub proof fn law_weights_of_controls(state: ControlState, weight: u8)
    ensures
        ControlState::unbound(weight).weight == weight,
        ControlState::unbound(weight).binding is None,
        state.reweighed(weight).weight == weight,
        state.reweighed(weight).binding == state.binding,
{
}

/// A locking finds what the one before it left, and the first one what the control was made with.
pub proof fn law_lockings_follow_each_other(
    control: Mutex<ControlState>,
    locked: Locked<'_, ControlState>,
)
    requires
        control::one_locking(control, locked),
    ensures
        sync::control_of(locked) == control,
        sync::control_before(locked) is None ==> sync::control_found(locked) == sync::made_with(
            control,
        ),
        sync::control_before(locked) matches Some(before) ==> {
            &&& sync::control_of(before) == control
            &&& sync::control_found(locked) == sync::control_in(before)
        },
{
}

/// To read the weight is one locking, which gives back the control as it was. What is read is what
/// is there.
pub proof fn law_reading_a_weight(
    control: Mutex<ControlState>,
    weight: u8,
    locked: Locked<'_, ControlState>,
)
    requires
        control::weight_read(control, weight, locked),
    ensures
        control::one_locking(control, locked),
        sync::control_unlocked(locked),
        sync::control_in(locked) == sync::control_found(locked),
        sync::control_found(locked).weight == weight,
{
}

/// To write a weight is one locking, which leaves that weight and what the control is bound to.
pub proof fn law_writing_a_weight(
    control: Mutex<ControlState>,
    weight: u8,
    locked: Locked<'_, ControlState>,
)
    requires
        control::weight_written(control, weight, locked),
    ensures
        control::one_locking(control, locked),
        sync::control_unlocked(locked),
        sync::control_in(locked).weight == weight,
        sync::control_in(locked).binding == sync::control_found(locked).binding,
{
}

/// Each weight that is written, larger or smaller than the one before or the same, reaches the
/// connection of the bound stream if that is still alive: under the guard of the control the
/// connection is locked and left with the stream changed. If its task slept, the task is woken while
/// the connection holds that change, and it is not kept.
pub proof fn law_written_weight_reaches_the_connection(
    control: Mutex<ControlState>,
    weight: u8,
    locked: Locked<'_, ControlState>,
    binding: Binding,
)
    requires
        control::weight_written(control, weight, locked),
        sync::control_found(locked).binding == Some(binding),
    ensures
        exists|outcome: Option<Arc<Mutex<Inner>>>|
            {
                &&& #[trigger] sync::followed(binding.connection, outcome)
                &&& outcome matches Some(connection) ==> exists|guard: Locked<'_, Inner>|
                    {
                        let found = sync::connection_found(guard);
                        let left = sync::connection_in(guard);
                        &&& #[trigger] sync::connection_unlocked(guard, locked)
                        &&& sync::connection_of(guard) == *connection
                        &&& sync::connection_of(guard) == sync::leads_to(binding.connection)
                        &&& sync::locked_under(guard) == locked
                        &&& left.store@ == found.store@.changed(binding.id, weight)
                        &&& left.actions.task is None
                        &&& found.actions.task matches Some(task) ==> sync::woken(task, guard)
                    }
            },
{
}

/// Where the bound stream is active, its record has the written weight afterwards, the links of the
/// other active streams stay, and a link that it had stands in the band of that weight.
pub proof fn law_written_weight_reaches_the_stream(
    control: Mutex<ControlState>,
    weight: u8,
    locked: Locked<'_, ControlState>,
    binding: Binding,
)
    requires
        control::weight_written(control, weight, locked),
        sync::control_found(locked).binding == Some(binding),
    ensures
        exists|outcome: Option<Arc<Mutex<Inner>>>|
            {
                &&& #[trigger] sync::followed(binding.connection, outcome)
                &&& outcome matches Some(connection) ==> exists|guard: Locked<'_, Inner>|
                    {
                        let found = sync::connection_found(guard).store@;
                        let left = sync::connection_in(guard).store@;
                        let id = binding.id;
                        &&& #[trigger] sync::connection_unlocked(guard, locked)
                        &&& sync::connection_of(guard) == *connection
                        &&& sync::locked_under(guard) == locked
                        &&& found.streams.contains_key(id) && found.streams[id].state
                            == State::Active ==> {
                            &&& left.streams == found.streams.insert(
                                id,
                                Stream { state: State::Active, request_priority: Some(weight) },
                            )
                            &&& found.streams[id].request_priority != Some(weight) && (exists|i: int|
                                0 <= i < found.order.len() && (#[trigger] found.order[i]).0 == id)
                                ==> left.order.contains((id, weight))
                        }
                        &&& !(found.streams.contains_key(id) && found.streams[id].state
                            == State::Active) ==> left == found
                    }
            },
{
    law_written_weight_reaches_the_connection(control, weight, locked, binding);
    let outcome = choose|outcome: Option<Arc<Mutex<Inner>>>| #[trigger]
        sync::followed(binding.connection, outcome) && (outcome matches Some(connection) ==> exists|
            guard: Locked<'_, Inner>,
        | #[trigger]
            sync::connection_unlocked(guard, locked) && sync::connection_of(guard) == *connection
                && sync::locked_under(guard) == locked && sync::connection_in(guard).store@
                == sync::connection_found(guard).store@.changed(binding.id, weight));
    if let Some(connection) = outcome {
        let guard = choose|guard: Locked<'_, Inner>| #[trigger]
            sync::connection_unlocked(guard, locked) && sync::connection_of(guard) == *connection
                && sync::locked_under(guard) == locked && sync::connection_in(guard).store@
                == sync::connection_found(guard).store@.changed(binding.id, weight);
        lemma_changed_stream(sync::connection_found(guard).store@, binding.id, weight);
    }
}

/// What a change does to the record and the link of an active stream, and that it does nothing to
/// another.
proof fn lemma_changed_stream(store: StoreView, id: StreamId, weight: u8)
    ensures
        store.streams.contains_key(id) && store.streams[id].state == State::Active ==> {
            &&& store.changed(id, weight).streams == store.streams.insert(
                id,
                Stream { state: State::Active, request_priority: Some(weight) },
            )
            &&& store.streams[id].request_priority != Some(weight) && (exists|i: int|
                0 <= i < store.order.len() && (#[trigger] store.order[i]).0 == id)
                ==> store.changed(id, weight).order.contains((id, weight))
        },
        !(store.streams.contains_key(id) && store.streams[id].state == State::Active)
            ==> store.changed(id, weight) == store,
{
    if store.streams.contains_key(id) && store.streams[id].state == State::Active {
        law_change_records_the_weight(store, id, weight);
        if store.streams[id].request_priority != Some(weight) && exists|i: int|
            0 <= i < store.order.len() && (#[trigger] store.order[i]).0 == id {
            let i = choose|i: int| 0 <= i < store.order.len() && (#[trigger] store.order[i]).0 == id;
            let places = law_pruning_keeps_the_links_of_active_streams(store);
            assert(places.contains(i));
            let n = choose|n: int| 0 <= n < places.len() && places[n] == i;
            assert(store.chain()[n].0 == id);
            order::lemma_position(store.chain(), id);
            let at = order::position(store.chain(), id)->0;
            let place = law_change_moves_the_link(store, id, weight, at);
            assert(store.changed(id, weight).order[place] == (id, weight));
        }
    }
}

/// To ask for a request is one locking, which leaves the control as it was. Who is let through gets
/// that locking; who is not is told so, and the control is given back.
pub proof fn law_asking_for_a_request(
    control: Mutex<ControlState>,
    answer: Result<Locked<'_, ControlState>, UserError>,
    locked: Locked<'_, ControlState>,
)
    requires
        control::request_answered(control, answer, locked),
    ensures
        control::one_locking(control, locked),
        sync::control_in(locked) == sync::control_found(locked),
        answer matches Ok(given) ==> given == locked,
        answer matches Err(error) ==> error == UserError::Rejected && sync::control_unlocked(locked),
        sync::control_found(locked).binding is None ==> answer is Ok,
{
}

/// A request on a bound control is rejected if and only if the connection is still alive and, as it
/// is locked under the guard of the control, knows the bound stream as active. Whether its HEADERS
/// are sent does not matter. The connection is left as it was.
pub proof fn law_second_request_is_rejected(
    control: Mutex<ControlState>,
    answer: Result<Locked<'_, ControlState>, UserError>,
    locked: Locked<'_, ControlState>,
    binding: Binding,
)
    requires
        control::request_answered(control, answer, locked),
        sync::control_found(locked).binding == Some(binding),
    ensures
        exists|outcome: Option<Arc<Mutex<Inner>>>|
            {
                &&& #[trigger] sync::followed(binding.connection, outcome)
                &&& outcome is None ==> answer is Ok
                &&& outcome matches Some(connection) ==> exists|guard: Locked<'_, Inner>|
                    {
                        let streams = sync::connection_found(guard).store@.streams;
                        &&& #[trigger] sync::connection_unlocked(guard, locked)
                        &&& sync::connection_of(guard) == *connection
                        &&& sync::connection_of(guard) == sync::leads_to(binding.connection)
                        &&& sync::locked_under(guard) == locked
                        &&& sync::connection_in(guard) == sync::connection_found(guard)
                        &&& answer is Err <==> streams.contains_key(binding.id)
                            && streams[binding.id].state == State::Active
                    }
            },
{
}

} // verus!
