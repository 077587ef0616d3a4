//! The streams of one connection, the dependency chain of those that carry a priority, and
//! the PRIORITY frames that wait to be sent.

use crate::chain::Chain;
use crate::frame::Priority;
use crate::frame::StreamDependency;
use crate::frame::StreamId;
use crate::order;
use crate::order::Entry;
use std::collections::HashMap;
use std::collections::VecDeque;
use vstd::prelude::*;

verus! {

broadcast use vstd::std_specs::hash::group_hash_axioms;

/// Whether a stream is still in use.
#[derive(Clone, Copy, Debug, PartialEq, Eq, Structural)]
pub enum State {
    Active,
    Closed,
}

impl State {
    /// The stream is no longer in use.
    pub fn is_closed(&self) -> (closed: bool)
        ensures
            closed == (*self is Closed),
    {
        match self {
            State::Active => false,
            State::Closed => true,
        }
    }
}

/// What the store knows of one stream.
#[derive(Clone, Copy, Debug, PartialEq, Eq, Structural)]
pub struct Stream {
    pub state: State,
    /// The encoded weight that the request asked for, if it asked for one.
    pub request_priority: Option<u8>,
}

/// A store as a mathematical value.
#[verifier::ext_equal]
pub struct StoreView {
    pub streams: Map<StreamId, Stream>,
    pub order: Seq<Entry>,
    pub updates: Seq<Priority>,
}

/// The stream `id` is known and not closed.
pub open spec fn is_live(streams: Map<StreamId, Stream>, id: StreamId) -> bool {
    streams.contains_key(id) && !(streams[id].state is Closed)
}

/// Tells the links of live streams from the others.
pub open spec fn live_links(streams: Map<StreamId, Stream>) -> spec_fn(Entry) -> bool {
    |entry: Entry| is_live(streams, entry.0)
}

impl StoreView {
    /// The weight that the stream `id` asked for.
    pub open spec fn request_priority(self, id: StreamId) -> Option<u8> {
        if self.streams.contains_key(id) {
            self.streams[id].request_priority
        } else {
            None
        }
    }

    /// The stream `id` is known and not closed.
    pub open spec fn is_live(self, id: StreamId) -> bool {
        is_live(self.streams, id)
    }

    /// The store once `stream` is in it under the number `id`.
    pub open spec fn inserted(self, id: StreamId, stream: Stream) -> StoreView {
        StoreView { streams: self.streams.insert(id, stream), ..self }
    }

    /// The store once the stream `id` is forgotten.
    pub open spec fn removed(self, id: StreamId) -> StoreView {
        StoreView { streams: self.streams.remove(id), ..self }
    }

    /// The store once the stream `id` is closed.
    pub open spec fn closed(self, id: StreamId) -> StoreView {
        if self.streams.contains_key(id) {
            self.inserted(id, Stream { state: State::Closed, ..self.streams[id] })
        } else {
            self
        }
    }

    /// The links of live streams.
    pub open spec fn chain(self) -> Seq<Entry> {
        self.order.filter(live_links(self.streams))
    }

    /// A store without streams.
    pub open spec fn empty() -> StoreView {
        StoreView { streams: Map::empty(), order: Seq::empty(), updates: Seq::empty() }
    }

    /// The store without the links of streams that are closed or gone.
    pub open spec fn pruned(self) -> StoreView {
        StoreView { order: self.chain(), ..self }
    }

    /// What the initial HEADERS of `id` say of its priority: an exclusive dependency on the last
    /// live stream at or above its weight. A request that asked for no weight says nothing.
    pub open spec fn opening(self, id: StreamId) -> Option<StreamDependency> {
        match self.request_priority(id) {
            Some(weight) => {
                let order = self.chain();
                Some(
                    StreamDependency {
                        dependency_id: order::parent_at(
                            order,
                            order::band_end(order, weight),
                        ),
                        weight,
                        is_exclusive: true,
                    },
                )
            },
            None => None,
        }
    }

    /// The store once the initial HEADERS of `id` are sent.
    pub open spec fn opened(self, id: StreamId) -> StoreView {
        match self.request_priority(id) {
            Some(weight) => StoreView {
                order: order::placed(self.chain(), id, weight),
                ..self
            },
            None => self,
        }
    }

    /// The store once the live stream `id` asks for `weight`, with its chain not yet touched.
    pub open spec fn requested(self, id: StreamId, weight: u8) -> StoreView {
        self.inserted(id, Stream { request_priority: Some(weight), ..self.streams[id] })
    }

    /// The store once `id` has been given a new weight.
    pub open spec fn changed(self, id: StreamId, weight: u8) -> StoreView {
        if !self.is_live(id) || self.request_priority(id) == Some(weight) {
            self
        } else {
            let order = self.chain();
            match order::position(order, id) {
                Some(at) => StoreView {
                    order: order::moved(order, at, weight),
                    updates: self.updates + order::move_frames(order, at, weight),
                    ..self.requested(id, weight)
                },
                None => StoreView { order, ..self.requested(id, weight) },
            }
        }
    }
}

/// The streams of a connection.
#[derive(Debug)]
pub struct Store {
    streams: HashMap<u32, Stream>,
    priority_order: Chain,
    priority_updates: VecDeque<Priority>,
}

/// The streams that a table keyed by number stands for.
spec fn by_id(table: Map<u32, Stream>) -> Map<StreamId, Stream> {
    Map::new(|id: StreamId| table.contains_key(id.0), |id: StreamId| table[id.0])
}

impl View for Store {
    type V = StoreView;

    closed spec fn view(&self) -> StoreView {
        StoreView {
            streams: by_id(self.streams@),
            order: self.priority_order@,
            updates: self.priority_updates@,
        }
    }
}

impl Store {
    /// A store without streams.
    pub fn new() -> (store: Store)
        ensures
            store@ == StoreView::empty(),
    {
        let store = Store {
            streams: HashMap::new(),
            priority_order: Chain::from_links(Vec::new()),
            priority_updates: VecDeque::new(),
        };
        assert(store@.streams =~= Map::<StreamId, Stream>::empty());
        store
    }

    /// Look a stream up.
    pub fn find(&self, id: StreamId) -> (stream: Option<Stream>)
        ensures
            match stream {
                Some(stream) => self@.streams.contains_key(id) && stream == self@.streams[id],
                None => !self@.streams.contains_key(id),
            },
    {
        match self.streams.get(&id.0) {
            Some(stream) => Some(*stream),
            None => None,
        }
    }

    /// Put a stream in, in place of any other of that number.
    pub fn insert(&mut self, id: StreamId, stream: Stream)
        ensures
            final(self)@ == old(self)@.inserted(id, stream),
    {
        self.streams.insert(id.0, stream);
        assert(self@.streams =~= old(self)@.streams.insert(id, stream));
    }

    /// Mark a stream as closed; its link goes at the next change of the chain.
    pub fn close(&mut self, id: StreamId)
        ensures
            final(self)@ == old(self)@.closed(id),
    {
        if let Some(stream) = self.find(id) {
            self.insert(id, Stream { state: State::Closed, ..stream });
        }
    }

    /// Forget a stream.
    pub fn remove(&mut self, id: StreamId)
        ensures
            final(self)@ == old(self)@.removed(id),
    {
        self.streams.remove(&id.0);
        assert(self@.streams =~= old(self)@.streams.remove(id));
    }

    /// The links of the chain, from the root down.
    pub fn priority_order(&self) -> (order: &Vec<(StreamId, u8)>)
        ensures
            order@ == self@.order,
            order::sorted(self@.order),
    {
        proof {
            use_type_invariant(&self.priority_order);
            self.priority_order.lemma_sorted();
        }
        self.priority_order.links()
    }

    /// The next PRIORITY frame to send, oldest first.
    pub fn pop_update(&mut self) -> (update: Option<Priority>)
        ensures
            match update {
                Some(update) => {
                    &&& old(self)@.updates.len() > 0
                    &&& update == old(self)@.updates[0]
                    &&& final(self)@ == (StoreView {
                        updates: old(self)@.updates.skip(1),
                        ..old(self)@
                    })
                },
                None => old(self)@.updates.len() == 0 && final(self)@ == old(self)@,
            },
    {
        let update = self.priority_updates.pop_front();
        assert(update is Some ==> self@.updates =~= old(self)@.updates.skip(1));
        update
    }

    /// The stream that a link at `position` depends on.
    pub fn parent_at(&self, position: usize) -> (parent: StreamId)
        requires
            position <= self@.order.len(),
        ensures
            parent == order::parent_at(self@.order, position as int),
    {
        self.priority_order.parent_at(position)
    }

    /// Drop the links of streams that are closed or gone.
    pub fn prune_priorities(&mut self)
        ensures
            final(self)@ == old(self)@.pruned(),
            order::sorted(old(self)@.order),
            order::sorted(final(self)@.order),
    {
        proof {
            use_type_invariant(&self.priority_order);
            self.priority_order.lemma_sorted();
        }
        let ghost keep = live_links(self@.streams);
        let mut kept: Vec<(StreamId, u8)> = Vec::new();
        let links = self.priority_order.links();
        let mut i: usize = 0;
        while i < links.len()
            invariant
                i <= links@.len(),
                keep == live_links(self@.streams),
                kept@ == links@.take(i as int).filter(keep),
            decreases links@.len() - i,
        {
            let link = links[i];
            let live = match self.find(link.0) {
                Some(stream) => !stream.state.is_closed(),
                None => false,
            };
            if live {
                kept.push(link);
            }
            proof {
                reveal(Seq::filter);
                assert(links@.take(i + 1).drop_last() =~= links@.take(i as int));
            }
            i = i + 1;
        }
        proof {
            assert(links@.take(i as int) =~= links@);
            order::lemma_filter(links@, keep);
        }
        self.priority_order = Chain::from_links(kept);
    }

    /// Record that the initial HEADERS of `id` are sent, and return the priority that they carry.
    pub fn open_priority(&mut self, id: StreamId) -> (dependency: Option<StreamDependency>)
        ensures
            dependency == old(self)@.opening(id),
            final(self)@ == old(self)@.opened(id),
            order::sorted(old(self)@.order),
            order::sorted(final(self)@.order),
    {
        proof {
            use_type_invariant(&self.priority_order);
            self.priority_order.lemma_sorted();
        }
        let weight: u8 = match self.find(id) {
            Some(stream) => match stream.request_priority {
                Some(weight) => weight,
                None => return None,
            },
            None => return None,
        };
        self.prune_priorities();
        let position: usize = self.priority_order.band_end(weight);
        let parent = self.parent_at(position);
        self.priority_order.place(id, weight);
        proof {
            use_type_invariant(&self.priority_order);
            self.priority_order.lemma_sorted();
        }
        Some(StreamDependency::new(parent, weight, true))
    }

    /// Give `id` a new weight, and queue the PRIORITY frames that its move calls for.
    pub fn change_priority(&mut self, id: StreamId, weight: u8)
        ensures
            final(self)@ == old(self)@.changed(id, weight),
            order::sorted(old(self)@.order),
            order::sorted(final(self)@.order),
    {
        proof {
            use_type_invariant(&self.priority_order);
            self.priority_order.lemma_sorted();
        }
        let stream = match self.find(id) {
            Some(stream) => stream,
            None => return,
        };
        if stream.state.is_closed() || stream.request_priority == Some(weight) {
            return;
        }
        self.insert(id, Stream { request_priority: Some(weight), ..stream });
        self.prune_priorities();
        proof {
            assert(live_links(old(self)@.requested(id, weight).streams) =~= live_links(
                old(self)@.streams,
            ));
        }
        let old_position: usize = match self.priority_order.position(id) {
            Some(at) => at,
            // Not sent yet: the initial HEADERS will carry the new weight.
            None => return,
        };
        let ghost order = self@.order;
        proof {
            order::lemma_position(order, id);
        }
        let old_parent = self.parent_at(old_position);
        let new_position: usize = self.priority_order.band_end(weight);
        let mut new_parent = self.parent_at(new_position);
        if new_parent == id {
            new_parent = old_parent;
        }
        if old_parent != new_parent {
            let links = self.priority_order.links();
            let count: usize = links.len();
            if old_position + 1 < count {
                let (child, child_weight) = links[old_position + 1];
                self.priority_updates.push_back(
                    Priority::new(child, StreamDependency::new(old_parent, child_weight, true)),
                );
            }
            self.priority_updates.push_back(
                Priority::new(id, StreamDependency::new(new_parent, weight, true)),
            );
        }
        proof {
            assert(self@.updates =~= old(self)@.updates + order::move_frames(
                order,
                old_position as int,
                weight,
            ));
        }
        self.priority_order.remove(old_position);
        self.priority_order.place(id, weight);
        proof {
            use_type_invariant(&self.priority_order);
            self.priority_order.lemma_sorted();
        }
    }
}

} // verus!
