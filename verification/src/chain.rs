//! The dependency chain as a data structure.

use crate::frame::StreamId;
use crate::order;
use crate::order::Entry;
use vstd::prelude::*;

verus! {

/// Streams and their weight bands; the bands never rise along the chain.
#[derive(Debug)]
pub struct Chain {
    links: Vec<(StreamId, u8)>,
}

impl View for Chain {
    type V = Seq<Entry>;

    closed spec fn view(&self) -> Seq<Entry> {
        self.links@
    }
}

impl Chain {
    /// What holds of every chain.
    #[verifier::type_invariant]
    pub closed spec fn bands_never_rise(self) -> bool {
        order::sorted(self.links@)
    }

    /// The links of a chain are sorted.
    pub proof fn lemma_sorted(self)
        requires
            self.bands_never_rise(),
        ensures
            order::sorted(self@),
    {
    }

    /// A chain of the given links.
    pub fn from_links(links: Vec<(StreamId, u8)>) -> (chain: Chain)
        requires
            order::sorted(links@),
        ensures
            chain@ == links@,
    {
        Chain { links }
    }

    /// The links, from the root down.
    pub fn links(&self) -> (links: &Vec<(StreamId, u8)>)
        ensures
            links@ == self@,
    {
        &self.links
    }

    /// The end of the bands at or above `weight`, by bisection.
    pub fn band_end(&self, weight: u8) -> (end: usize)
        ensures
            end == order::band_end(self@, weight),
            end <= self@.len(),
    {
        proof {
            use_type_invariant(self);
        }
        let mut low: usize = 0;
        let mut high: usize = self.links.len();
        while low < high
            invariant
                low <= high <= self.links@.len(),
                order::sorted(self.links@),
                forall|i: int| 0 <= i < low ==> self.links@[i].1 >= weight,
                forall|i: int| high <= i < self.links@.len() ==> self.links@[i].1 < weight,
            decreases high - low,
        {
            let middle: usize = low + (high - low) / 2;
            if self.links[middle].1 >= weight {
                low = middle + 1;
            } else {
                high = middle;
            }
        }
        proof {
            order::lemma_band_end_unique(self.links@, weight, low as int);
        }
        low
    }

    /// The first place of `id`.
    pub fn position(&self, id: StreamId) -> (at: Option<usize>)
        ensures
            match at {
                Some(at) => order::position(self@, id) == Some(at as int) && at < self@.len(),
                None => order::position(self@, id) is None,
            },
    {
        proof {
            order::lemma_position(self.links@, id);
        }
        let mut i: usize = 0;
        while i < self.links.len()
            invariant
                i <= self.links@.len(),
                forall|k: int| 0 <= k < i ==> (#[trigger] self.links@[k]).0 != id,
                match order::position(self.links@, id) {
                    Some(at) => {
                        &&& 0 <= at < self.links@.len()
                        &&& self.links@[at].0 == id
                        &&& forall|k: int| 0 <= k < at ==> (#[trigger] self.links@[k]).0 != id
                    },
                    None => !order::holds(self.links@, id),
                },
            decreases self.links@.len() - i,
        {
            if self.links[i].0 == id {
                assert(self.links@[i as int].0 == id);
                return Some(i);
            }
            i = i + 1;
        }
        None
    }

    /// The stream before `position`, or the root.
    pub fn parent_at(&self, position: usize) -> (parent: StreamId)
        requires
            position <= self@.len(),
        ensures
            parent == order::parent_at(self@, position as int),
    {
        if position == 0 {
            StreamId::zero()
        } else {
            self.links[position - 1].0
        }
    }

    /// Let `id` take its place in the band of `weight`, behind its peers.
    pub fn place(&mut self, id: StreamId, weight: u8)
        ensures
            final(self)@ == order::placed(old(self)@, id, weight),
    {
        proof {
            use_type_invariant(&*self);
        }
        let position: usize = self.band_end(weight);
        let mut links: Vec<(StreamId, u8)> = Vec::new();
        std::mem::swap(&mut links, &mut self.links);
        links.insert(position, (id, weight));
        proof {
            order::lemma_placed_sorted(old(self)@, id, weight);
        }
        self.links = links;
    }

    /// Take the link at `at` out.
    pub fn remove(&mut self, at: usize)
        requires
            at < old(self)@.len(),
        ensures
            final(self)@ == old(self)@.remove(at as int),
    {
        proof {
            use_type_invariant(&*self);
        }
        let mut links: Vec<(StreamId, u8)> = Vec::new();
        std::mem::swap(&mut links, &mut self.links);
        links.remove(at);
        proof {
            order::lemma_remove_sorted(old(self)@, at as int);
        }
        self.links = links;
    }
}

} // verus!
