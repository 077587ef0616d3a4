//! The dependency chain as a sequence: what it means for a stream to have a place in it,
//! to take one, and to change it.

use crate::frame::Priority;
use crate::frame::StreamDependency;
use crate::frame::StreamId;
use vstd::prelude::*;

verus! {

/// One link of the chain: a stream and the weight band that it stands in.
pub type Entry = (StreamId, u8);

/// Bands never rise along the chain.
pub open spec fn sorted(order: Seq<Entry>) -> bool {
    forall|i: int, j: int| 0 <= i <= j < order.len() ==> order[i].1 >= order[j].1
}

/// No stream stands in the chain twice.
pub open spec fn distinct(order: Seq<Entry>) -> bool {
    forall|i: int, j: int|
        #![trigger order[i], order[j]]
        0 <= i < j < order.len() ==> order[i].0 != order[j].0
}

/// The chain holds a link for `id`.
pub open spec fn holds(order: Seq<Entry>, id: StreamId) -> bool {
    exists|i: int| 0 <= i < order.len() && (#[trigger] order[i]).0 == id
}

/// Where the bands at or above `weight` end: just behind the last link of such a band.
pub open spec fn band_end(order: Seq<Entry>, weight: u8) -> int
    decreases order.len(),
{
    if order.len() == 0 {
        0
    } else if order.last().1 >= weight {
        order.len() as int
    } else {
        band_end(order.drop_last(), weight)
    }
}

/// The stream that a link at `position` depends on: the one before it, or the root.
pub open spec fn parent_at(order: Seq<Entry>, position: int) -> StreamId {
    if position == 0 {
        StreamId::zero()
    } else {
        order[position - 1].0
    }
}

/// The first place at which `id` stands in the chain.
pub open spec fn position(order: Seq<Entry>, id: StreamId) -> Option<int>
    decreases order.len(),
{
    if order.len() == 0 {
        None
    } else {
        match position(order.drop_last(), id) {
            Some(at) => Some(at),
            None => if order.last().0 == id {
                Some(order.len() - 1)
            } else {
                None
            },
        }
    }
}

/// The chain once `id` has taken its place in the band of `weight`, behind its peers.
pub open spec fn placed(order: Seq<Entry>, id: StreamId, weight: u8) -> Seq<Entry> {
    order.insert(band_end(order, weight), (id, weight))
}

/// The chain once the link at `at` has moved to the band of `weight`.
pub open spec fn moved(order: Seq<Entry>, at: int, weight: u8) -> Seq<Entry> {
    placed(order.remove(at), order[at].0, weight)
}

/// The parent that the link at `at` gets by moving to the band of `weight`: the last stream
/// at or above that weight, or the parent that it has already where that stream is itself.
pub open spec fn new_parent(order: Seq<Entry>, at: int, weight: u8) -> StreamId {
    let nearest = parent_at(order, band_end(order, weight));
    if nearest == order[at].0 {
        parent_at(order, at)
    } else {
        nearest
    }
}

/// A frame that makes `id` the exclusive child of `parent`.
pub open spec fn reparented(id: StreamId, parent: StreamId, weight: u8) -> Priority {
    Priority {
        stream_id: id,
        dependency: StreamDependency { dependency_id: parent, weight, is_exclusive: true },
    }
}

/// The frames that tell the peer of the move of the link at `at`: none where its parent stays;
/// else its child is handed to its old parent first, and then it goes to its new one.
pub open spec fn move_frames(order: Seq<Entry>, at: int, weight: u8) -> Seq<Priority> {
    let old = parent_at(order, at);
    let new = new_parent(order, at, weight);
    let own = seq![reparented(order[at].0, new, weight)];
    if old == new {
        Seq::empty()
    } else if at + 1 < order.len() {
        seq![reparented(order[at + 1].0, old, order[at + 1].1)] + own
    } else {
        own
    }
}

/// `band_end` is the border that its name promises.
pub proof fn lemma_band_end(order: Seq<Entry>, weight: u8)
    ensures
        0 <= band_end(order, weight) <= order.len(),
        band_end(order, weight) > 0 ==> order[band_end(order, weight) - 1].1 >= weight,
        forall|i: int| band_end(order, weight) <= i < order.len() ==> order[i].1 < weight,
    decreases order.len(),
{
    if order.len() > 0 && order.last().1 < weight {
        lemma_band_end(order.drop_last(), weight);
        assert forall|i: int| band_end(order, weight) <= i < order.len() implies order[i].1
            < weight by {
            if i < order.len() - 1 {
                assert(order.drop_last()[i] == order[i]);
            }
        }
    }
}

/// The border is the only place with that property.
pub proof fn lemma_band_end_unique(order: Seq<Entry>, weight: u8, border: int)
    requires
        0 <= border <= order.len(),
        border > 0 ==> order[border - 1].1 >= weight,
        forall|i: int| border <= i < order.len() ==> order[i].1 < weight,
    ensures
        border == band_end(order, weight),
{
    lemma_band_end(order, weight);
}

/// `position` finds the first link of `id`, if and only if there is one.
pub proof fn lemma_position(order: Seq<Entry>, id: StreamId)
    ensures
        match position(order, id) {
            Some(at) => {
                &&& 0 <= at < order.len()
                &&& order[at].0 == id
                &&& forall|i: int| 0 <= i < at ==> (#[trigger] order[i]).0 != id
            },
            None => !holds(order, id),
        },
    decreases order.len(),
{
    if order.len() > 0 {
        let front = order.drop_last();
        lemma_position(front, id);
        assert(forall|i: int| 0 <= i < front.len() ==> front[i] == order[i]);
        if position(front, id) is None {
            assert forall|i: int| 0 <= i < front.len() implies (#[trigger] order[i]).0 != id by {
                assert(front[i].0 != id);
            }
        }
    }
}

/// Taking a place in the band of `weight` keeps the chain sorted.
pub proof fn lemma_placed_sorted(order: Seq<Entry>, id: StreamId, weight: u8)
    requires
        sorted(order),
    ensures
        sorted(placed(order, id, weight)),
{
    lemma_band_end(order, weight);
    let end = band_end(order, weight);
    let after = placed(order, id, weight);
    assert forall|i: int, j: int| 0 <= i <= j < after.len() implies after[i].1 >= after[j].1 by {
        assert(i < end ==> after[i] == order[i]);
        assert(i > end ==> after[i] == order[i - 1]);
        assert(j < end ==> after[j] == order[j]);
        assert(j > end ==> after[j] == order[j - 1]);
        if i < end {
            assert(order[i].1 >= order[end - 1].1);
        }
    }
}

/// Taking one link out keeps the chain sorted.
pub proof fn lemma_remove_sorted(order: Seq<Entry>, at: int)
    requires
        sorted(order),
        0 <= at < order.len(),
    ensures
        sorted(order.remove(at)),
{
    let rest = order.remove(at);
    assert forall|i: int, j: int| 0 <= i <= j < rest.len() implies rest[i].1 >= rest[j].1 by {
        assert(rest[i] == order[if i < at { i } else { i + 1 }]);
        assert(rest[j] == order[if j < at { j } else { j + 1 }]);
    }
}

/// Leaving links out keeps the chain sorted, and leaves only links that it held.
pub proof fn lemma_filter(order: Seq<Entry>, keep: spec_fn(Entry) -> bool)
    ensures
        sorted(order) ==> sorted(order.filter(keep)),
        distinct(order) ==> distinct(order.filter(keep)),
        forall|i: int|
            0 <= i < order.filter(keep).len() ==> keep(#[trigger] order.filter(keep)[i])
                && order.contains(order.filter(keep)[i]),
    decreases order.len(),
{
    reveal(Seq::filter);
    let kept = order.filter(keep);
    if order.len() > 0 {
        let front = order.drop_last();
        let last = order.last();
        lemma_filter(front, keep);
        let kept_front = front.filter(keep);
        assert forall|i: int| 0 <= i < kept_front.len() implies order.contains(
            #[trigger] kept_front[i],
        ) by {
            let j = choose|j: int| 0 <= j < front.len() && front[j] == kept_front[i];
            assert(order[j] == kept_front[i]);
        }
        if sorted(order) {
            assert(sorted(front)) by {
                assert forall|i: int, j: int| 0 <= i <= j < front.len() implies front[i].1
                    >= front[j].1 by {
                    assert(front[i] == order[i] && front[j] == order[j]);
                }
            }
            assert forall|i: int, j: int| 0 <= i <= j < kept.len() implies kept[i].1
                >= kept[j].1 by {
                if i < kept_front.len() && j == kept_front.len() {
                    let k = choose|k: int| 0 <= k < front.len() && front[k] == kept_front[i];
                    assert(order[k] == kept[i]);
                    assert(kept[j] == order[order.len() - 1]);
                } else if j < kept_front.len() {
                    assert(kept[i] == kept_front[i] && kept[j] == kept_front[j]);
                }
            }
        }
        if distinct(order) {
            assert(distinct(front)) by {
                assert forall|i: int, j: int|
                    #![trigger front[i], front[j]]
                    0 <= i < j < front.len() implies front[i].0 != front[j].0 by {
                    assert(front[i] == order[i] && front[j] == order[j]);
                }
            }
            assert forall|i: int, j: int|
                #![trigger kept[i], kept[j]]
                0 <= i < j < kept.len() implies kept[i].0 != kept[j].0 by {
                if j == kept_front.len() {
                    let k = choose|k: int| 0 <= k < front.len() && front[k] == kept_front[i];
                    assert(order[k] == kept[i]);
                    assert(kept[j] == order[order.len() - 1]);
                } else {
                    assert(kept[i] == kept_front[i] && kept[j] == kept_front[j]);
                }
            }
        }
        assert forall|i: int| 0 <= i < kept.len() implies keep(#[trigger] kept[i])
            && order.contains(kept[i]) by {
            if i < kept_front.len() {
                assert(kept[i] == kept_front[i]);
            } else {
                assert(kept[i] == last);
                assert(order[order.len() - 1] == last);
            }
        }
    }
}

} // verus!
