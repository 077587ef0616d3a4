//! The dependency tree that the peer keeps, and what a dependency does to it.

use crate::frame::Priority;
use crate::frame::StreamId;
use crate::order;
use crate::order::Entry;
use vstd::prelude::*;

verus! {

/// The parent of each stream of a tree. A stream outside the map is not in the tree. The root is no
/// stream, and has no parent.
pub type Tree = Map<StreamId, StreamId>;

/// The parent of `id`; the root is all that lies above the root, or above a stream that is not in
/// the tree.
pub open spec fn parent_of(tree: Tree, id: StreamId) -> StreamId {
    if tree.contains_key(id) {
        tree[id]
    } else {
        StreamId::zero()
    }
}

/// Where `steps` steps towards the root lead from `id`.
pub open spec fn ancestor(tree: Tree, id: StreamId, steps: nat) -> StreamId
    decreases steps,
{
    if steps == 0 {
        id
    } else {
        parent_of(tree, ancestor(tree, id, (steps - 1) as nat))
    }
}

/// The stream `id` hangs, directly or not, from `other`.
pub open spec fn descends(tree: Tree, id: StreamId, other: StreamId) -> bool {
    exists|steps: nat| steps > 0 && #[trigger] ancestor(tree, id, steps) == other
}

/// The tree once `frame` has been applied (RFC 7540, section 5.3).
///
/// A parent that hangs from the stream itself first takes the place of the stream. An exclusive
/// stream takes over the other children of its parent.
pub open spec fn applied(tree: Tree, frame: Priority) -> Tree {
    let id = frame.stream_id;
    let parent = frame.dependency.dependency_id;
    let freed = if descends(tree, parent, id) {
        tree.insert(parent, parent_of(tree, id))
    } else {
        tree
    };
    let adopted = if frame.dependency.is_exclusive {
        freed.map_entries(
            |child: StreamId, of: StreamId|
                if child != id && of == parent {
                    id
                } else {
                    of
                },
        )
    } else {
        freed
    };
    adopted.insert(id, parent)
}

/// The tree once all of `frames` have been applied, in order.
pub open spec fn applied_all(tree: Tree, frames: Seq<Priority>) -> Tree
    decreases frames.len(),
{
    if frames.len() == 0 {
        tree
    } else {
        applied(applied_all(tree, frames.drop_last()), frames.last())
    }
}

/// One frame is applied by itself.
pub proof fn lemma_applied_one(tree: Tree, frame: Priority)
    ensures
        applied_all(tree, seq![frame]) == applied(tree, frame),
{
    assert(seq![frame].drop_last() =~= Seq::<Priority>::empty());
    reveal_with_fuel(applied_all, 2);
}

/// Two frames are applied one after the other.
pub proof fn lemma_applied_two(tree: Tree, first: Priority, second: Priority)
    ensures
        applied_all(tree, seq![first, second]) == applied(applied(tree, first), second),
{
    assert(seq![first, second].drop_last() =~= seq![first]);
    lemma_applied_one(tree, first);
}

/// The tree once the peer has forgotten a closed stream: its children go to its parent
/// (RFC 7540, section 5.3.4).
pub open spec fn retired(tree: Tree, id: StreamId) -> Tree {
    tree.remove(id).map_entries(
        |child: StreamId, of: StreamId|
            if of == id {
                parent_of(tree, id)
            } else {
                of
            },
    )
}

/// In the tree, the link at `at` hangs from the one before it, and the first from the root.
pub open spec fn hangs(tree: Tree, order: Seq<Entry>, at: int) -> bool {
    tree.contains_key(order[at].0) && tree[order[at].0] == order::parent_at(order, at)
}

/// In the tree, each link of the chain hangs where it should. Other streams may hang where they
/// like.
pub open spec fn follows(tree: Tree, order: Seq<Entry>) -> bool {
    &&& !tree.contains_key(StreamId::zero())
    &&& forall|i: int| 0 <= i < order.len() ==> #[trigger] hangs(tree, order, i)
}

/// The streams of the chain are streams, and each stands in it once.
pub open spec fn linked(order: Seq<Entry>) -> bool {
    &&& order::distinct(order)
    &&& !order::holds(order, StreamId::zero())
}

/// Towards the root, a link of the chain meets those before it, and then the root.
proof fn lemma_ancestors(tree: Tree, order: Seq<Entry>, at: int, steps: nat)
    requires
        follows(tree, order),
        0 <= at < order.len(),
    ensures
        ancestor(tree, order[at].0, steps) == (if steps <= at {
            order[at - steps].0
        } else {
            StreamId::zero()
        }),
    decreases steps,
{
    if steps > 0 {
        lemma_ancestors(tree, order, at, (steps - 1) as nat);
        if steps - 1 <= at {
            assert(hangs(tree, order, at - (steps - 1)));
        }
    }
}

/// A stream outside the chain is above none of its links.
proof fn lemma_not_above(tree: Tree, order: Seq<Entry>, place: int, id: StreamId)
    requires
        follows(tree, order),
        0 <= place <= order.len(),
        id != StreamId::zero(),
        forall|i: int| 0 <= i < place - 1 ==> (#[trigger] order[i]).0 != id,
    ensures
        !descends(tree, order::parent_at(order, place), id),
{
    let parent = order::parent_at(order, place);
    assert forall|steps: nat| steps > 0 implies #[trigger] ancestor(tree, parent, steps) != id by {
        if place == 0 {
            lemma_root_has_no_ancestors(tree, steps);
        } else {
            lemma_ancestors(tree, order, place - 1, steps);
            if steps <= place - 1 {
                assert(order[place - 1 - steps].0 != id);
            }
        }
    }
}

/// Above the root there is nothing but the root.
proof fn lemma_root_has_no_ancestors(tree: Tree, steps: nat)
    requires
        !tree.contains_key(StreamId::zero()),
    ensures
        ancestor(tree, StreamId::zero(), steps) == StreamId::zero(),
    decreases steps,
{
    if steps > 0 {
        lemma_root_has_no_ancestors(tree, (steps - 1) as nat);
    }
}

/// A stream outside the chain that becomes the exclusive child of the link before `place` stands
/// in the chain at `place`.
pub proof fn lemma_attached(tree: Tree, order: Seq<Entry>, place: int, id: StreamId, weight: u8)
    requires
        follows(tree, order),
        linked(order),
        0 <= place <= order.len(),
        id != StreamId::zero(),
        !order::holds(order, id),
    ensures
        follows(
            applied(tree, order::reparented(id, order::parent_at(order, place), weight)),
            order.insert(place, (id, weight)),
        ),
{
    let parent = order::parent_at(order, place);
    let frame = order::reparented(id, parent, weight);
    let after = applied(tree, frame);
    let longer = order.insert(place, (id, weight));
    lemma_not_above(tree, order, place, id);
    assert forall|i: int| 0 <= i < longer.len() implies #[trigger] hangs(after, longer, i) by {
        if i < place {
            assert(hangs(tree, order, i));
            assert(longer[i] == order[i]);
            assert(order[i].0 != id);
            if i > 0 {
                assert(longer[i - 1] == order[i - 1]);
                if place > 0 {
                    assert(order[i - 1].0 != order[place - 1].0);
                }
                assert(order[i - 1].0 != StreamId::zero());
            } else if place > 0 {
                assert(order[place - 1].0 != StreamId::zero());
            }
        } else if i > place {
            assert(hangs(tree, order, i - 1));
            assert(longer[i] == order[i - 1]);
            assert(order[i - 1].0 != id);
            if i - 1 > place {
                assert(longer[i - 1] == order[i - 2]);
                assert(order[i - 2].0 != StreamId::zero());
                if place > 0 {
                    assert(order[place - 1].0 != order[i - 2].0);
                }
            } else {
                assert(longer[i - 1].0 == id);
            }
        }
    }
}

/// A link whose child goes to its parent, exclusively, is out of the chain.
pub proof fn lemma_detached(tree: Tree, order: Seq<Entry>, at: int, weight: u8)
    requires
        follows(tree, order),
        linked(order),
        0 <= at,
        at + 1 < order.len(),
    ensures
        follows(
            applied(tree, order::reparented(order[at + 1].0, order::parent_at(order, at), weight)),
            order.remove(at),
        ),
{
    let child = order[at + 1].0;
    let parent = order::parent_at(order, at);
    let after = applied(tree, order::reparented(child, parent, weight));
    let rest = order.remove(at);
    assert(child != StreamId::zero());
    assert forall|i: int| 0 <= i < at - 1 implies (#[trigger] order[i]).0 != child by {
        assert(order[i].0 != order[at + 1].0);
    }
    lemma_not_above(tree, order, at, child);
    assert forall|i: int| 0 <= i < rest.len() implies #[trigger] hangs(after, rest, i) by {
        if i < at {
            assert(hangs(tree, order, i));
            assert(rest[i] == order[i]);
            assert(order[i].0 != order[at + 1].0);
            if i > 0 {
                assert(rest[i - 1] == order[i - 1]);
                assert(order[i - 1].0 != order[at - 1].0);
                assert(order[i - 1].0 != StreamId::zero());
            } else {
                assert(order[at - 1].0 != StreamId::zero());
            }
        } else if i == at {
            assert(hangs(tree, order, at + 1));
            assert(rest[i] == order[at + 1]);
            if at > 0 {
                assert(rest[i - 1] == order[at - 1]);
            }
        } else {
            assert(hangs(tree, order, i + 1));
            assert(rest[i] == order[i + 1]);
            assert(rest[i - 1] == order[i]);
            assert(order[i + 1].0 != order[at + 1].0);
            assert(order[i].0 != StreamId::zero());
            if at > 0 {
                assert(order[at - 1].0 != order[i].0);
            }
        }
    }
}

/// A link that the peer has forgotten is out of the chain.
pub proof fn lemma_retired(tree: Tree, order: Seq<Entry>, at: int)
    requires
        follows(tree, order),
        linked(order),
        0 <= at < order.len(),
    ensures
        follows(retired(tree, order[at].0), order.remove(at)),
{
    let id = order[at].0;
    let after = retired(tree, id);
    let rest = order.remove(at);
    assert(hangs(tree, order, at));
    assert(id != StreamId::zero());
    assert forall|i: int| 0 <= i < rest.len() implies #[trigger] hangs(after, rest, i) by {
        if i < at {
            assert(hangs(tree, order, i));
            assert(rest[i] == order[i]);
            assert(order[i].0 != order[at].0);
            if i > 0 {
                assert(rest[i - 1] == order[i - 1]);
                assert(order[i - 1].0 != order[at].0);
            }
        } else if i == at {
            assert(hangs(tree, order, at + 1));
            assert(rest[i] == order[at + 1]);
            assert(order[at + 1].0 != order[at].0);
            if at > 0 {
                assert(rest[i - 1] == order[at - 1]);
            }
        } else {
            assert(hangs(tree, order, i + 1));
            assert(rest[i] == order[i + 1]);
            assert(rest[i - 1] == order[i]);
            assert(order[i + 1].0 != order[at].0);
            assert(order[i].0 != order[at].0);
        }
    }
}

/// That the peer forgets a stream outside the chain does not touch the chain.
pub proof fn lemma_retired_outside(tree: Tree, order: Seq<Entry>, id: StreamId)
    requires
        follows(tree, order),
        id != StreamId::zero(),
        !order::holds(order, id),
    ensures
        follows(retired(tree, id), order),
{
    let after = retired(tree, id);
    assert forall|i: int| 0 <= i < order.len() implies #[trigger] hangs(after, order, i) by {
        assert(hangs(tree, order, i));
        assert(order[i].0 != id);
        if i > 0 {
            assert(order[i - 1].0 != id);
        }
    }
}

} // verus!
