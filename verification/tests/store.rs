//! The dependency chain of a store.

use h2_priority::frame::Priority;
use h2_priority::frame::StreamDependency;
use h2_priority::frame::StreamId;
use h2_priority::store::State;
use h2_priority::store::Store;
use h2_priority::store::Stream;
use std::collections::HashMap;

fn stream(weight: u8) -> Stream {
    Stream {
        state: State::Active,
        request_priority: Some(weight),
    }
}

/// A store whose streams have been opened in the given order.
fn opened(streams: &[(u32, u8)]) -> Store {
    let mut store = Store::new();
    for (id, weight) in streams {
        store.insert(StreamId(*id), stream(*weight));
        store.open_priority(StreamId(*id)).unwrap();
    }
    store
}

fn order(store: &Store) -> Vec<(u32, u8)> {
    store
        .priority_order()
        .iter()
        .map(|(id, weight)| (id.0, *weight))
        .collect()
}

fn frame(id: u32, parent: u32, weight: u8) -> Priority {
    Priority::new(
        StreamId(id),
        StreamDependency::new(StreamId(parent), weight, true),
    )
}

fn frames(store: &mut Store) -> Vec<Priority> {
    let mut frames = Vec::new();
    while let Some(frame) = store.pop_update() {
        frames.push(frame);
    }
    frames
}

/// The tree of a peer that keeps the streams of the chain only.
fn tree_of(store: &Store) -> HashMap<u32, u32> {
    let mut parent = 0;
    let mut tree = HashMap::new();
    for (id, _) in order(store) {
        tree.insert(id, parent);
        parent = id;
    }
    tree
}

fn hangs_from(tree: &HashMap<u32, u32>, id: u32, other: u32) -> bool {
    let mut at = id;
    while let Some(parent) = tree.get(&at) {
        if *parent == other {
            return true;
        }
        at = *parent;
    }
    false
}

/// Apply a frame as RFC 7540 says.
fn apply(tree: &mut HashMap<u32, u32>, frame: &Priority) {
    let id = frame.stream_id.0;
    let parent = frame.dependency.dependency_id.0;
    if hangs_from(tree, parent, id) {
        let old = tree[&id];
        tree.insert(parent, old);
    }
    if frame.dependency.is_exclusive {
        for (child, of) in tree.iter_mut() {
            if *child != id && *of == parent {
                *of = id;
            }
        }
    }
    tree.insert(id, parent);
}

#[test]
fn a_new_store_is_empty() {
    let mut store = Store::new();
    assert_eq!(order(&store), []);
    assert_eq!(store.pop_update(), None);
    assert_eq!(store.find(StreamId(1)), None);
    assert_eq!(store.parent_at(0), StreamId::zero());
}

#[test]
fn streams_can_be_put_in_closed_and_forgotten() {
    let mut store = Store::new();
    let id = StreamId(5);
    store.close(id);
    store.remove(id);
    assert_eq!(store.find(id), None);
    store.insert(id, stream(7));
    assert_eq!(store.find(id), Some(stream(7)));
    store.close(id);
    let closed = store.find(id).unwrap();
    assert!(closed.state.is_closed());
    assert_eq!(closed.request_priority, Some(7));
    store.remove(id);
    assert_eq!(store.find(id), None);
}

#[test]
fn opening_takes_the_place_behind_equal_weights() {
    let store = opened(&[(1, 100), (3, 200), (5, 200), (9, 50), (11, 255), (13, 100)]);
    assert_eq!(
        order(&store),
        [(11, 255), (3, 200), (5, 200), (1, 100), (13, 100), (9, 50)]
    );
    assert_eq!(store.parent_at(0), StreamId(0));
    assert_eq!(store.parent_at(1), StreamId(11));
    assert_eq!(store.parent_at(6), StreamId(9));
}

#[test]
fn opening_gives_the_exact_dependency() {
    let mut store = opened(&[(1, 100)]);
    store.insert(StreamId(3), stream(100));
    assert_eq!(
        store.open_priority(StreamId(3)),
        Some(StreamDependency::new(StreamId(1), 100, true))
    );
    store.insert(StreamId(5), stream(101));
    assert_eq!(
        store.open_priority(StreamId(5)),
        Some(StreamDependency::new(StreamId(0), 101, true))
    );
}

#[test]
fn opening_without_a_priority_changes_nothing() {
    let mut store = opened(&[(1, 100), (3, 10)]);
    store.close(StreamId(1));
    assert_eq!(store.open_priority(StreamId(9)), None);
    store.insert(
        StreamId(5),
        Stream {
            state: State::Active,
            request_priority: None,
        },
    );
    assert_eq!(store.open_priority(StreamId(5)), None);
    // Not even the closed stream has left the chain.
    assert_eq!(order(&store), [(1, 100), (3, 10)]);
}

#[test]
fn pruning_drops_closed_and_forgotten_streams() {
    let mut store = opened(&[(1, 5), (3, 4), (5, 3), (7, 2)]);
    store.close(StreamId(1));
    store.remove(StreamId(5));
    store.prune_priorities();
    assert_eq!(order(&store), [(3, 4), (7, 2)]);
    store.prune_priorities();
    assert_eq!(order(&store), [(3, 4), (7, 2)]);
    assert_eq!(frames(&mut store), []);
}

#[test]
fn a_change_to_a_lower_band_reconnects_the_child_first() {
    let mut store = opened(&[(1, 30), (3, 20), (5, 10)]);
    store.change_priority(StreamId(1), 15);
    assert_eq!(order(&store), [(3, 20), (1, 15), (5, 10)]);
    assert_eq!(frames(&mut store), [frame(3, 0, 20), frame(1, 3, 15)]);
}

#[test]
fn a_change_of_the_last_stream_has_no_child_to_reconnect() {
    let mut store = opened(&[(1, 30), (3, 20), (5, 10)]);
    store.change_priority(StreamId(5), 40);
    assert_eq!(order(&store), [(5, 40), (1, 30), (3, 20)]);
    assert_eq!(frames(&mut store), [frame(5, 0, 40)]);
}

#[test]
fn a_change_that_keeps_the_parent_sends_no_frame() {
    let mut store = opened(&[(1, 30), (3, 20), (5, 10)]);
    store.change_priority(StreamId(3), 30);
    assert_eq!(order(&store), [(1, 30), (3, 30), (5, 10)]);
    store.change_priority(StreamId(3), 11);
    assert_eq!(order(&store), [(1, 30), (3, 11), (5, 10)]);
    store.change_priority(StreamId(1), 255);
    assert_eq!(order(&store), [(1, 255), (3, 11), (5, 10)]);
    assert_eq!(frames(&mut store), []);
}

#[test]
fn a_change_to_an_equal_weight_goes_behind_its_peers() {
    let mut store = opened(&[(1, 30), (3, 20), (5, 20)]);
    store.change_priority(StreamId(1), 20);
    assert_eq!(order(&store), [(3, 20), (5, 20), (1, 20)]);
    assert_eq!(frames(&mut store), [frame(3, 0, 20), frame(1, 5, 20)]);
}

#[test]
fn frames_wait_in_the_order_of_the_changes() {
    let mut store = opened(&[(1, 30), (3, 20)]);
    store.change_priority(StreamId(3), 40);
    store.change_priority(StreamId(1), 50);
    assert_eq!(order(&store), [(1, 50), (3, 40)]);
    assert_eq!(frames(&mut store), [frame(3, 0, 40), frame(1, 0, 50)]);
}

#[test]
fn a_change_before_opening_only_sets_the_weight() {
    let mut store = opened(&[(1, 30)]);
    store.insert(StreamId(3), stream(10));
    store.change_priority(StreamId(3), 90);
    store.change_priority(StreamId(3), 20);
    assert_eq!(order(&store), [(1, 30)]);
    assert_eq!(frames(&mut store), []);
    assert_eq!(
        store.open_priority(StreamId(3)),
        Some(StreamDependency::new(StreamId(1), 20, true))
    );
}

#[test]
fn a_change_prunes_before_it_looks_for_a_parent() {
    let mut store = opened(&[(1, 30), (3, 20), (5, 10)]);
    store.close(StreamId(1));
    store.change_priority(StreamId(5), 25);
    assert_eq!(order(&store), [(5, 25), (3, 20)]);
    assert_eq!(frames(&mut store), [frame(5, 0, 25)]);
}

#[test]
fn a_change_of_a_closed_or_unknown_stream_changes_nothing() {
    let mut store = opened(&[(1, 30), (3, 20)]);
    store.close(StreamId(3));
    store.change_priority(StreamId(3), 40);
    store.change_priority(StreamId(7), 40);
    assert_eq!(order(&store), [(1, 30), (3, 20)]);
    assert_eq!(store.find(StreamId(3)).unwrap().request_priority, Some(20));
    assert_eq!(store.find(StreamId(7)), None);
    assert_eq!(frames(&mut store), []);
}

#[test]
fn a_repeated_change_changes_nothing() {
    let mut store = opened(&[(1, 30), (3, 20), (5, 20)]);
    store.change_priority(StreamId(3), 20);
    assert_eq!(order(&store), [(1, 30), (3, 20), (5, 20)]);
    store.change_priority(StreamId(3), 40);
    frames(&mut store);
    store.change_priority(StreamId(3), 40);
    assert_eq!(frames(&mut store), []);
    assert_eq!(order(&store), [(3, 40), (1, 30), (5, 20)]);
}

#[test]
fn a_stream_can_gain_a_priority_by_a_change() {
    let mut store = opened(&[(1, 30)]);
    store.insert(
        StreamId(3),
        Stream {
            state: State::Active,
            request_priority: None,
        },
    );
    store.change_priority(StreamId(3), 31);
    assert_eq!(
        store.open_priority(StreamId(3)),
        Some(StreamDependency::new(StreamId(0), 31, true))
    );
}

#[test]
fn the_tree_of_the_peer_follows_the_chain() {
    for target in [1, 3, 5, 7, 9] {
        for weight in 0..=60 {
            let mut store = opened(&[(1, 50), (3, 40), (5, 40), (7, 20), (9, 10)]);
            let mut tree = tree_of(&store);
            store.change_priority(StreamId(target), weight);
            for frame in frames(&mut store) {
                apply(&mut tree, &frame);
            }
            assert_eq!(tree, tree_of(&store));
            store.insert(StreamId(11), stream(40));
            let dependency = store.open_priority(StreamId(11)).unwrap();
            apply(&mut tree, &Priority::new(StreamId(11), dependency));
            assert_eq!(tree, tree_of(&store));
        }
    }
}

#[test]
fn a_closed_stream_hands_its_child_to_its_parent() {
    let mut store = opened(&[(1, 50), (3, 40), (5, 30)]);
    let mut tree = tree_of(&store);
    store.close(StreamId(3));
    let parent = tree.remove(&3).unwrap();
    for of in tree.values_mut() {
        if *of == 3 {
            *of = parent;
        }
    }
    store.prune_priorities();
    assert_eq!(tree, tree_of(&store));
}

#[test]
fn a_forgotten_stream_leaves_only_its_own_place() {
    let mut store = opened(&[(1, 50), (3, 40), (5, 30)]);
    let mut tree = tree_of(&store);
    store.remove(StreamId(1));
    let parent = tree.remove(&1).unwrap();
    for of in tree.values_mut() {
        if *of == 1 {
            *of = parent;
        }
    }
    store.prune_priorities();
    assert_eq!(order(&store), [(3, 40), (5, 30)]);
    assert_eq!(tree, tree_of(&store));
}
