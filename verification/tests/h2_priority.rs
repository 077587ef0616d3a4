//! Requests, their controls and what a connection would send for them.

use h2_priority::connection::Inner;
use h2_priority::control::RequestPriority;
use h2_priority::control::UserError;
use h2_priority::frame::Priority;
use h2_priority::frame::StreamDependency;
use h2_priority::frame::StreamId;
use h2_priority::store::State;
use h2_priority::store::Stream;
use parking_lot::Mutex;
use std::sync::atomic::AtomicUsize;
use std::sync::atomic::Ordering;
use std::sync::Arc;
use std::task::Wake;
use std::task::Waker;

/// The sending side of a connection, without the wire.
struct Client {
    connection: Arc<Mutex<Inner>>,
    next_id: u32,
}

impl Client {
    fn new() -> Client {
        Client {
            connection: Arc::new(Mutex::new(Inner::new(None))),
            next_id: 1,
        }
    }

    fn send_request(&mut self, priority: Option<&RequestPriority>) -> Result<StreamId, UserError> {
        let id = StreamId(self.next_id);
        match priority {
            Some(priority) => {
                let mut locked = priority.for_request()?;
                let stream = Stream {
                    state: State::Active,
                    request_priority: Some(locked.state().weight),
                };
                self.connection.lock().store.insert(id, stream);
                locked.state().bind(&self.connection, id);
            }
            None => {
                let stream = Stream {
                    state: State::Active,
                    request_priority: None,
                };
                self.connection.lock().store.insert(id, stream);
            }
        }
        self.next_id += 2;
        Ok(id)
    }

    /// The priority in the HEADERS of `id`, as the five bytes that stand for it on the wire.
    fn headers(&self, id: StreamId) -> Option<[u8; 5]> {
        self.connection
            .lock()
            .store
            .open_priority(id)
            .map(|dependency| payload(&dependency))
    }

    /// The next PRIORITY frame: the stream and the five bytes of its payload.
    fn priority_frame(&self) -> Option<(u32, [u8; 5])> {
        let frame: Option<Priority> = self.connection.lock().store.pop_update();
        frame.map(|frame| (frame.stream_id.0, payload(&frame.dependency)))
    }

    fn headers_without_priority_frame(&self, id: StreamId) -> [u8; 5] {
        assert_eq!(
            self.priority_frame(),
            None,
            "parent did not change; no PRIORITY expected"
        );
        self.headers(id).unwrap()
    }
}

fn payload(dependency: &StreamDependency) -> [u8; 5] {
    let [mut a, b, c, d] = dependency.dependency_id.0.to_be_bytes();
    if dependency.is_exclusive {
        a |= 0x80;
    }
    [a, b, c, d, dependency.weight]
}

#[test]
fn request_headers_depend_on_the_nearest_live_weight_band() {
    let mut client = Client::new();
    let mut ids = Vec::new();
    for weight in [Some(100), Some(200), Some(200), None, Some(50), Some(255)] {
        let priority = weight.map(RequestPriority::new);
        ids.push(client.send_request(priority.as_ref()).unwrap());
    }
    // High streams do not depend on a lower band. Equal peers chain;
    // the low stream selects band 100, not the most recent band 200.
    for (sent, (id, priority)) in ids.into_iter().zip([
        (1, Some([0x80, 0, 0, 0, 100])),
        (3, Some([0x80, 0, 0, 0, 200])),
        (5, Some([0x80, 0, 0, 3, 200])),
        (7, None),
        (9, Some([0x80, 0, 0, 1, 50])),
        (11, Some([0x80, 0, 0, 0, 255])),
    ]) {
        assert_eq!(client.priority_frame(), None, "initial priorities belong in HEADERS");
        assert_eq!(sent, StreamId(id));
        assert_eq!(client.headers(sent), priority);
    }
}

#[test]
fn ordered_priority_changes_affect_the_next_headers_without_extra_frames() {
    let mut client = Client::new();
    let first = RequestPriority::new(100);
    let second = RequestPriority::new(100);
    let one = client.send_request(Some(&first)).unwrap();
    let three = client.send_request(Some(&second)).unwrap();
    assert_eq!(client.headers_without_priority_frame(one), [0x80, 0, 0, 0, 100]);
    assert_eq!(client.headers_without_priority_frame(three), [0x80, 0, 0, 1, 100]);
    // These promotions change neither stream's parent, so they emit
    // no PRIORITY frames. Their order still determines the next parent.
    first.set_weight(200);
    second.set_weight(200);
    let five = client
        .send_request(Some(&RequestPriority::new(200)))
        .unwrap();
    assert_eq!(client.headers_without_priority_frame(five), [0x80, 0, 0, 3, 200]);
}

#[test]
fn reprioritization_reconnects_the_old_child_before_later_headers() {
    let mut client = Client::new();
    let moved = RequestPriority::new(100);
    let one = client.send_request(Some(&moved)).unwrap();
    let three = client
        .send_request(Some(&RequestPriority::new(200)))
        .unwrap();
    let five = client
        .send_request(Some(&RequestPriority::new(100)))
        .unwrap();
    for (id, expected) in [
        (one, [0x80, 0, 0, 0, 100]),
        (three, [0x80, 0, 0, 0, 200]),
        (five, [0x80, 0, 0, 1, 100]),
    ] {
        assert_eq!(client.headers_without_priority_frame(id), expected);
    }
    moved.set_weight(255);
    let seven = client
        .send_request(Some(&RequestPriority::new(255)))
        .unwrap();
    // Move stream 1 ahead of stream 3. Reconnect its old child 5 to
    // old parent 3, then move 1 to root, all before the new HEADERS.
    for (id, expected) in [(5, [0x80, 0, 0, 3, 100]), (1, [0x80, 0, 0, 0, 255])] {
        assert_eq!(client.priority_frame(), Some((id, expected)));
    }
    assert_eq!(client.headers_without_priority_frame(seven), [0x80, 0, 0, 1, 255]);
}

#[test]
fn changes_before_first_poll_only_affect_initial_headers() {
    let mut client = Client::new();
    let priority = RequestPriority::new(10);
    let first = client
        .send_request(Some(&RequestPriority::new(100)))
        .unwrap();
    let second = client.send_request(Some(&priority)).unwrap();
    // The same controller may not bind two simultaneous streams.
    let error = client
        .send_request(Some(&priority))
        .expect_err("one priority control cannot bind concurrent streams");
    assert_eq!(error, UserError::Rejected);
    priority.set_weight(200);
    priority.set_weight(100);
    priority.set_weight(200);
    assert_eq!(client.headers_without_priority_frame(first), [0x80, 0, 0, 0, 100]);
    assert_eq!(client.headers_without_priority_frame(second), [0x80, 0, 0, 0, 200]);
}

#[test]
fn closed_streams_are_not_parents_and_controls_can_bind_a_retry() {
    for forgotten in [false, true] {
        let mut client = Client::new();
        let old = RequestPriority::new(100);
        let first = client
            .send_request(Some(&RequestPriority::new(100)))
            .unwrap();
        let second = client.send_request(Some(&old)).unwrap();
        assert_eq!(client.headers_without_priority_frame(first), [0x80, 0, 0, 0, 100]);
        assert_eq!(client.headers_without_priority_frame(second), [0x80, 0, 0, 1, 100]);
        client.connection.lock().store.close(second);
        if forgotten {
            client.connection.lock().store.remove(second);
        }
        old.set_weight(255); // Must not revive the closed stream.
        let next = client
            .send_request(Some(&RequestPriority::new(100)))
            .unwrap();
        assert_eq!(client.headers_without_priority_frame(next), [0x80, 0, 0, 1, 100]);
        // Reuse on a later attempt, with the latest value.
        let retry = client.send_request(Some(&old)).unwrap();
        assert_eq!(retry, StreamId(7));
        assert_eq!(client.headers_without_priority_frame(retry), [0x80, 0, 0, 0, 255]);
        let last = client
            .send_request(Some(&RequestPriority::new(255)))
            .unwrap();
        assert_eq!(client.headers_without_priority_frame(last), [0x80, 0, 0, 7, 255]);
    }
}

#[test]
fn a_control_keeps_the_whole_weight_range() {
    for weight in 0..=255 {
        let priority = RequestPriority::new(weight);
        assert_eq!(priority.weight(), weight);
        priority.set_weight(255 - weight);
        assert_eq!(priority.weight(), 255 - weight);
    }
}

#[test]
fn clones_share_one_control() {
    let mut client = Client::new();
    let priority = RequestPriority::new(1);
    let clone = priority.clone();
    clone.set_weight(9);
    assert_eq!(priority.weight(), 9);
    let one = client.send_request(Some(&priority)).unwrap();
    assert!(client.send_request(Some(&clone)).is_err());
    clone.set_weight(12);
    assert_eq!(client.headers(one), Some([0x80, 0, 0, 0, 12]));
}

#[test]
fn a_control_does_not_keep_its_connection_alive() {
    let mut client = Client::new();
    let priority = RequestPriority::new(3);
    client.send_request(Some(&priority)).unwrap();
    assert_eq!(Arc::strong_count(&client.connection), 1);
    drop(client);
    priority.set_weight(4);
    assert_eq!(priority.weight(), 4);
    let mut other = Client::new();
    let id = other.send_request(Some(&priority)).unwrap();
    assert_eq!(other.headers(id), Some([0x80, 0, 0, 0, 4]));
}

#[test]
fn a_control_changes_the_connection_that_it_was_bound_to_last() {
    let mut early = Client::new();
    let mut late = Client::new();
    let priority = RequestPriority::new(10);
    let old = early.send_request(Some(&priority)).unwrap();
    early.connection.lock().store.close(old);
    late.send_request(None).unwrap();
    let new = late.send_request(Some(&priority)).unwrap();
    priority.set_weight(77);
    assert_eq!(
        early.connection.lock().store.find(old).unwrap().request_priority,
        Some(10)
    );
    assert_eq!(
        late.connection.lock().store.find(new).unwrap().request_priority,
        Some(77)
    );
}

#[test]
fn a_rejected_request_leaves_the_control_usable() {
    let mut client = Client::new();
    let priority = RequestPriority::new(10);
    let id = client.send_request(Some(&priority)).unwrap();
    assert!(matches!(priority.for_request(), Err(UserError::Rejected)));
    client.connection.lock().store.close(id);
    let mut locked = priority.for_request().unwrap();
    assert_eq!(locked.state().weight, 10);
    assert!(locked.state().binding.is_some());
    locked.state().set_weight(11);
    drop(locked);
    assert_eq!(priority.weight(), 11);
}

struct Wakes(AtomicUsize);

impl Wake for Wakes {
    fn wake(self: Arc<Self>) {
        self.0.fetch_add(1, Ordering::SeqCst);
    }
}

#[test]
fn a_change_wakes_the_sleeping_connection_once() {
    let wakes = Arc::new(Wakes(AtomicUsize::new(0)));
    let mut client = Client::new();
    let priority = RequestPriority::new(10);
    priority.set_weight(20);
    let id = client.send_request(Some(&priority)).unwrap();
    client.connection.lock().actions.task = Some(Waker::from(wakes.clone()));
    assert_eq!(wakes.0.load(Ordering::SeqCst), 0);
    priority.set_weight(30);
    assert_eq!(wakes.0.load(Ordering::SeqCst), 1);
    assert!(client.connection.lock().actions.task.is_none());
    priority.set_weight(40);
    assert_eq!(wakes.0.load(Ordering::SeqCst), 1);
    // The task is woken for a closed stream too.
    client.connection.lock().actions.task = Some(Waker::from(wakes.clone()));
    client.connection.lock().store.close(id);
    priority.set_weight(50);
    assert_eq!(wakes.0.load(Ordering::SeqCst), 2);
}

#[test]
fn reprioritize_hands_the_task_out() {
    let wakes = Arc::new(Wakes(AtomicUsize::new(0)));
    let mut inner = Inner::new(Some(Waker::from(wakes.clone())));
    let id = StreamId(1);
    assert!(!inner.is_live(id));
    inner.store.insert(
        id,
        Stream {
            state: State::Active,
            request_priority: Some(1),
        },
    );
    assert!(inner.is_live(id));
    let task = inner.reprioritize(id, 2);
    assert!(task.is_some());
    assert!(inner.reprioritize(id, 3).is_none());
    assert_eq!(wakes.0.load(Ordering::SeqCst), 0);
    assert_eq!(inner.store.find(id).unwrap().request_priority, Some(3));
    inner.store.close(id);
    assert!(!inner.is_live(id));
}

#[test]
fn separate_controls_do_not_share_a_weight() {
    let first = RequestPriority::new(7);
    let second = RequestPriority::new(7);
    let clone = first.clone();
    first.set_weight(8);
    assert_eq!(clone.weight(), 8);
    assert_eq!(clone.weight(), 8);
    assert_eq!(second.weight(), 7);
}

#[test]
fn a_new_control_takes_a_request_with_its_weight() {
    for weight in [0, 83, 255] {
        let priority = RequestPriority::new(weight);
        assert_eq!(priority.weight(), weight);
        let mut locked = priority.for_request().unwrap();
        assert_eq!(locked.state().weight, weight);
        assert!(locked.state().binding.is_none());
    }
}

#[test]
fn a_change_that_queues_no_frame_wakes_the_task_too() {
    let wakes = Arc::new(Wakes(AtomicUsize::new(0)));
    let mut client = Client::new();
    let priority = RequestPriority::new(10);
    let id = client.send_request(Some(&priority)).unwrap();
    client.headers(id).unwrap();
    client.connection.lock().actions.task = Some(Waker::from(wakes.clone()));
    priority.set_weight(11);
    assert_eq!(client.priority_frame(), None);
    assert_eq!(wakes.0.load(Ordering::SeqCst), 1);
}
