//! The part of a connection that a priority control reaches.

use crate::frame::StreamId;
use crate::store::Store;
use crate::store::StoreView;
use std::task::Waker;
use vstd::prelude::*;

verus! {

/// What the connection has still to do.
#[derive(Debug)]
pub struct Actions {
    /// The task that drives the connection, while it sleeps.
    pub task: Option<Waker>,
}

/// The shared state of a connection.
#[derive(Debug)]
pub struct Inner {
    pub store: Store,
    pub actions: Actions,
}

impl Inner {
    /// A connection without streams, driven by `task`.
    pub fn new(task: Option<Waker>) -> (inner: Inner)
        ensures
            inner.actions.task == task,
            inner.store@ == StoreView::empty(),
    {
        Inner { store: Store::new(), actions: Actions { task } }
    }

    /// The stream `id` is known and not closed.
    pub fn is_live(&self, id: StreamId) -> (live: bool)
        ensures
            live == self.store@.is_live(id),
    {
        match self.store.find(id) {
            Some(stream) => !stream.state.is_closed(),
            None => false,
        }
    }

    /// Give the stream `id` a new weight, and hand out the task that has to learn of it.
    pub fn reprioritize(&mut self, id: StreamId, weight: u8) -> (task: Option<Waker>)
        ensures
            final(self).store@ == old(self).store@.changed(id, weight),
            final(self).actions.task is None,
            task == old(self).actions.task,
    {
        self.store.change_priority(id, weight);
        self.actions.task.take()
    }
}

} // verus!
