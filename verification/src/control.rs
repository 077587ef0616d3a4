//! The control that a request carries to be given a priority, and to have it changed.

use crate::connection::Inner;
use crate::frame::StreamId;
use crate::sync;
use crate::sync::Locked;
use crate::sync::WeakConnection;
use parking_lot::Mutex;
use std::sync::Arc;
use vstd::prelude::*;

verus! {

/// Why a request was not taken.
#[derive(Clone, Copy, Debug, PartialEq, Eq, Structural)]
pub enum UserError {
    /// The request may not be sent as it is.
    Rejected,
}

/// The stream that a control changes.
#[derive(Debug)]
pub struct Binding {
    pub connection: WeakConnection,
    pub id: StreamId,
}

/// What the clones of a control share.
#[derive(Debug)]
pub struct ControlState {
    pub weight: u8,
    pub binding: Option<Binding>,
}

/// In one locking, and while `held` is held, the stream `id` of `connection` gets a new weight. The
/// task that drives the connection, if it sleeps, is woken once the store has changed.
pub open spec fn reprioritized(
    connection: Mutex<Inner>,
    id: StreamId,
    weight: u8,
    held: Locked<'_, ControlState>,
) -> bool {
    exists|locked: Locked<'_, Inner>|
        {
            let was = sync::connection_found(locked);
            let is = sync::connection_in(locked);
            &&& #[trigger] sync::connection_unlocked(locked, held)
            &&& sync::connection_of(locked) == connection
            &&& sync::locked_under(locked) == held
            &&& is.store@ == was.store@.changed(id, weight)
            &&& is.actions.task is None
            &&& was.actions.task matches Some(task) ==> sync::woken(task, locked)
        }
}

/// In one locking, and while `held` is held, `connection` is asked whether the stream `id` is live,
/// and left as it was; `live` says what is found.
pub open spec fn inspected(
    connection: Mutex<Inner>,
    id: StreamId,
    live: bool,
    held: Locked<'_, ControlState>,
) -> bool {
    exists|locked: Locked<'_, Inner>|
        {
            &&& #[trigger] sync::connection_unlocked(locked, held)
            &&& sync::connection_of(locked) == connection
            &&& sync::locked_under(locked) == held
            &&& sync::connection_in(locked) == sync::connection_found(locked)
            &&& live == sync::connection_found(locked).store@.is_live(id)
        }
}

/// Give the stream `id` of `connection` a new weight, and wake the task that drives it.
fn reprioritize(
    connection: &Mutex<Inner>,
    id: StreamId,
    weight: u8,
    held: &Locked<'_, ControlState>,
)
    ensures
        reprioritized(*connection, id, weight, *held),
{
    let mut locked = sync::lock_connection(connection, held);
    let task = sync::connection_mut(&mut locked).reprioritize(id, weight);
    if let Some(task) = task {
        sync::wake(task, &locked);
    }
    let ghost last = locked;
    sync::unlock_connection(locked, held);
    assert(sync::connection_unlocked(last, *held));
}

/// Whether the stream `id` of `connection` is known and not closed.
fn is_live(connection: &Mutex<Inner>, id: StreamId, held: &Locked<'_, ControlState>) -> (live: bool)
    ensures
        inspected(*connection, id, live, *held),
{
    let mut locked = sync::lock_connection(connection, held);
    let live = sync::connection_mut(&mut locked).is_live(id);
    let ghost last = locked;
    sync::unlock_connection(locked, held);
    assert(sync::connection_unlocked(last, *held));
    live
}

impl ControlState {
    /// A control that changes no stream.
    pub open spec fn unbound(weight: u8) -> ControlState {
        ControlState { weight, binding: None }
    }

    /// The control with another weight.
    pub open spec fn reweighed(self, weight: u8) -> ControlState {
        ControlState { weight, ..self }
    }

    /// While `held` is held, the connection of the bound stream, if there is one and it is still
    /// alive, is told of `weight`.
    pub open spec fn passed_on(self, weight: u8, held: Locked<'_, ControlState>) -> bool {
        match self.binding {
            Some(binding) => exists|connection: Option<Arc<Mutex<Inner>>>| #[trigger]
                sync::followed(binding.connection, connection) && (connection matches Some(
                    connection,
                ) ==> *connection == sync::leads_to(binding.connection) && reprioritized(
                    *connection,
                    binding.id,
                    weight,
                    held,
                )),
            None => true,
        }
    }

    /// While `held` is held, the bound stream is looked for, and `live` says whether there is one
    /// and it is live. A stream whose connection is gone is not.
    pub open spec fn found(self, live: bool, held: Locked<'_, ControlState>) -> bool {
        match self.binding {
            Some(binding) => exists|connection: Option<Arc<Mutex<Inner>>>| #[trigger]
                sync::followed(binding.connection, connection) && match connection {
                    Some(connection) => *connection == sync::leads_to(binding.connection)
                        && inspected(*connection, binding.id, live, held),
                    None => !live,
                },
            None => !live,
        }
    }

    /// Keep a new weight.
    pub fn set_weight(&mut self, weight: u8)
        ensures
            *final(self) == old(self).reweighed(weight),
    {
        self.weight = weight;
    }

    /// Let the control change the stream `id` of `connection` from now on.
    pub fn bind(&mut self, connection: &Arc<Mutex<Inner>>, id: StreamId)
        ensures
            final(self).weight == old(self).weight,
            final(self).binding matches Some(binding) && binding.id == id && sync::leads_to(
                binding.connection,
            ) == **connection,
    {
        self.binding = Some(Binding { connection: sync::downgrade(connection), id });
    }
}

impl<'a> Locked<'a, ControlState> {
    /// The control that the guard holds.
    pub fn state(&mut self) -> (state: &mut ControlState)
        ensures
            *state == sync::control_in(*old(self)),
            sync::control_in(*final(self)) == *final(state),
            sync::control_of(*final(self)) == sync::control_of(*old(self)),
            sync::control_found(*final(self)) == sync::control_found(*old(self)),
            sync::control_before(*final(self)) == sync::control_before(*old(self)),
    {
        sync::control_mut(self)
    }
}

/// `locked` is one locking of `control`, which finds what the one before it left.
pub open spec fn one_locking(
    control: Mutex<ControlState>,
    locked: Locked<'_, ControlState>,
) -> bool {
    sync::control_of(locked) == control && sync::reads_back(locked)
}

/// In the locking `locked`, `weight` is read from the control, which is left as it was.
pub open spec fn weight_read(
    control: Mutex<ControlState>,
    weight: u8,
    locked: Locked<'_, ControlState>,
) -> bool {
    &&& sync::control_unlocked(locked)
    &&& one_locking(control, locked)
    &&& sync::control_in(locked) == sync::control_found(locked)
    &&& weight == sync::control_found(locked).weight
}

/// In the locking `locked`, `weight` is written to the control and, before the control is given
/// back, passed on to the connection of the bound stream.
pub open spec fn weight_written(
    control: Mutex<ControlState>,
    weight: u8,
    locked: Locked<'_, ControlState>,
) -> bool {
    &&& sync::control_unlocked(locked)
    &&& one_locking(control, locked)
    &&& sync::control_in(locked) == sync::control_found(locked).reweighed(weight)
    &&& sync::control_found(locked).passed_on(weight, locked)
}

/// In the locking `locked`, a new request is let through and gets the control, locked as it is, or
/// is rejected because the bound stream is live, and the control is given back. The control is
/// left as it was.
pub open spec fn request_answered(
    control: Mutex<ControlState>,
    answer: Result<Locked<'_, ControlState>, UserError>,
    locked: Locked<'_, ControlState>,
) -> bool {
    &&& one_locking(control, locked)
    &&& sync::control_in(locked) == sync::control_found(locked)
    &&& match answer {
        Ok(given) => given == locked && sync::control_found(locked).found(false, locked),
        Err(error) => {
            &&& error == UserError::Rejected
            &&& sync::control_unlocked(locked)
            &&& sync::control_found(locked).found(true, locked)
        },
    }
}

/// Opt a request into an exclusive dependency chain ordered by encoded weight.
///
/// Larger weights are higher priority. A request depends on the latest live stream in the
/// nearest weight band at or above its own. Equal-weight streams retain their opening order.
/// Requests without a priority are unchanged. Clones share one control; use a distinct control
/// for each concurrent request.
#[derive(Debug)]
pub struct RequestPriority {
    state: Arc<Mutex<ControlState>>,
}

impl Clone for RequestPriority {
    /// A clone shares the control.
    fn clone(&self) -> (clone: Self)
        ensures
            clone.control() == self.control(),
    {
        RequestPriority { state: self.state.clone() }
    }
}

impl RequestPriority {
    /// The mutex that all clones of this control share.
    pub closed spec fn control(self) -> Mutex<ControlState> {
        *self.state
    }

    /// Create a priority using the HTTP/2 encoded weight range `0..=255`.
    #[must_use]
    pub fn new(weight: u8) -> (priority: Self)
        ensures
            sync::made_with(priority.control()) == ControlState::unbound(weight),
    {
        RequestPriority {
            state: Arc::new(sync::mutex_new(ControlState { weight, binding: None })),
        }
    }

    /// The encoded HTTP/2 weight, one less than the RFC 7540 weight (1..=256).
    #[must_use]
    pub fn weight(&self) -> (weight: u8)
        ensures
            exists|locked: Locked<'_, ControlState>| #[trigger]
                weight_read(self.control(), weight, locked),
    {
        let locked = sync::lock_control(&self.state);
        let ghost last = locked;
        let weight: u8 = sync::control_ref(&locked).weight;
        sync::unlock_control(locked);
        assert(weight_read(self.control(), weight, last));
        weight
    }

    /// Change this request's priority synchronously, including an active stream.
    ///
    /// Before its first HEADERS, only the initial priority changes. After stream closure the
    /// value is retained for a subsequent retry or redirect.
    pub fn set_weight(&self, weight: u8)
        ensures
            exists|locked: Locked<'_, ControlState>| #[trigger]
                weight_written(self.control(), weight, locked),
    {
        let mut locked = sync::lock_control(&self.state);
        sync::control_mut(&mut locked).set_weight(weight);
        let ghost last = locked;
        let state = sync::control_ref(&locked);
        if let Some(binding) = &state.binding {
            if let Some(connection) = sync::follow(&binding.connection) {
                reprioritize(&connection, binding.id, weight, &locked);
            }
        }
        sync::unlock_control(locked);
        assert(weight_written(self.control(), weight, last));
    }

    /// Lock the control for a new request.
    ///
    /// The request is rejected while the stream that the control changes is live. The control is
    /// locked before the connection, and the connection never locks a control.
    pub fn for_request(&self) -> (answer: Result<Locked<'_, ControlState>, UserError>)
        ensures
            exists|locked: Locked<'_, ControlState>| #[trigger]
                request_answered(self.control(), answer, locked),
    {
        let locked = sync::lock_control(&self.state);
        let ghost last = locked;
        let state = sync::control_ref(&locked);
        if let Some(binding) = &state.binding {
            if let Some(connection) = sync::follow(&binding.connection) {
                if is_live(&connection, binding.id, &locked) {
                    sync::unlock_control(locked);
                    assert(request_answered(self.control(), Err(UserError::Rejected), last));
                    return Err(UserError::Rejected);
                }
            }
        }
        assert(request_answered(self.control(), Ok(last), last));
        Ok(locked)
    }
}

} // verus!
