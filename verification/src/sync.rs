//! Locks, weak references and wakers: what the library has from outside to share a control and
//! a connection between threads.
//!
//! A value behind a shared reference has no state that a contract could speak of. So the contracts
//! speak of guards. A guard is one locking: [`control_found`] is what it found, [`control_in`] is
//! what it holds now, and [`control_unlocked`] is about giving it back; a connection has the same.
//!
//! [`control_unlocked`], [`connection_unlocked`], [`followed`] and [`woken`] are `call_ensures` of
//! the four functions whose outcome matters. In itself that says that the call may end so. Nothing
//! but the call provides it, so a function can only promise it by making the call; that no other
//! call was made besides, none of them says.

use crate::connection::Inner;
use crate::control::ControlState;
use parking_lot::Mutex;
use parking_lot::MutexGuard;
use std::sync::Arc;
use std::sync::Weak;
use std::task::Waker;
use vstd::prelude::*;

verus! {

/// `parking_lot::RawMutex`: the lock itself, without what it protects.
#[verifier::external_type_specification]
#[verifier::external_body]
pub struct ExRawMutex(parking_lot::RawMutex);

/// `lock_api::Mutex`, of which `parking_lot::Mutex` is an instance. Two mutexes that are equal
/// are the same mutex; what they protect is no part of the value.
#[verifier::external_type_specification]
#[verifier::external_body]
#[verifier::reject_recursive_types(R)]
#[verifier::reject_recursive_types(T)]
pub struct ExMutex<R, T: ?Sized>(parking_lot::lock_api::Mutex<R, T>);

/// `std::task::Waker`.
#[verifier::external_type_specification]
#[verifier::external_body]
pub struct ExWaker(Waker);

/// A `parking_lot::MutexGuard`: as long as it lives, what the mutex protects belongs to it
/// alone, and dropping it unlocks the mutex.
#[verifier::external_body]
#[verifier::reject_recursive_types(T)]
#[derive(Debug)]
pub struct Locked<'a, T> {
    guard: MutexGuard<'a, T>,
}

/// A `std::sync::Weak` of a connection: it leads to the connection and does not keep it alive.
#[verifier::external_body]
#[derive(Debug)]
pub struct WeakConnection {
    weak: Weak<Mutex<Inner>>,
}

/// The control that a guard holds.
pub uninterp spec fn control_in(locked: Locked<'_, ControlState>) -> ControlState;

/// The control that a guard held when it was given out.
pub uninterp spec fn control_found(locked: Locked<'_, ControlState>) -> ControlState;

/// The mutex that a guard of a control locks.
pub uninterp spec fn control_of(locked: Locked<'_, ControlState>) -> Mutex<ControlState>;

/// The guard that locked the same mutex last before this one, as it was when it was given back;
/// none where this one is the first.
pub uninterp spec fn control_before(locked: Locked<'_, ControlState>) -> Option<
    Locked<'_, ControlState>,
>;

/// The control that a mutex was made with.
pub uninterp spec fn made_with(mutex: Mutex<ControlState>) -> ControlState;

/// The connection that a guard holds.
pub uninterp spec fn connection_in(locked: Locked<'_, Inner>) -> Inner;

/// The connection that a guard held when it was given out.
pub uninterp spec fn connection_found(locked: Locked<'_, Inner>) -> Inner;

/// The mutex that a guard of a connection locks.
pub uninterp spec fn connection_of(locked: Locked<'_, Inner>) -> Mutex<Inner>;

/// The guard of a control that was held when the connection was locked.
pub uninterp spec fn locked_under(locked: Locked<'_, Inner>) -> Locked<'_, ControlState>;

/// The connection that a weak reference was made from.
pub uninterp spec fn leads_to(weak: WeakConnection) -> Mutex<Inner>;

/// A guard found what the guard before it left, and the first guard of a mutex what the mutex was
/// made with.
pub open spec fn reads_back(locked: Locked<'_, ControlState>) -> bool {
    match control_before(locked) {
        Some(before) => {
            &&& control_of(before) == control_of(locked)
            &&& control_found(locked) == control_in(before)
        },
        None => control_found(locked) == made_with(control_of(locked)),
    }
}

/// `parking_lot::Mutex::new`: the mutex is made with the given control in it.
#[verifier::external_body]
pub(crate) fn mutex_new(state: ControlState) -> (mutex: Mutex<ControlState>)
    ensures
        made_with(mutex) == state,
{
    Mutex::new(state)
}

/// `parking_lot::Mutex::lock`: waits until the mutex of a control is free, and gives a guard that
/// locks it. The guard holds what the last guard of that mutex left there, or what the mutex was
/// made with: the mutex of a control is locked here only, and nothing else reaches what it
/// protects. Which guard was the last is for the threads to settle, and nothing is claimed of it.
/// A thread that holds the mutex already waits for ever.
#[verifier::external_body]
pub(crate) fn lock_control<'a>(mutex: &'a Mutex<ControlState>) -> (locked: Locked<
    'a,
    ControlState,
>)
    ensures
        control_of(locked) == *mutex,
        control_found(locked) == control_in(locked),
        reads_back(locked),
{
    Locked { guard: mutex.lock() }
}

/// `parking_lot::Mutex::lock`, for a connection. What the guard holds is whatever the last holder
/// left there; nothing is claimed of it. The guard `held` takes no part in the locking: it is kept
/// for the record that a control was held meanwhile.
#[verifier::external_body]
#[allow(unused_variables)]
pub(crate) fn lock_connection<'a, 'b, 'c>(
    mutex: &'a Mutex<Inner>,
    held: &'b Locked<'c, ControlState>,
) -> (locked: Locked<'a, Inner>)
    ensures
        connection_of(locked) == *mutex,
        connection_found(locked) == connection_in(locked),
        locked_under(locked) == *held,
{
    Locked { guard: mutex.lock() }
}

/// `Deref::deref` of `parking_lot::MutexGuard`: a look at the control that the guard holds.
#[verifier::external_body]
pub(crate) fn control_ref<'b, 'a>(locked: &'b Locked<'a, ControlState>) -> (state:
    &'b ControlState)
    ensures
        *state == control_in(*locked),
{
    &locked.guard
}

/// `DerefMut::deref_mut` of `parking_lot::MutexGuard`: the reference starts at the control that
/// the guard holds, and what is written through it is what the guard holds afterwards. It remains
/// the same locking of the same mutex.
#[verifier::external_body]
pub(crate) fn control_mut<'b, 'a>(locked: &'b mut Locked<'a, ControlState>) -> (state:
    &'b mut ControlState)
    ensures
        *state == control_in(*old(locked)),
        control_in(*final(locked)) == *final(state),
        control_of(*final(locked)) == control_of(*old(locked)),
        control_found(*final(locked)) == control_found(*old(locked)),
        control_before(*final(locked)) == control_before(*old(locked)),
{
    &mut locked.guard
}

/// `DerefMut::deref_mut` of `parking_lot::MutexGuard`, for a connection.
#[verifier::external_body]
pub(crate) fn connection_mut<'b, 'a>(locked: &'b mut Locked<'a, Inner>) -> (inner: &'b mut Inner)
    ensures
        *inner == connection_in(*old(locked)),
        connection_in(*final(locked)) == *final(inner),
        connection_of(*final(locked)) == connection_of(*old(locked)),
        connection_found(*final(locked)) == connection_found(*old(locked)),
        locked_under(*final(locked)) == locked_under(*old(locked)),
{
    &mut locked.guard
}

/// `Arc::downgrade`: a weak reference that leads to the given connection.
#[verifier::external_body]
pub(crate) fn downgrade(connection: &Arc<Mutex<Inner>>) -> (weak: WeakConnection)
    ensures
        leads_to(weak) == **connection,
{
    WeakConnection { weak: Arc::downgrade(connection) }
}

/// `Weak::upgrade`: the connection that the reference leads to, if anything still keeps it
/// alive. Whether anything does is not for the reference to say, and nothing is claimed of it.
#[verifier::external_body]
fn weak_upgrade(weak: &WeakConnection) -> (connection: Option<Arc<Mutex<Inner>>>)
    ensures
        connection matches Some(connection) ==> *connection == leads_to(*weak),
{
    weak.weak.upgrade()
}

/// `std::mem::drop` of a `parking_lot::MutexGuard`: unlocks the mutex of a control.
#[verifier::external_body]
fn drop_control<'a>(locked: Locked<'a, ControlState>) {
    drop(locked.guard)
}

/// `std::mem::drop` of a `parking_lot::MutexGuard`: unlocks the mutex of a connection. The guard
/// `held` takes no part in it: it is kept for the record that a control was held meanwhile.
#[verifier::external_body]
#[allow(unused_variables)]
fn drop_connection<'a, 'b, 'c>(locked: Locked<'a, Inner>, held: &'b Locked<'c, ControlState>) {
    drop(locked.guard)
}

/// `Waker::wake`: lets the executor poll the task again. The guard `held` takes no part in it: it
/// is kept for the record that the connection was held meanwhile, and what it held.
#[verifier::external_body]
#[allow(unused_variables)]
fn waker_wake<'a, 'b>(waker: Waker, held: &'b Locked<'a, Inner>) {
    waker.wake()
}

/// Call a function, and keep that this very call returned this very value.
fn call<A, R, F: FnOnce(A) -> R>(function: F, argument: A) -> (result: R)
    requires
        call_requires(function, (argument,)),
    ensures
        call_ensures(function, (argument,), result),
{
    function(argument)
}

/// Call a function of two arguments, and keep that this very call returned this very value.
fn call_two<A, B, R, F: FnOnce(A, B) -> R>(function: F, first: A, second: B) -> (result: R)
    requires
        call_requires(function, (first, second)),
    ensures
        call_ensures(function, (first, second), result),
{
    function(first, second)
}

/// `call_ensures` of giving `locked` back, with what it holds, which unlocks the mutex.
pub closed spec fn control_unlocked(locked: Locked<'_, ControlState>) -> bool {
    call_ensures(drop_control, (locked,), ())
}

/// `call_ensures` of giving `locked` back, with what it holds and while `held` is held, which
/// unlocks the mutex.
pub closed spec fn connection_unlocked(
    locked: Locked<'_, Inner>,
    held: Locked<'_, ControlState>,
) -> bool {
    call_ensures(drop_connection, (locked, &held), ())
}

/// `call_ensures` of following `weak`, with the outcome `connection`.
pub closed spec fn followed(
    weak: WeakConnection,
    connection: Option<Arc<Mutex<Inner>>>,
) -> bool {
    call_ensures(weak_upgrade, (&weak,), connection)
}

/// `call_ensures` of waking `waker` while `held` is held.
pub closed spec fn woken(waker: Waker, held: Locked<'_, Inner>) -> bool {
    call_ensures(waker_wake, (waker, &held), ())
}

/// What is said of giving back, following and waking is said of the calls that do it, for every
/// guard, reference and waker.
proof fn law_events_are_calls(
    control: Locked<'_, ControlState>,
    connection: Locked<'_, Inner>,
    weak: WeakConnection,
    outcome: Option<Arc<Mutex<Inner>>>,
    waker: Waker,
)
    ensures
        control_unlocked(control) <==> call_ensures(drop_control, (control,), ()),
        connection_unlocked(connection, control) <==> call_ensures(
            drop_connection,
            (connection, &control),
            (),
        ),
        followed(weak, outcome) <==> call_ensures(weak_upgrade, (&weak,), outcome),
        woken(waker, connection) <==> call_ensures(waker_wake, (waker, &connection), ()),
{
}

/// Give the guard of a control back.
pub(crate) fn unlock_control(locked: Locked<'_, ControlState>)
    ensures
        control_unlocked(locked),
{
    call(drop_control, locked)
}

/// Give the guard of a connection back while `held` is held.
pub(crate) fn unlock_connection(locked: Locked<'_, Inner>, held: &Locked<'_, ControlState>)
    ensures
        connection_unlocked(locked, *held),
{
    call_two(drop_connection, locked, held)
}

/// Follow a weak reference.
pub(crate) fn follow(weak: &WeakConnection) -> (connection: Option<Arc<Mutex<Inner>>>)
    ensures
        followed(*weak, connection),
        connection matches Some(connection) ==> *connection == leads_to(*weak),
{
    call(weak_upgrade, weak)
}

/// Wake a task while `held` is held.
pub(crate) fn wake(waker: Waker, held: &Locked<'_, Inner>)
    ensures
        woken(waker, *held),
{
    call_two(waker_wake, waker, held)
}

} // verus!
