//! Access to a state machine that is shared between threads.

use std::sync::{Arc, Mutex, MutexGuard, PoisonError};

use vstd::prelude::*;

use crate::raft::error::RaftError;

verus! {

/// A mutex of the standard library.
#[verifier::external_type_specification]
#[verifier::external_body]
#[verifier::reject_recursive_types(T)]
pub struct ExMutex<T: ?Sized>(std::sync::Mutex<T>);

/// A locked mutex of the standard library.
#[verifier::external_type_specification]
#[verifier::external_body]
#[verifier::reject_recursive_types(T)]
pub struct ExMutexGuard<'a, T: ?Sized + 'a>(std::sync::MutexGuard<'a, T>);

/// The failure of a lock whose holder panicked.
#[verifier::external_type_specification]
#[verifier::external_body]
#[verifier::reject_recursive_types(T)]
pub struct ExPoisonError<T>(std::sync::PoisonError<T>);

/// `Mutex::lock`: it waits for the mutex, and reports it as poisoned if a holder
/// panicked. Whether one did is up to the other threads, and what the mutex holds is
/// up to whoever held it last; nothing is claimed of the outcome.
#[verifier::external_body]
fn lock<'a, M>(machine: &'a Arc<Mutex<M>>) -> (r: Result<
    MutexGuard<'a, M>,
    PoisonError<MutexGuard<'a, M>>,
>) {
    machine.lock()
}

/// `PoisonError::into_inner`: the guard in spite of the poisoning. What it guards is
/// up to whoever held the mutex last; nothing is claimed of it.
#[verifier::external_body]
fn recover<'a, M>(poisoned: PoisonError<MutexGuard<'a, M>>) -> MutexGuard<'a, M> {
    poisoned.into_inner()
}

/// The guard that a lock gave, in spite of the poisoning if there was one. There
/// always is one.
pub fn lock_outcome<'a, M>(
    outcome: Result<MutexGuard<'a, M>, PoisonError<MutexGuard<'a, M>>>,
) -> (r: Result<MutexGuard<'a, M>, RaftError>)
    ensures
        r is Ok,
        outcome matches Ok(guard) ==> r->Ok_0 == guard,
{
    match outcome {
        Ok(guard) => Ok(guard),
        Err(poisoned) => Ok(recover(poisoned)),
    }
}

/// Lock a state machine. A mutex that a panicking thread left behind is recovered:
/// applying an entry again changes nothing, so an application that was cut short can
/// be repeated. Locking does not fail. What the guard gives access to is up to
/// whoever held the mutex last.
pub fn lock_state_machine<'a, M>(machine: &'a Arc<Mutex<M>>) -> (r: Result<
    MutexGuard<'a, M>,
    RaftError,
>)
    ensures
        r is Ok,
{
    lock_outcome(lock(machine))
}

} // verus!
