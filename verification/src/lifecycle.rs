//! Bringing the one history of a process into being, once.

use vstd::prelude::*;

verus! {

/// What a call of `init` came to, and what is left for the caller to do.
#[derive(Debug, PartialEq, Eq)]
pub enum InitOutcome<E> {
    /// A history was already in place: nothing was built and nothing is to be done.
    AlreadyRunning,
    /// The history was built and put in place: the clipboard monitor is to be started.
    Started,
    /// Building the history failed: the place stays empty and the failure is to be
    /// reported.
    Failed(E),
}

/// Puts a history into `slot` unless one is there. Only an empty slot has `build`
/// called; on success what `build` made is put in place, on failure the slot stays
/// empty, and a later call tries again.
pub fn init<T, E, F: FnOnce() -> Result<T, E>>(slot: &mut Option<T>, build: F) -> (outcome:
    InitOutcome<E>)
    requires
        call_requires(build, ()),
    ensures
        *old(slot) is Some ==> *final(slot) == *old(slot) && outcome
            == InitOutcome::<E>::AlreadyRunning,
        *old(slot) is None ==> exists|built: Result<T, E>| #[trigger]
            call_ensures(build, (), built) && match built {
                Ok(history) => *final(slot) == Some(history) && outcome
                    == InitOutcome::<E>::Started,
                Err(e) => *final(slot) is None && outcome == InitOutcome::Failed(e),
            },
{
    if slot.is_some() {
        return InitOutcome::AlreadyRunning;
    }
    match build() {
        Ok(history) => {
            *slot = Some(history);
            InitOutcome::Started
        },
        Err(e) => InitOutcome::Failed(e),
    }
}

} // verus!
