//! Recorded event logs and the harness that checks consumers against their recorded order.

use crate::observe::ObserveEvent;
use vstd::prelude::*;

verus! {

#[verifier::external_type_specification]
#[verifier::external_body]
pub struct ExIoError(std::io::Error);

#[verifier::external_type_specification]
#[verifier::external_body]
pub struct ExJsonError(serde_json::Error);

/// A recorded sequence of observability events.
#[derive(Debug, Clone, PartialEq, Eq)]
pub struct ReplayLog {
    pub events: Vec<ObserveEvent>,
}

impl ReplayLog {
    pub fn new(events: Vec<ObserveEvent>) -> (log: ReplayLog)
        ensures
            log.events == events,
    {
        ReplayLog { events }
    }
}

/// Failures while reading, writing or replaying an event log.
#[derive(Debug)]
pub enum ReplayError {
    Io { source: std::io::Error },
    JsonDecodeLine { line_number: usize, source: serde_json::Error },
    JsonEncode { source: serde_json::Error },
    ReplayMismatch { index: usize, reason: String },
}

/// A validator's objection to one replayed event.
#[derive(Debug, Clone, PartialEq, Eq)]
pub struct ReplayMismatch {
    pub reason: String,
}

impl ReplayMismatch {
    pub fn new(reason: String) -> (m: ReplayMismatch)
        ensures
            m.reason == reason,
    {
        ReplayMismatch { reason }
    }
}

/// `validate` may accept event `event` at index `index`: some call on them returns `Ok`.
pub open spec fn accepted<F: Fn(usize, &ObserveEvent) -> Result<(), ReplayMismatch>>(
    validate: F,
    index: usize,
    event: &ObserveEvent,
) -> bool {
    exists|outcome: Result<(), ReplayMismatch>| outcome is Ok && #[trigger] validate.ensures((index, event), outcome)
}

/// Recorded-order replay: feeds a log's events, in order, to a validator.
pub struct ReplayHarness;

impl ReplayHarness {
    /// Feeds each event of `log`, with its index, to `validate`, in recorded order, and stops
    /// at the first objection, which becomes a mismatch error at that index with the
    /// validator's reason.
    pub fn replay_recorded_order<F>(log: &ReplayLog, validate: F) -> (r: Result<(), ReplayError>)
        where
            F: Fn(usize, &ObserveEvent) -> Result<(), ReplayMismatch>,
        requires
            forall|i: usize, event: &ObserveEvent| #[trigger] validate.requires((i, event)),
        ensures
            match r {
                Ok(()) => forall|i: int|
                    #![trigger log.events@[i]]
                    0 <= i < log.events@.len() ==> accepted(validate, i as usize, &log.events@[i]),
                Err(ReplayError::ReplayMismatch { index, reason }) => {
                    &&& index < log.events@.len()
                    &&& validate.ensures(
                        (index, &log.events@[index as int]),
                        Err(ReplayMismatch { reason }),
                    )
                    &&& forall|i: int|
                        #![trigger log.events@[i]]
                        0 <= i < index ==> accepted(validate, i as usize, &log.events@[i])
                },
                Err(_) => false,
            },
    {
        let mut index: usize = 0;
        while index < log.events.len()
            invariant
                index <= log.events@.len(),
                forall|i: usize, event: &ObserveEvent| #[trigger] validate.requires((i, event)),
                forall|i: int|
                    #![trigger log.events@[i]]
                    0 <= i < index ==> accepted(validate, i as usize, &log.events@[i]),
            decreases log.events@.len() - index,
        {
            let event = &log.events[index];
            let outcome = validate(index, event);
            assert(validate.ensures((index, event), outcome));
            assert(*event == log.events@[index as int]);
            match outcome {
                Ok(()) => {
                    assert forall|i: int| 0 <= i < index + 1 implies #[trigger] accepted(validate, i as usize, &log.events@[i]) by {
                        if i == index {
                            assert((i as usize) == index);
                            assert(outcome is Ok && validate.ensures((index, event), outcome));
                        }
                    }
                },
                Err(mismatch) => {
                    return Err(ReplayError::ReplayMismatch { index, reason: mismatch.reason });
                },
            }
            index = index + 1;
        }
        Ok(())
    }
}

} // verus!
