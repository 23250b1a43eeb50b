//! The job state machine that the command scripts carry out atomically in
//! the store, on one job: waiting, active under a lock, then completed,
//! failed, or waiting again. Every transition out of active checks the
//! caller's lock token first and changes nothing when it does not match.
use vstd::prelude::*;
use crate::scripts::{MoveToFinishedReturn, MoveToFinishedTarget, RetryJobReturn};

verus! {

/// Where a job stands.
#[derive(Debug, Clone, Copy, PartialEq, Eq, Structural)]
pub enum JobState {
    Waiting,
    Active,
    Completed,
    Failed,
}

/// One job as the store holds it.
#[derive(Debug)]
pub struct JobRecord {
    pub state: JobState,
    /// The token of the worker that holds the job's lock.
    pub lock: Option<String>,
    pub attempts_started: u32,
    pub returnvalue: Option<String>,
    pub failed_reason: Option<String>,
}

impl JobRecord {
    /// Whether `token` holds the job's lock.
    pub open spec fn locked_by(&self, token: Seq<char>) -> bool {
        self.lock matches Some(t) && t@ == token
    }

    /// A job just added: waiting, unlocked, never started.
    pub fn new() -> (r: JobRecord)
        ensures
            r.state == JobState::Waiting,
            r.lock is None,
            r.attempts_started == 0,
            r.returnvalue is None,
            r.failed_reason is None,
    {
        JobRecord {
            state: JobState::Waiting,
            lock: None,
            attempts_started: 0,
            returnvalue: None,
            failed_reason: None,
        }
    }

    /// Moves a waiting job to active under `token`'s lock, counting the
    /// start; any other job is left as it is.
    pub fn activate(&mut self, token: String) -> (r: bool)
        ensures
            r == (old(self).state == JobState::Waiting && old(self).attempts_started < u32::MAX),
            r ==> final(self).state == JobState::Active && final(self).lock == Some(token)
                && final(self).attempts_started == old(self).attempts_started + 1
                && final(self).returnvalue == old(self).returnvalue && final(self).failed_reason
                == old(self).failed_reason,
            !r ==> *final(self) == *old(self),
    {
        if self.state == JobState::Waiting && self.attempts_started < u32::MAX {
            self.state = JobState::Active;
            self.lock = Some(token);
            self.attempts_started = self.attempts_started + 1;
            true
        } else {
            false
        }
    }

    /// Moves an active job to a finished set with its outcome message and
    /// releases the lock. Without a lock the job is left as it is and
    /// `MissingLock` comes back; under another token's lock,
    /// `LockIsNotOwnedByThisClient`; a job that is not active gives
    /// `JobNotActiveInSet`.
    pub fn finish(&mut self, token: &String, target: MoveToFinishedTarget, message: String) -> (r:
        MoveToFinishedReturn)
        ensures
            old(self).lock is None ==> r == MoveToFinishedReturn::MissingLock,
            old(self).lock is Some && !old(self).locked_by(token@) ==> r
                == MoveToFinishedReturn::LockIsNotOwnedByThisClient,
            old(self).locked_by(token@) && old(self).state != JobState::Active ==> r
                == MoveToFinishedReturn::JobNotActiveInSet,
            r != MoveToFinishedReturn::Success ==> *final(self) == *old(self),
            r == MoveToFinishedReturn::Success <==> old(self).locked_by(token@) && old(self).state
                == JobState::Active,
            r == MoveToFinishedReturn::Success ==> {
                &&& final(self).lock is None
                &&& final(self).attempts_started == old(self).attempts_started
                &&& match target {
                    MoveToFinishedTarget::Completed => final(self).state == JobState::Completed
                        && final(self).returnvalue == Some(message) && final(self).failed_reason
                        == old(self).failed_reason,
                    MoveToFinishedTarget::Failed => final(self).state == JobState::Failed
                        && final(self).failed_reason == Some(message) && final(self).returnvalue
                        == old(self).returnvalue,
                }
            },
    {
        match &self.lock {
            None => {
                return MoveToFinishedReturn::MissingLock;
            },
            Some(t) => {
                if *t != *token {
                    return MoveToFinishedReturn::LockIsNotOwnedByThisClient;
                }
            },
        }
        if self.state != JobState::Active {
            return MoveToFinishedReturn::JobNotActiveInSet;
        }
        match target {
            MoveToFinishedTarget::Completed => {
                self.state = JobState::Completed;
                self.returnvalue = Some(message);
            },
            MoveToFinishedTarget::Failed => {
                self.state = JobState::Failed;
                self.failed_reason = Some(message);
            },
        }
        self.lock = None;
        MoveToFinishedReturn::Success
    }

    /// Moves a job whose lock `token` holds back to waiting and releases the
    /// lock; without that lock the job is left as it is and `MissingLock`
    /// comes back.
    pub fn retry(&mut self, token: &String) -> (r: RetryJobReturn)
        ensures
            !old(self).locked_by(token@) ==> r == RetryJobReturn::MissingLock && *final(self)
                == *old(self),
            old(self).locked_by(token@) ==> r == RetryJobReturn::Success && final(self).state
                == JobState::Waiting && final(self).lock is None && final(self).attempts_started
                == old(self).attempts_started && final(self).returnvalue == old(self).returnvalue
                && final(self).failed_reason == old(self).failed_reason,
    {
        let held = match &self.lock {
            None => false,
            Some(t) => *t == *token,
        };
        if !held {
            return RetryJobReturn::MissingLock;
        }
        self.state = JobState::Waiting;
        self.lock = None;
        RetryJobReturn::Success
    }
}

} // verus!
