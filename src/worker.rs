//! The decisions of the worker: lock tokens, the retry policy, the cycle of a
//! task slot and the bounded pool of slots. Running them against the store
//! is left to the caller, which performs each action and reports what came of
//! it.
use vstd::prelude::*;
use vstd::string::StringExecFns;

verus! {

/// The digit that stands for `d`.
pub open spec fn digit_char(d: nat) -> char {
    if d == 0 {
        '0'
    } else if d == 1 {
        '1'
    } else if d == 2 {
        '2'
    } else if d == 3 {
        '3'
    } else if d == 4 {
        '4'
    } else if d == 5 {
        '5'
    } else if d == 6 {
        '6'
    } else if d == 7 {
        '7'
    } else if d == 8 {
        '8'
    } else {
        '9'
    }
}

/// `n` written in decimal, without leading zeros.
pub open spec fn decimal_text(n: nat) -> Seq<char>
    decreases n,
{
    if n < 10 {
        seq![digit_char(n)]
    } else {
        decimal_text(n / 10).push(digit_char(n % 10))
    }
}

fn digit_exec(d: u64) -> (c: char)
    requires
        d < 10,
    ensures
        c == digit_char(d as nat),
{
    if d == 0 {
        '0'
    } else if d == 1 {
        '1'
    } else if d == 2 {
        '2'
    } else if d == 3 {
        '3'
    } else if d == 4 {
        '4'
    } else if d == 5 {
        '5'
    } else if d == 6 {
        '6'
    } else if d == 7 {
        '7'
    } else if d == 8 {
        '8'
    } else {
        '9'
    }
}

/// Appends `n` in decimal.
pub fn push_decimal(out: &mut String, n: u64)
    ensures
        final(out)@ == old(out)@ + decimal_text(n as nat),
    decreases n,
{
    if n >= 10 {
        push_decimal(out, n / 10);
    }
    out.push(digit_exec(n % 10));
    assert(final(out)@ =~= old(out)@ + decimal_text(n as nat));
}

/// Relies on `uuid::Uuid::new_v4` for a random identifier and on its
/// `Display`, which writes the hyphenated form of 36 characters.
#[verifier::external_body]
fn random_instance_id() -> (r: String)
    ensures
        r@.len() == 36,
{
    uuid::Uuid::new_v4().to_string()
}

/// The lock tokens of one worker process: a stable instance identifier and a
/// sequence number, rendered as `"{instance}:{sequence}"`.
pub struct WorkerToken {
    token: String,
    postfix: u64,
}

/// The token with instance `instance` and sequence number `seq`.
pub open spec fn token_text(instance: Seq<char>, seq: nat) -> Seq<char> {
    instance + seq![':'] + decimal_text(seq)
}

impl WorkerToken {
    pub closed spec fn instance(&self) -> Seq<char> {
        self.token@
    }

    pub closed spec fn sequence(&self) -> nat {
        self.postfix as nat
    }

    /// Tokens of a fresh random instance; no sequence number handed out yet.
    pub fn new() -> (r: WorkerToken)
        ensures
            r.instance().len() == 36,
            r.sequence() == 0,
    {
        WorkerToken::with_instance(random_instance_id())
    }

    /// Tokens of the given instance; no sequence number handed out yet.
    pub fn with_instance(instance: String) -> (r: WorkerToken)
        ensures
            r.instance() == instance@,
            r.sequence() == 0,
    {
        WorkerToken { token: instance, postfix: 0 }
    }

    /// Whether another token can be handed out.
    pub fn has_next(&self) -> (r: bool)
        ensures
            r == (self.sequence() < u64::MAX),
    {
        self.postfix < u64::MAX
    }

    /// The next token: the sequence number goes up by one first.
    pub fn next(&mut self) -> (r: String)
        requires
            old(self).sequence() < u64::MAX,
        ensures
            final(self).instance() == old(self).instance(),
            final(self).sequence() == old(self).sequence() + 1,
            r@ == token_text(final(self).instance(), final(self).sequence()),
    {
        self.postfix = self.postfix + 1;
        let mut r = String::from_str(self.token.as_str());
        r.push(':');
        push_decimal(&mut r, self.postfix);
        assert(r@ =~= token_text(self.token@, self.postfix as nat));
        r
    }
}

/// Whether a failed job gets another attempt: it does while the attempts
/// made, counting this one, stay under the job's maximum.
pub open spec fn retries(attempts_made: Option<u32>, max_attempts: u32) -> bool {
    let made: int = match attempts_made {
        Some(n) => n as int,
        None => 0,
    };
    made + 1 < max_attempts
}

/// Whether a failed job gets another attempt.
pub fn should_retry(attempts_made: Option<u32>, max_attempts: u32) -> (r: bool)
    ensures
        r == retries(attempts_made, max_attempts),
{
    let made: u64 = match attempts_made {
        Some(n) => n as u64,
        None => 0,
    };
    made + 1 < max_attempts as u64
}

/// What a task slot does next.
#[derive(Debug, Clone, Copy, PartialEq, Eq, Structural)]
pub enum SlotAction {
    /// Move the next job to active with this slot's token.
    AcquireNext,
    /// Hand the acquired job to the processing function.
    Process,
    /// Move the job to the completed set with its result.
    Complete,
    /// Move the job back to waiting.
    Retry,
    /// Move the job to the failed set with the error's message.
    Fail,
    /// Stop and signal the pool that the slot is free.
    Release,
}

/// What the caller reports after performing a slot's action.
#[derive(Debug, Clone, Copy, PartialEq, Eq, Structural)]
pub enum SlotEvent {
    /// The store could not be reached.
    TransportError,
    /// No job was eligible.
    NoJob,
    /// A job was moved to active for this slot.
    Acquired { attempts_made: Option<u32>, max_attempts: u32 },
    /// The processing function returned a result.
    Processed,
    /// The processing function failed.
    ProcessFailed,
    /// The store answered the completing, failing or retrying script, with
    /// whatever code.
    Resolved,
}

/// Where a task slot stands.
#[derive(Debug, Clone, Copy, PartialEq, Eq, Structural)]
pub enum SlotState {
    Acquiring,
    Processing { attempts_made: Option<u32>, max_attempts: u32 },
    Resolving,
    Released,
}

/// The next state and action of a slot.
pub open spec fn slot_transition(s: SlotState, e: SlotEvent) -> (SlotState, SlotAction) {
    match (s, e) {
        (SlotState::Acquiring, SlotEvent::Acquired { attempts_made, max_attempts }) => (
            SlotState::Processing { attempts_made, max_attempts },
            SlotAction::Process,
        ),
        (SlotState::Processing { .. }, SlotEvent::Processed) => (
            SlotState::Resolving,
            SlotAction::Complete,
        ),
        (SlotState::Processing { attempts_made, max_attempts }, SlotEvent::ProcessFailed) => (
            SlotState::Resolving,
            if retries(attempts_made, max_attempts) {
                SlotAction::Retry
            } else {
                SlotAction::Fail
            },
        ),
        (SlotState::Resolving, SlotEvent::Resolved) => (
            SlotState::Acquiring,
            SlotAction::AcquireNext,
        ),
        (SlotState::Resolving, SlotEvent::TransportError) => (
            SlotState::Acquiring,
            SlotAction::AcquireNext,
        ),
        _ => (SlotState::Released, SlotAction::Release),
    }
}

/// A slot's cycle: acquire, process, resolve, and again, until no job is
/// eligible or the store cannot be reached. An error from the store while
/// resolving is logged by the caller and the slot goes on; any event that
/// does not fit the state releases the slot.
pub fn slot_step(s: SlotState, e: SlotEvent) -> (r: (SlotState, SlotAction))
    ensures
        r == slot_transition(s, e),
{
    match (s, e) {
        (SlotState::Acquiring, SlotEvent::Acquired { attempts_made, max_attempts }) => (
            SlotState::Processing { attempts_made, max_attempts },
            SlotAction::Process,
        ),
        (SlotState::Processing { .. }, SlotEvent::Processed) => (
            SlotState::Resolving,
            SlotAction::Complete,
        ),
        (SlotState::Processing { attempts_made, max_attempts }, SlotEvent::ProcessFailed) => (
            SlotState::Resolving,
            if should_retry(attempts_made, max_attempts) {
                SlotAction::Retry
            } else {
                SlotAction::Fail
            },
        ),
        (SlotState::Resolving, SlotEvent::Resolved) => (
            SlotState::Acquiring,
            SlotAction::AcquireNext,
        ),
        (SlotState::Resolving, SlotEvent::TransportError) => (
            SlotState::Acquiring,
            SlotAction::AcquireNext,
        ),
        _ => (SlotState::Released, SlotAction::Release),
    }
}

/// Retry ceiling: a job that fails when the attempts made are one short of
/// its maximum is failed for good; one that fails with fewer attempts made is
/// retried.
pub proof fn lemma_retry_ceiling(attempts_made: u32, max_attempts: u32)
    ensures
        attempts_made + 1 == max_attempts ==> slot_transition(
            SlotState::Processing { attempts_made: Some(attempts_made), max_attempts },
            SlotEvent::ProcessFailed,
        ) == (SlotState::Resolving, SlotAction::Fail),
        attempts_made + 1 < max_attempts ==> slot_transition(
            SlotState::Processing { attempts_made: Some(attempts_made), max_attempts },
            SlotEvent::ProcessFailed,
        ) == (SlotState::Resolving, SlotAction::Retry),
{
}

/// What the pool does next.
#[derive(Debug, Clone, Copy, PartialEq, Eq, Structural)]
pub enum PoolAction {
    /// Every slot is busy: wait until one is freed.
    WaitForFreed,
    /// The queue was found drained: block on the marker before acquiring.
    WaitForMarker,
    /// Start a slot.
    StartSlot,
}

/// The bounded pool of task slots of one worker.
pub struct WorkerPool {
    concurrency: usize,
    active: usize,
    drained: bool,
    token: WorkerToken,
}

impl WorkerPool {
    pub closed spec fn concurrency(&self) -> nat {
        self.concurrency as nat
    }

    pub closed spec fn active(&self) -> nat {
        self.active as nat
    }

    pub closed spec fn drained(&self) -> bool {
        self.drained
    }

    pub closed spec fn tokens(&self) -> WorkerToken {
        self.token
    }

    /// The bound: never more active slots than the configured concurrency.
    pub open spec fn within_bound(&self) -> bool {
        self.active() <= self.concurrency()
    }

    /// A pool of `concurrency` slots, none active, handing out tokens of
    /// `token`.
    pub fn new(concurrency: usize, token: WorkerToken) -> (r: WorkerPool)
        ensures
            r.concurrency() == concurrency,
            r.active() == 0,
            !r.drained(),
            r.tokens() == token,
            r.within_bound(),
    {
        WorkerPool { concurrency, active: 0, drained: false, token }
    }

    pub fn active_tasks(&self) -> (r: usize)
        ensures
            r == self.active(),
    {
        self.active
    }

    /// What the pool does next: wait while every slot is busy, then wait
    /// for the marker if the queue was found drained, else start a slot.
    pub open spec fn next_action_spec(&self) -> PoolAction {
        if self.active() >= self.concurrency() {
            PoolAction::WaitForFreed
        } else if self.drained() {
            PoolAction::WaitForMarker
        } else {
            PoolAction::StartSlot
        }
    }

    /// What the pool does next.
    pub fn next_action(&self) -> (r: PoolAction)
        ensures
            r == self.next_action_spec(),
    {
        if self.active >= self.concurrency {
            PoolAction::WaitForFreed
        } else if self.drained {
            PoolAction::WaitForMarker
        } else {
            PoolAction::StartSlot
        }
    }

    /// Starts a slot if one is free, the queue is not known to be drained and
    /// a token is left: the slot gets the token with the next sequence number.
    pub fn start_slot(&mut self) -> (r: Option<String>)
        requires
            old(self).within_bound(),
        ensures
            final(self).within_bound(),
            final(self).concurrency() == old(self).concurrency(),
            final(self).drained() == old(self).drained(),
            (r is Some) == (old(self).active() < old(self).concurrency() && !old(self).drained()
                && old(self).tokens().sequence() < u64::MAX),
            r matches Some(t) ==> {
                &&& final(self).active() == old(self).active() + 1
                &&& final(self).tokens().instance() == old(self).tokens().instance()
                &&& final(self).tokens().sequence() == old(self).tokens().sequence() + 1
                &&& t@ == token_text(
                    final(self).tokens().instance(),
                    final(self).tokens().sequence(),
                )
            },
            r is None ==> *final(self) == *old(self),
    {
        if self.active < self.concurrency && !self.drained && self.token.has_next() {
            let t = self.token.next();
            self.active = self.active + 1;
            Some(t)
        } else {
            None
        }
    }

    /// A slot signalled that it is free: one fewer active slot, and the
    /// queue is taken as drained until the marker says otherwise. A signal
    /// with no active slot changes nothing.
    pub fn slot_freed(&mut self)
        requires
            old(self).within_bound(),
        ensures
            final(self).within_bound(),
            final(self).concurrency() == old(self).concurrency(),
            final(self).tokens() == old(self).tokens(),
            old(self).active() > 0 ==> final(self).active() == old(self).active() - 1
                && final(self).drained(),
            old(self).active() == 0 ==> *final(self) == *old(self),
    {
        if self.active > 0 {
            self.active = self.active - 1;
            self.drained = true;
        }
    }

    /// The blocking wait on the marker ended: if it popped a marker, new work
    /// may be there and the pool is no longer drained; otherwise it waits
    /// again.
    pub fn marker_wait_ended(&mut self, popped: bool)
        requires
            old(self).within_bound(),
        ensures
            final(self).within_bound(),
            final(self).concurrency() == old(self).concurrency(),
            final(self).active() == old(self).active(),
            final(self).tokens() == old(self).tokens(),
            final(self).drained() == (old(self).drained() && !popped),
    {
        if popped {
            self.drained = false;
        }
    }
}

/// The options of a worker: how many slots, and how many retries.
#[derive(Debug, Clone, Copy, PartialEq, Eq, Structural)]
pub struct WorkerOpts {
    pub concurrency: u32,
    pub retry: u32,
}

/// Collects worker options; unset options take their defaults, one slot and
/// no retry.
#[derive(Debug, Clone, Copy, PartialEq, Eq, Structural)]
pub struct WorkerOptsBuilder {
    pub concurrency: Option<u32>,
    pub retry: Option<u32>,
}

impl WorkerOptsBuilder {
    pub fn new() -> (r: WorkerOptsBuilder)
        ensures
            r.concurrency is None,
            r.retry is None,
    {
        WorkerOptsBuilder { concurrency: None, retry: None }
    }

    pub fn concurrency(self, concurrency: u32) -> (r: WorkerOptsBuilder)
        ensures
            r == (WorkerOptsBuilder { concurrency: Some(concurrency), ..self }),
    {
        WorkerOptsBuilder { concurrency: Some(concurrency), ..self }
    }

    pub fn retry(self, retry: u32) -> (r: WorkerOptsBuilder)
        ensures
            r == (WorkerOptsBuilder { retry: Some(retry), ..self }),
    {
        WorkerOptsBuilder { retry: Some(retry), ..self }
    }

    pub fn build(self) -> (r: WorkerOpts)
        ensures
            r.concurrency == match self.concurrency {
                Some(c) => c,
                None => 1u32,
            },
            r.retry == match self.retry {
                Some(n) => n,
                None => 0u32,
            },
    {
        WorkerOpts {
            concurrency: match self.concurrency {
                Some(c) => c,
                None => 1,
            },
            retry: match self.retry {
                Some(n) => n,
                None => 0,
            },
        }
    }
}

} // verus!
