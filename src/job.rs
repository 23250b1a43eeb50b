//! Jobs, their options, and a builder that assembles a job field by field.
use vstd::prelude::*;

verus! {

/// The options a job was added with.
#[derive(Debug, Clone, Copy, PartialEq, Eq, Structural)]
pub struct JobOptions {
    /// The number of attempts after which a failing job is failed for good.
    pub attempts: u32,
}

/// A unit of work.
#[derive(Debug)]
pub struct Job<Data> {
    pub id: String,
    pub name: String,
    pub data: Data,
    pub opts: JobOptions,
    pub timestamp: u128,
    pub delay: u128,
    pub priority: u32,
    pub processed_on: u128,
    pub attempts_started: u32,
    pub attempts_made: Option<u32>,
}

/// What `serde_json` reads under `key` of the JSON text `text` as an
/// unsigned 64-bit integer; it depends on the two texts alone.
pub uninterp spec fn json_u64_field(text: Seq<char>, key: Seq<char>) -> Option<u64>;

/// Relies on `serde_json::from_str` to parse `text` into a
/// `serde_json::Value`, then on `Value::get` and `Value::as_u64` to read the
/// unsigned integer under `key`; `None` where any of them fails.
#[verifier::external_body]
fn json_u64_at(text: &str, key: &str) -> (r: Option<u64>)
    ensures
        r == json_u64_field(text@, key@),
{
    match serde_json::from_str::<serde_json::Value>(text) {
        Ok(v) => match v.get(key) {
            Some(x) => x.as_u64(),
            None => None,
        },
        Err(_) => None,
    }
}

/// The options written as the JSON text `text`: its `attempts` must be an
/// unsigned integer that fits in 32 bits.
pub open spec fn options_from_json(text: Seq<char>) -> Option<JobOptions> {
    match json_u64_field(text, "attempts"@) {
        Some(n) => if n <= u32::MAX {
            Some(JobOptions { attempts: n as u32 })
        } else {
            None
        },
        None => None,
    }
}

/// Reads job options from their JSON text.
pub fn parse_job_options(text: &str) -> (r: Option<JobOptions>)
    ensures
        r == options_from_json(text@),
{
    match json_u64_at(text, "attempts") {
        Some(n) => if n <= u32::MAX as u64 {
            Some(JobOptions { attempts: n as u32 })
        } else {
            None
        },
        None => None,
    }
}

/// Collects the fields of a job; every field but `attempts_made` must be set
/// before the job is built.
pub struct JobBuilder<Data> {
    pub id: Option<String>,
    pub name: Option<String>,
    pub data: Option<Data>,
    pub opts: Option<JobOptions>,
    pub timestamp: Option<u128>,
    pub delay: Option<u128>,
    pub priority: Option<u32>,
    pub processed_on: Option<u128>,
    pub attempts_started: Option<u32>,
    pub attempts_made: Option<u32>,
}

impl<Data> JobBuilder<Data> {
    /// A builder with no field set.
    pub fn new() -> (r: Self)
        ensures
            r.id is None,
            r.name is None,
            r.data is None,
            r.opts is None,
            r.timestamp is None,
            r.delay is None,
            r.priority is None,
            r.processed_on is None,
            r.attempts_started is None,
            r.attempts_made is None,
    {
        JobBuilder {
            id: None,
            name: None,
            data: None,
            opts: None,
            timestamp: None,
            delay: None,
            priority: None,
            processed_on: None,
            attempts_started: None,
            attempts_made: None,
        }
    }

    pub fn id(self, id: String) -> (r: Self)
        ensures
            r == (JobBuilder { id: Some(id), ..self }),
    {
        JobBuilder { id: Some(id), ..self }
    }

    pub fn name(self, name: String) -> (r: Self)
        ensures
            r == (JobBuilder { name: Some(name), ..self }),
    {
        JobBuilder { name: Some(name), ..self }
    }

    pub fn data(self, data: Data) -> (r: Self)
        ensures
            r == (JobBuilder { data: Some(data), ..self }),
    {
        JobBuilder { data: Some(data), ..self }
    }

    /// Sets the options from their JSON text; text that gives no options
    /// leaves them unset.
    pub fn opts(self, opts: String) -> (r: Self)
        ensures
            r == (JobBuilder { opts: options_from_json(opts@), ..self }),
    {
        JobBuilder { opts: parse_job_options(opts.as_str()), ..self }
    }

    pub fn timestamp(self, timestamp: u128) -> (r: Self)
        ensures
            r == (JobBuilder { timestamp: Some(timestamp), ..self }),
    {
        JobBuilder { timestamp: Some(timestamp), ..self }
    }

    pub fn delay(self, delay: u128) -> (r: Self)
        ensures
            r == (JobBuilder { delay: Some(delay), ..self }),
    {
        JobBuilder { delay: Some(delay), ..self }
    }

    pub fn priority(self, priority: u32) -> (r: Self)
        ensures
            r == (JobBuilder { priority: Some(priority), ..self }),
    {
        JobBuilder { priority: Some(priority), ..self }
    }

    pub fn processed_on(self, processed_on: u128) -> (r: Self)
        ensures
            r == (JobBuilder { processed_on: Some(processed_on), ..self }),
    {
        JobBuilder { processed_on: Some(processed_on), ..self }
    }

    pub fn attempts_started(self, attempts_started: u32) -> (r: Self)
        ensures
            r == (JobBuilder { attempts_started: Some(attempts_started), ..self }),
    {
        JobBuilder { attempts_started: Some(attempts_started), ..self }
    }

    pub fn attempts_made(self, attempts_made: u32) -> (r: Self)
        ensures
            r == (JobBuilder { attempts_made: Some(attempts_made), ..self }),
    {
        JobBuilder { attempts_made: Some(attempts_made), ..self }
    }

    /// Whether every field that a job needs is set.
    pub open spec fn complete(&self) -> bool {
        &&& self.id is Some
        &&& self.name is Some
        &&& self.data is Some
        &&& self.opts is Some
        &&& self.timestamp is Some
        &&& self.delay is Some
        &&& self.priority is Some
        &&& self.processed_on is Some
        &&& self.attempts_started is Some
    }

    /// Whether every field that a job needs is set.
    pub fn is_complete(&self) -> (r: bool)
        ensures
            r == self.complete(),
    {
        self.id.is_some() && self.name.is_some() && self.data.is_some() && self.opts.is_some()
            && self.timestamp.is_some() && self.delay.is_some() && self.priority.is_some()
            && self.processed_on.is_some() && self.attempts_started.is_some()
    }

    /// The job with the fields set so far.
    pub fn build(self) -> (r: Job<Data>)
        requires
            self.complete(),
        ensures
            r.id == self.id->0,
            r.name == self.name->0,
            r.data == self.data->0,
            r.opts == self.opts->0,
            r.timestamp == self.timestamp->0,
            r.delay == self.delay->0,
            r.priority == self.priority->0,
            r.processed_on == self.processed_on->0,
            r.attempts_started == self.attempts_started->0,
            r.attempts_made == self.attempts_made,
    {
        Job {
            id: self.id.unwrap(),
            name: self.name.unwrap(),
            data: self.data.unwrap(),
            opts: self.opts.unwrap(),
            timestamp: self.timestamp.unwrap(),
            delay: self.delay.unwrap(),
            priority: self.priority.unwrap(),
            processed_on: self.processed_on.unwrap(),
            attempts_started: self.attempts_started.unwrap(),
            attempts_made: self.attempts_made,
        }
    }
}

} // verus!
