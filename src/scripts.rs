//! The command scripts of the job lifecycle: their handles, the arguments
//! they take and the codes they return.
use vstd::prelude::*;
use vstd::string::StringExecFns;
use crate::loader::{ScriptLoaderError, ScriptTable, load_redis_script, resolve, script_of};
use crate::queue_keys::strings_view;

verus! {

/// The finished set that a job is moved to.
#[derive(Debug, Clone, Copy, PartialEq, Eq, Structural)]
pub enum MoveToFinishedTarget {
    Completed,
    Failed,
}

impl MoveToFinishedTarget {
    /// The job property that receives the outcome message.
    pub fn msg_prorperty(&self) -> (r: &'static str)
        ensures
            r@ == match *self {
                MoveToFinishedTarget::Completed => "returnvalue"@,
                MoveToFinishedTarget::Failed => "failedReason"@,
            },
    {
        match self {
            MoveToFinishedTarget::Completed => "returnvalue",
            MoveToFinishedTarget::Failed => "failedReason",
        }
    }

    /// The name of the finished set.
    pub fn as_str(&self) -> (r: &'static str)
        ensures
            r@ == target_name(*self),
    {
        match self {
            MoveToFinishedTarget::Completed => "completed",
            MoveToFinishedTarget::Failed => "failed",
        }
    }

    /// The name of the finished set, owned.
    pub fn to_string(&self) -> (r: String)
        ensures
            r@ == target_name(*self),
    {
        String::from_str(self.as_str())
    }
}

pub open spec fn target_name(t: MoveToFinishedTarget) -> Seq<char> {
    match t {
        MoveToFinishedTarget::Completed => "completed"@,
        MoveToFinishedTarget::Failed => "failed"@,
    }
}

pub open spec fn msg_property_name(t: MoveToFinishedTarget) -> Seq<char> {
    match t {
        MoveToFinishedTarget::Completed => "returnvalue"@,
        MoveToFinishedTarget::Failed => "failedReason"@,
    }
}

/// How many finished jobs the store keeps; a negative count keeps all.
pub struct KeepJobs {
    pub count: i32,
}

/// The policy arguments of the script that moves a job to a finished set.
pub struct MoveToFinishedArgs {
    pub token: String,
    pub keep_jobs: KeepJobs,
    /// In milliseconds.
    pub lock_duration: u64,
    pub max_attempts: u32,
    pub max_metrics_size: u64,
    pub fail_parent_on_fail: bool,
    pub remove_dependency_on_fail: bool,
}

/// What the script that moves a job to a finished set reports.
#[derive(Debug, Clone, Copy, PartialEq, Eq, Structural)]
pub enum MoveToFinishedReturn {
    Success,
    MissingKey,
    MissingLock,
    JobNotActiveInSet,
    JobHasPendingDependencies,
    LockIsNotOwnedByThisClient,
}

/// The meaning of each code that the finishing script returns.
pub open spec fn finished_outcome(code: i64) -> Option<MoveToFinishedReturn> {
    if code == 0 {
        Some(MoveToFinishedReturn::Success)
    } else if code == -1 {
        Some(MoveToFinishedReturn::MissingKey)
    } else if code == -2 {
        Some(MoveToFinishedReturn::MissingLock)
    } else if code == -3 {
        Some(MoveToFinishedReturn::JobNotActiveInSet)
    } else if code == -4 {
        Some(MoveToFinishedReturn::JobHasPendingDependencies)
    } else if code == -6 {
        Some(MoveToFinishedReturn::LockIsNotOwnedByThisClient)
    } else {
        None
    }
}

impl MoveToFinishedReturn {
    /// Decodes the script's integer reply; an unknown code gives `None`.
    pub fn from_code(code: i64) -> (r: Option<MoveToFinishedReturn>)
        ensures
            r == finished_outcome(code),
    {
        if code == 0 {
            Some(MoveToFinishedReturn::Success)
        } else if code == -1 {
            Some(MoveToFinishedReturn::MissingKey)
        } else if code == -2 {
            Some(MoveToFinishedReturn::MissingLock)
        } else if code == -3 {
            Some(MoveToFinishedReturn::JobNotActiveInSet)
        } else if code == -4 {
            Some(MoveToFinishedReturn::JobHasPendingDependencies)
        } else if code == -6 {
            Some(MoveToFinishedReturn::LockIsNotOwnedByThisClient)
        } else {
            None
        }
    }

    /// Whether the job was moved.
    pub fn is_ok(&self) -> (r: bool)
        ensures
            r == (*self == MoveToFinishedReturn::Success),
    {
        match self {
            MoveToFinishedReturn::Success => true,
            _ => false,
        }
    }
}

/// The arguments of the script that moves a job back to waiting.
pub struct RetryJobArgs {
    pub token: String,
    pub job_id: String,
}

/// What the script that moves a job back to waiting reports.
#[derive(Debug, Clone, Copy, PartialEq, Eq, Structural)]
pub enum RetryJobReturn {
    Success,
    MissingKey,
    MissingLock,
}

/// The meaning of each code that the retry script returns.
pub open spec fn retry_outcome(code: i64) -> Option<RetryJobReturn> {
    if code == 0 {
        Some(RetryJobReturn::Success)
    } else if code == -1 {
        Some(RetryJobReturn::MissingKey)
    } else if code == -2 {
        Some(RetryJobReturn::MissingLock)
    } else {
        None
    }
}

impl RetryJobReturn {
    /// Decodes the script's integer reply; an unknown code gives `None`.
    pub fn from_code(code: i64) -> (r: Option<RetryJobReturn>)
        ensures
            r == retry_outcome(code),
    {
        if code == 0 {
            Some(RetryJobReturn::Success)
        } else if code == -1 {
            Some(RetryJobReturn::MissingKey)
        } else if code == -2 {
            Some(RetryJobReturn::MissingLock)
        } else {
            None
        }
    }
}

/// The arguments of the script that moves the next job to active.
pub struct MoveToActiveArgs {
    pub token: String,
    pub lock_duration: u32,
}

/// The positional arguments of the finishing script, before its packed
/// policy: the job id, the time, the property and message of the outcome, the
/// finished set, that the job is not to be fetched next, and the prefix.
pub open spec fn finished_args(
    job_id: Seq<char>,
    timestamp: Seq<char>,
    target: MoveToFinishedTarget,
    return_msg: Seq<char>,
    prefix: Seq<char>,
) -> Seq<Seq<char>> {
    seq![
        job_id,
        timestamp,
        msg_property_name(target),
        return_msg,
        target_name(target),
        "false"@,
        prefix,
    ]
}

/// The positional arguments of the finishing script, before its packed policy.
pub fn move_to_finished_args(
    job_id: &str,
    timestamp: &str,
    target: MoveToFinishedTarget,
    return_msg: &str,
    prefix: &str,
) -> (r: Vec<String>)
    ensures
        strings_view(r@) == finished_args(job_id@, timestamp@, target, return_msg@, prefix@),
{
    let r = vec![
        String::from_str(job_id),
        String::from_str(timestamp),
        String::from_str(target.msg_prorperty()),
        String::from_str(return_msg),
        String::from_str(target.as_str()),
        String::from_str("false"),
        String::from_str(prefix),
    ];
    assert(strings_view(r@) =~= finished_args(job_id@, timestamp@, target, return_msg@, prefix@));
    r
}

pub open spec fn move_to_active_path() -> Seq<char> {
    "./src/scripts/commands/moveToActive-11.lua"@
}

pub open spec fn move_to_finished_path() -> Seq<char> {
    "./src/scripts/commands/moveToFinished-14.lua"@
}

pub open spec fn retry_job_path() -> Seq<char> {
    "./src/scripts/commands/retryJob-10.lua"@
}

pub open spec fn add_standard_job_path() -> Seq<char> {
    "./src/scripts/commands/addStandardJob-7.lua"@
}

/// The script that moves the next job to active.
pub struct MoveToActive(pub redis::Script);

/// The script that moves a job to a finished set.
pub struct MoveToFinished(pub redis::Script);

/// The script that moves a job back to waiting.
pub struct RetryJob(pub redis::Script);

/// The script that adds a job to the waiting set.
pub struct AddStandardJob(pub redis::Script);

impl MoveToActive {
    /// The path of the script's root file.
    pub fn path() -> (r: &'static str)
        ensures
            r@ == move_to_active_path(),
    {
        "./src/scripts/commands/moveToActive-11.lua"
    }

    /// Builds the script from the fragments of `table`.
    pub fn new(table: &ScriptTable) -> (r: Result<MoveToActive, ScriptLoaderError>)
        ensures
            match resolve(table@, move_to_active_path()) {
                Ok(text) => r matches Ok(s) && s.0 == script_of(text),
                Err(e) => r matches Err(x) && x@ == e,
            },
    {
        match load_redis_script(table, Self::path()) {
            Ok(s) => Ok(MoveToActive(s)),
            Err(e) => Err(e),
        }
    }
}

impl MoveToFinished {
    /// The path of the script's root file.
    pub fn path() -> (r: &'static str)
        ensures
            r@ == move_to_finished_path(),
    {
        "./src/scripts/commands/moveToFinished-14.lua"
    }

    /// Builds the script from the fragments of `table`.
    pub fn new(table: &ScriptTable) -> (r: Result<MoveToFinished, ScriptLoaderError>)
        ensures
            match resolve(table@, move_to_finished_path()) {
                Ok(text) => r matches Ok(s) && s.0 == script_of(text),
                Err(e) => r matches Err(x) && x@ == e,
            },
    {
        match load_redis_script(table, Self::path()) {
            Ok(s) => Ok(MoveToFinished(s)),
            Err(e) => Err(e),
        }
    }
}

impl RetryJob {
    /// The path of the script's root file.
    pub fn path() -> (r: &'static str)
        ensures
            r@ == retry_job_path(),
    {
        "./src/scripts/commands/retryJob-10.lua"
    }

    /// Builds the script from the fragments of `table`.
    pub fn new(table: &ScriptTable) -> (r: Result<RetryJob, ScriptLoaderError>)
        ensures
            match resolve(table@, retry_job_path()) {
                Ok(text) => r matches Ok(s) && s.0 == script_of(text),
                Err(e) => r matches Err(x) && x@ == e,
            },
    {
        match load_redis_script(table, Self::path()) {
            Ok(s) => Ok(RetryJob(s)),
            Err(e) => Err(e),
        }
    }
}

impl AddStandardJob {
    /// The path of the script's root file.
    pub fn path() -> (r: &'static str)
        ensures
            r@ == add_standard_job_path(),
    {
        "./src/scripts/commands/addStandardJob-7.lua"
    }

    /// Builds the script from the fragments of `table`.
    pub fn new(table: &ScriptTable) -> (r: Result<AddStandardJob, ScriptLoaderError>)
        ensures
            match resolve(table@, add_standard_job_path()) {
                Ok(text) => r matches Ok(s) && s.0 == script_of(text),
                Err(e) => r matches Err(x) && x@ == e,
            },
    {
        match load_redis_script(table, Self::path()) {
            Ok(s) => Ok(AddStandardJob(s)),
            Err(e) => Err(e),
        }
    }
}

} // verus!
