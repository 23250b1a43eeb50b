//! The regions of a queue's keyspace and the keys that each command script
//! expects, in the order in which it expects them.
use vstd::prelude::*;
use vstd::string::StringExecFns;

verus! {

/// A region of a queue's keyspace.
pub enum QueueKeys {
    Wait,
    Active,
    Prioritized,
    Events,
    Stalled,
    Limiter,
    Delayed,
    Paused,
    Meta,
    Pc,
    Marker,
    Metrics,
    /// A region named at call time: a finished set or a job id.
    Custom(String),
}

/// The name of a region.
pub open spec fn region_name(k: QueueKeys) -> Seq<char> {
    match k {
        QueueKeys::Wait => "wait"@,
        QueueKeys::Active => "active"@,
        QueueKeys::Prioritized => "prioritized"@,
        QueueKeys::Events => "events"@,
        QueueKeys::Stalled => "stalled"@,
        QueueKeys::Limiter => "limiter"@,
        QueueKeys::Delayed => "delayed"@,
        QueueKeys::Paused => "paused"@,
        QueueKeys::Meta => "meta"@,
        QueueKeys::Pc => "pc"@,
        QueueKeys::Marker => "marker"@,
        QueueKeys::Metrics => "metrics"@,
        QueueKeys::Custom(s) => s@,
    }
}

impl QueueKeys {
    /// The region's name.
    pub fn as_str(&self) -> (r: String)
        ensures
            r@ == region_name(*self),
    {
        match self {
            QueueKeys::Wait => String::from_str("wait"),
            QueueKeys::Active => String::from_str("active"),
            QueueKeys::Prioritized => String::from_str("prioritized"),
            QueueKeys::Events => String::from_str("events"),
            QueueKeys::Stalled => String::from_str("stalled"),
            QueueKeys::Limiter => String::from_str("limiter"),
            QueueKeys::Delayed => String::from_str("delayed"),
            QueueKeys::Paused => String::from_str("paused"),
            QueueKeys::Meta => String::from_str("meta"),
            QueueKeys::Pc => String::from_str("pc"),
            QueueKeys::Marker => String::from_str("marker"),
            QueueKeys::Metrics => String::from_str("metrics"),
            QueueKeys::Custom(s) => String::from_str(s.as_str()),
        }
    }

    /// The region's key under a queue prefix: the prefix, then the name.
    pub fn with_prefix(&self, prefix: &str) -> (r: String)
        ensures
            r@ == prefix@ + region_name(*self),
    {
        let mut r = String::from_str(prefix);
        let name = self.as_str();
        r.append(name.as_str());
        r
    }
}

/// The keys of the given regions under `prefix`, in order.
pub open spec fn keys_for(prefix: Seq<char>, regions: Seq<QueueKeys>) -> Seq<Seq<char>> {
    regions.map_values(|k: QueueKeys| prefix + region_name(k))
}

pub open spec fn strings_view(v: Seq<String>) -> Seq<Seq<char>> {
    v.map_values(|s: String| s@)
}

/// The keys of the given regions under `prefix`, in order.
pub fn keys_with_prefix(prefix: &str, regions: &Vec<QueueKeys>) -> (r: Vec<String>)
    ensures
        strings_view(r@) == keys_for(prefix@, regions@),
{
    let mut r: Vec<String> = Vec::new();
    let mut i: usize = 0;
    while i < regions.len()
        invariant
            i <= regions@.len(),
            strings_view(r@) == keys_for(prefix@, regions@.take(i as int)),
        decreases regions@.len() - i,
    {
        let k = regions[i].with_prefix(prefix);
        let ghost before = strings_view(r@);
        r.push(k);
        assert(strings_view(r@) =~= before.push(k@));
        assert(keys_for(prefix@, regions@.take(i + 1)) =~= keys_for(
            prefix@,
            regions@.take(i as int),
        ).push(prefix@ + region_name(regions@[i as int])));
        i = i + 1;
    }
    assert(regions@.take(i as int) =~= regions@);
    r
}

/// The regions that the scripts moving a job to active or retrying it read,
/// in their order.
pub open spec fn lifecycle_regions() -> Seq<QueueKeys> {
    seq![
        QueueKeys::Wait,
        QueueKeys::Active,
        QueueKeys::Prioritized,
        QueueKeys::Events,
        QueueKeys::Stalled,
        QueueKeys::Limiter,
        QueueKeys::Delayed,
        QueueKeys::Paused,
        QueueKeys::Meta,
        QueueKeys::Pc,
        QueueKeys::Marker,
    ]
}

fn lifecycle_regions_exec() -> (r: Vec<QueueKeys>)
    ensures
        r@ == lifecycle_regions(),
{
    let r = vec![
        QueueKeys::Wait,
        QueueKeys::Active,
        QueueKeys::Prioritized,
        QueueKeys::Events,
        QueueKeys::Stalled,
        QueueKeys::Limiter,
        QueueKeys::Delayed,
        QueueKeys::Paused,
        QueueKeys::Meta,
        QueueKeys::Pc,
        QueueKeys::Marker,
    ];
    assert(r@ =~= lifecycle_regions());
    r
}

/// The keys of the script that moves the next job to active.
pub fn move_to_active_keys(prefix: &str) -> (r: Vec<String>)
    ensures
        strings_view(r@) == keys_for(prefix@, lifecycle_regions()),
{
    keys_with_prefix(prefix, &lifecycle_regions_exec())
}

/// The keys of the script that moves a job back to waiting.
pub fn retry_job_keys(prefix: &str) -> (r: Vec<String>)
    ensures
        strings_view(r@) == keys_for(prefix@, lifecycle_regions()),
{
    keys_with_prefix(prefix, &lifecycle_regions_exec())
}

/// The keys of the script that moves a job to a finished set: those of the
/// lifecycle regions up to the counter, then the finished set, the job itself,
/// the metrics and the marker.
pub open spec fn finished_keys(prefix: Seq<char>, target_set: Seq<char>, job_id: Seq<char>) -> Seq<
    Seq<char>,
> {
    keys_for(prefix, lifecycle_regions().take(10)) + seq![
        prefix + target_set,
        prefix + job_id,
        prefix + "metrics"@,
        prefix + "marker"@,
    ]
}

/// The keys of the script that moves a job to the finished set `target_set`.
pub fn move_to_finished_keys(prefix: &str, target_set: &str, job_id: &str) -> (r: Vec<String>)
    ensures
        strings_view(r@) == finished_keys(prefix@, target_set@, job_id@),
{
    let regions = vec![
        QueueKeys::Wait,
        QueueKeys::Active,
        QueueKeys::Prioritized,
        QueueKeys::Events,
        QueueKeys::Stalled,
        QueueKeys::Limiter,
        QueueKeys::Delayed,
        QueueKeys::Paused,
        QueueKeys::Meta,
        QueueKeys::Pc,
        QueueKeys::Custom(String::from_str(target_set)),
        QueueKeys::Custom(String::from_str(job_id)),
        QueueKeys::Metrics,
        QueueKeys::Marker,
    ];
    let r = keys_with_prefix(prefix, &regions);
    assert(regions@.take(10) =~= lifecycle_regions().take(10));
    assert(keys_for(prefix@, regions@) =~= finished_keys(prefix@, target_set@, job_id@)) by {
        assert(keys_for(prefix@, regions@).take(10) =~= keys_for(prefix@, regions@.take(10)));
    }
    r
}

} // verus!
