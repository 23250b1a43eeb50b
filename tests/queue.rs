use hornet::job::{parse_job_options, JobBuilder, JobOptions};
use hornet::queue_keys::{keys_with_prefix, move_to_active_keys, move_to_finished_keys, retry_job_keys, QueueKeys};
use hornet::reply::{parse_move_to_active_reply, parse_u128, parse_u32, text_of_bytes, MoveToActiveReturn, Reply, ReplyError};
use hornet::scripts::{
    move_to_finished_args, MoveToActive, MoveToFinishedReturn, MoveToFinishedTarget, RetryJobReturn,
};
use hornet::loader::{ScriptLoaderError, ScriptTable};

#[test]
fn region_names() {
    assert_eq!(QueueKeys::Wait.as_str(), "wait");
    assert_eq!(QueueKeys::Prioritized.as_str(), "prioritized");
    assert_eq!(QueueKeys::Pc.as_str(), "pc");
    assert_eq!(QueueKeys::Metrics.as_str(), "metrics");
    assert_eq!(QueueKeys::Custom("42".to_string()).as_str(), "42");
}

#[test]
fn region_keys_take_the_prefix() {
    assert_eq!(QueueKeys::Marker.with_prefix("bull:q:"), "bull:q:marker");
    assert_eq!(QueueKeys::Custom("completed".to_string()).with_prefix("p:"), "p:completed");
    assert_eq!(QueueKeys::Wait.with_prefix(""), "wait");
}

#[test]
fn keys_keep_the_given_order() {
    let keys = keys_with_prefix("x:", &vec![QueueKeys::Meta, QueueKeys::Wait]);
    assert_eq!(keys, vec!["x:meta".to_string(), "x:wait".to_string()]);
    assert!(keys_with_prefix("x:", &vec![]).is_empty());
}

#[test]
fn move_to_active_key_order() {
    let keys = move_to_active_keys("bull:my_queue:");
    let expected: Vec<String> = [
        "wait", "active", "prioritized", "events", "stalled", "limiter", "delayed", "paused", "meta",
        "pc", "marker",
    ]
    .iter()
    .map(|k| format!("bull:my_queue:{}", k))
    .collect();
    assert_eq!(keys, expected);
    assert_eq!(retry_job_keys("bull:my_queue:"), expected);
}

#[test]
fn move_to_finished_key_order() {
    let keys = move_to_finished_keys("b:", "failed", "17");
    let expected: Vec<String> = [
        "wait", "active", "prioritized", "events", "stalled", "limiter", "delayed", "paused", "meta",
        "pc", "failed", "17", "metrics", "marker",
    ]
    .iter()
    .map(|k| format!("b:{}", k))
    .collect();
    assert_eq!(keys, expected);
}

#[test]
fn finished_targets() {
    assert_eq!(MoveToFinishedTarget::Completed.as_str(), "completed");
    assert_eq!(MoveToFinishedTarget::Failed.as_str(), "failed");
    assert_eq!(MoveToFinishedTarget::Completed.msg_prorperty(), "returnvalue");
    assert_eq!(MoveToFinishedTarget::Failed.msg_prorperty(), "failedReason");
    assert_eq!(MoveToFinishedTarget::Failed.to_string(), "failed");
}

#[test]
fn finished_args_order() {
    let args = move_to_finished_args("7", "1000", MoveToFinishedTarget::Failed, "boom", "b:q:");
    assert_eq!(args, vec!["7", "1000", "failedReason", "boom", "failed", "false", "b:q:"]);
    let args = move_to_finished_args("7", "1000", MoveToFinishedTarget::Completed, "\"ok\"", "b:q:");
    assert_eq!(args[2], "returnvalue");
    assert_eq!(args[4], "completed");
}

#[test]
fn finished_codes() {
    assert_eq!(MoveToFinishedReturn::from_code(0), Some(MoveToFinishedReturn::Success));
    assert_eq!(MoveToFinishedReturn::from_code(-1), Some(MoveToFinishedReturn::MissingKey));
    assert_eq!(MoveToFinishedReturn::from_code(-2), Some(MoveToFinishedReturn::MissingLock));
    assert_eq!(MoveToFinishedReturn::from_code(-3), Some(MoveToFinishedReturn::JobNotActiveInSet));
    assert_eq!(MoveToFinishedReturn::from_code(-4), Some(MoveToFinishedReturn::JobHasPendingDependencies));
    assert_eq!(MoveToFinishedReturn::from_code(-6), Some(MoveToFinishedReturn::LockIsNotOwnedByThisClient));
    assert_eq!(MoveToFinishedReturn::from_code(-5), None);
    assert_eq!(MoveToFinishedReturn::from_code(1), None);
    assert!(MoveToFinishedReturn::Success.is_ok());
    assert!(!MoveToFinishedReturn::MissingLock.is_ok());
}

#[test]
fn retry_codes() {
    assert_eq!(RetryJobReturn::from_code(0), Some(RetryJobReturn::Success));
    assert_eq!(RetryJobReturn::from_code(-1), Some(RetryJobReturn::MissingKey));
    assert_eq!(RetryJobReturn::from_code(-2), Some(RetryJobReturn::MissingLock));
    assert_eq!(RetryJobReturn::from_code(-3), None);
}

#[test]
fn script_handles_load_from_the_table() {
    let t = ScriptTable::new();
    assert_eq!(
        MoveToActive::new(&t).err().unwrap(),
        ScriptLoaderError::IoError("./src/scripts/commands/moveToActive-11.lua".to_string())
    );
    let mut t = ScriptTable::new();
    t.add(MoveToActive::path(), "return 0");
    let s = MoveToActive::new(&t).unwrap();
    assert_eq!(s.0.get_hash(), redis::Script::new("return 0").get_hash());
}

#[test]
fn job_options_from_json() {
    assert_eq!(parse_job_options("{\"attempts\":3,\"delay\":0}"), Some(JobOptions { attempts: 3 }));
    assert_eq!(parse_job_options("{\"attempts\":0}"), Some(JobOptions { attempts: 0 }));
    assert_eq!(parse_job_options("{\"attempts\":4294967296}"), None);
    assert_eq!(parse_job_options("{\"delay\":1}"), None);
    assert_eq!(parse_job_options("{\"attempts\":-1}"), None);
    assert_eq!(parse_job_options("not json"), None);
}

#[test]
fn builder_sets_fields() {
    let b: JobBuilder<u8> = JobBuilder::new();
    assert!(!b.is_complete());
    let b = b
        .id("1".to_string())
        .name("n".to_string())
        .data(5)
        .opts("{\"attempts\":2}".to_string())
        .timestamp(10)
        .delay(0)
        .priority(3)
        .processed_on(11);
    assert!(!b.is_complete());
    let b = b.attempts_started(1);
    assert!(b.is_complete());
    let j = b.attempts_made(1).build();
    assert_eq!(j.id, "1");
    assert_eq!(j.name, "n");
    assert_eq!(j.data, 5);
    assert_eq!(j.opts.attempts, 2);
    assert_eq!(j.timestamp, 10);
    assert_eq!(j.priority, 3);
    assert_eq!(j.processed_on, 11);
    assert_eq!(j.attempts_started, 1);
    assert_eq!(j.attempts_made, Some(1));
}

#[test]
fn builder_leaves_bad_options_unset() {
    let b: JobBuilder<u8> = JobBuilder::new().opts("{}".to_string());
    assert!(b.opts.is_none());
}

#[test]
fn decimal_fields() {
    assert_eq!(parse_u128(&b"0".to_vec()), Some(0));
    assert_eq!(parse_u128(&b"1700000000123".to_vec()), Some(1700000000123));
    assert_eq!(parse_u128(&b"340282366920938463463374607431768211455".to_vec()), Some(u128::MAX));
    assert_eq!(parse_u128(&b"340282366920938463463374607431768211456".to_vec()), None);
    assert_eq!(parse_u128(&b"".to_vec()), None);
    assert_eq!(parse_u128(&b"12a".to_vec()), None);
    assert_eq!(parse_u128(&b"-1".to_vec()), None);
    assert_eq!(parse_u32(&b"4294967295".to_vec()), Some(u32::MAX));
    assert_eq!(parse_u32(&b"4294967296".to_vec()), None);
}

#[test]
fn utf8_fields() {
    assert_eq!(text_of_bytes(&"héllo".as_bytes().to_vec()), Some("héllo".to_string()));
    assert_eq!(text_of_bytes(&vec![0xff, 0xfe]), None);
}

fn data(s: &str) -> Reply {
    Reply::Data(s.as_bytes().to_vec())
}

fn job_reply(fields: Vec<(&str, &str)>) -> Reply {
    let mut raw = vec![];
    for (k, v) in fields {
        raw.push(data(k));
        raw.push(data(v));
    }
    Reply::Bulk(vec![Reply::Bulk(raw), data("42"), Reply::Int(0), Reply::Int(0)])
}

fn full_fields() -> Vec<(&'static str, &'static str)> {
    vec![
        ("name", "email"),
        ("data", "{\"to\":\"a@b\"}"),
        ("opts", "{\"attempts\":3}"),
        ("timestamp", "1700000000000"),
        ("delay", "0"),
        ("priority", "2"),
        ("processedOn", "1700000000500"),
        ("ats", "1"),
    ]
}

#[test]
fn no_job_reply() {
    let r = Reply::Bulk(vec![Reply::Int(0), Reply::Int(0), Reply::Int(0), Reply::Int(0)]);
    assert!(matches!(parse_move_to_active_reply(&r), Ok(MoveToActiveReturn::NoJob)));
}

#[test]
fn job_reply_is_rebuilt() {
    let mut fields = full_fields();
    fields.push(("atm", "1"));
    fields.push(("unknownField", "whatever"));
    match parse_move_to_active_reply(&job_reply(fields)) {
        Ok(MoveToActiveReturn::Job(j)) => {
            assert_eq!(j.id, "42");
            assert_eq!(j.name, "email");
            assert_eq!(j.data, b"{\"to\":\"a@b\"}".to_vec());
            assert_eq!(j.opts, JobOptions { attempts: 3 });
            assert_eq!(j.timestamp, 1700000000000);
            assert_eq!(j.delay, 0);
            assert_eq!(j.priority, 2);
            assert_eq!(j.processed_on, 1700000000500);
            assert_eq!(j.attempts_started, 1);
            assert_eq!(j.attempts_made, Some(1));
        }
        other => panic!("unexpected {:?}", other),
    }
}

#[test]
fn attempts_made_is_optional() {
    match parse_move_to_active_reply(&job_reply(full_fields())) {
        Ok(MoveToActiveReturn::Job(j)) => assert_eq!(j.attempts_made, None),
        other => panic!("unexpected {:?}", other),
    }
}

#[test]
fn later_field_value_wins() {
    let mut fields = full_fields();
    fields.push(("priority", "9"));
    match parse_move_to_active_reply(&job_reply(fields)) {
        Ok(MoveToActiveReturn::Job(j)) => assert_eq!(j.priority, 9),
        other => panic!("unexpected {:?}", other),
    }
}

#[test]
fn missing_field_is_invalid() {
    let fields: Vec<(&str, &str)> = full_fields().into_iter().filter(|(k, _)| *k != "delay").collect();
    assert_eq!(parse_move_to_active_reply(&job_reply(fields)).err(), Some(ReplyError::InvalidField));
}

#[test]
fn unreadable_number_is_invalid() {
    let mut fields = full_fields();
    fields.push(("timestamp", "soon"));
    assert_eq!(parse_move_to_active_reply(&job_reply(fields)).err(), Some(ReplyError::InvalidField));
}

#[test]
fn unexpected_shapes_are_invalid() {
    assert_eq!(parse_move_to_active_reply(&Reply::Nil).err(), Some(ReplyError::InvalidResponse));
    assert_eq!(parse_move_to_active_reply(&Reply::Int(0)).err(), Some(ReplyError::InvalidResponse));
    let three = Reply::Bulk(vec![Reply::Int(0), Reply::Int(0), Reply::Int(0)]);
    assert_eq!(parse_move_to_active_reply(&three).err(), Some(ReplyError::InvalidResponse));
    let wrong = Reply::Bulk(vec![data("x"), data("42"), Reply::Int(0), Reply::Int(0)]);
    assert_eq!(parse_move_to_active_reply(&wrong).err(), Some(ReplyError::InvalidResponse));
}
