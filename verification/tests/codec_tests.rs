use citrus::codec::{deserialize_task, serialize_task};
use citrus::store::StoreError;
use citrus::task::{Job, Task};

fn job(name: &str, command: &str) -> Job {
    Job::new(String::from(name), String::from(command))
}

fn task(name: &str, jobs: Vec<Job>) -> Task {
    Task::new(String::from(name), jobs)
}

#[test]
fn serialize_writes_length_prefixed_record() {
    let t = task("build", vec![job("compile", "echo hi")]);
    let s = serialize_task(&t);
    assert_eq!(s, "5:build1;7:compile7:echo hi");
}

#[test]
fn serialize_task_without_jobs() {
    let t = task("idle", vec![]);
    let s = serialize_task(&t);
    assert_eq!(s, "4:idle0;");
}

#[test]
fn round_trip_preserves_name_and_job_order() {
    let t = task(
        "build",
        vec![job("compile", "echo hi"), job("test", "true"), job("pack", "tar -c .")],
    );
    let s = serialize_task(&t);
    let back = deserialize_task(s.as_str()).unwrap();
    assert_eq!(back.name, "build");
    assert_eq!(back.jobs.len(), 3);
    assert_eq!(back.jobs[0].name, "compile");
    assert_eq!(back.jobs[0].command, "echo hi");
    assert_eq!(back.jobs[1].name, "test");
    assert_eq!(back.jobs[1].command, "true");
    assert_eq!(back.jobs[2].name, "pack");
    assert_eq!(back.jobs[2].command, "tar -c .");
}

#[test]
fn round_trip_keeps_delimiter_characters_in_fields() {
    let t = task(
        "odd:name;1",
        vec![job("a;b:c", "echo ;:123"), job("7:", "printf %s\n")],
    );
    let s = serialize_task(&t);
    let back = deserialize_task(s.as_str()).unwrap();
    assert_eq!(back.name, "odd:name;1");
    assert_eq!(back.jobs[0].name, "a;b:c");
    assert_eq!(back.jobs[0].command, "echo ;:123");
    assert_eq!(back.jobs[1].name, "7:");
    assert_eq!(back.jobs[1].command, "printf %s\n");
}

#[test]
fn round_trip_empty_fields() {
    let t = task("", vec![job("", "")]);
    let s = serialize_task(&t);
    assert_eq!(s, "0:1;0:0:");
    let back = deserialize_task(s.as_str()).unwrap();
    assert_eq!(back.name, "");
    assert_eq!(back.jobs.len(), 1);
    assert_eq!(back.jobs[0].name, "");
    assert_eq!(back.jobs[0].command, "");
}

#[test]
fn deserialize_rejects_garbage() {
    assert!(matches!(deserialize_task("hello"), Err(StoreError::Parse)));
    assert!(matches!(deserialize_task(""), Err(StoreError::Parse)));
    assert!(matches!(deserialize_task(":"), Err(StoreError::Parse)));
}

#[test]
fn deserialize_rejects_truncated_record() {
    assert!(matches!(deserialize_task("5:build2;7:compile"), Err(StoreError::Parse)));
    assert!(matches!(deserialize_task("5:bui"), Err(StoreError::Parse)));
}

#[test]
fn deserialize_rejects_trailing_characters() {
    assert!(matches!(deserialize_task("4:idle0;extra"), Err(StoreError::Parse)));
}

#[test]
fn deserialize_rejects_oversized_length() {
    assert!(matches!(deserialize_task("999999999:x0;"), Err(StoreError::Parse)));
}

#[test]
fn decimal_writer_matches_expected_numerals() {
    assert_eq!(citrus::text::u64_to_decimal(0), "0");
    assert_eq!(citrus::text::u64_to_decimal(7), "7");
    assert_eq!(citrus::text::u64_to_decimal(12345), "12345");
    assert_eq!(citrus::text::u64_to_decimal(1000), "1000");
}
