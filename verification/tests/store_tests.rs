use citrus::store::{StoreError, TaskStore};
use citrus::task::Job;

fn job(name: &str, command: &str) -> Job {
    Job::new(String::from(name), String::from(command))
}

#[test]
fn create_then_load_round_trip() {
    let mut store = TaskStore::new();
    store.create_task("build", vec![job("compile", "echo hi"), job("test", "true")]);
    let t = store.load_task("build").unwrap();
    assert_eq!(t.name, "build");
    assert_eq!(t.jobs.len(), 2);
    assert_eq!(t.jobs[0].name, "compile");
    assert_eq!(t.jobs[0].command, "echo hi");
    assert_eq!(t.jobs[1].name, "test");
    assert_eq!(t.jobs[1].command, "true");
}

#[test]
fn create_overwrites_existing_record() {
    let mut store = TaskStore::new();
    store.create_task("task", vec![job("old", "echo old")]);
    store.create_task("task", vec![job("new", "echo new")]);
    let t = store.load_task("task").unwrap();
    assert_eq!(t.jobs.len(), 1);
    assert_eq!(t.jobs[0].name, "new");
}

#[test]
fn delete_missing_fails_not_found() {
    let mut store = TaskStore::new();
    let r = store.delete_task("absent");
    assert_eq!(r, Err(StoreError::NotFound));
}

#[test]
fn delete_then_load_fails_not_found() {
    let mut store = TaskStore::new();
    store.create_task("gone", vec![job("a", "true")]);
    assert!(store.delete_task("gone").is_ok());
    let r = store.load_task("gone");
    assert!(matches!(r, Err(StoreError::NotFound)));
}

#[test]
fn delete_leaves_other_records() {
    let mut store = TaskStore::new();
    store.create_task("one", vec![job("a", "true")]);
    store.create_task("two", vec![job("b", "true")]);
    assert!(store.delete_task("one").is_ok());
    assert!(store.load_task("two").is_ok());
    assert!(store.load_task("one").is_err());
}

#[test]
fn update_replaces_jobs_wholesale() {
    let mut store = TaskStore::new();
    store.create_task("task", vec![job("first", "echo 1"), job("second", "echo 2")]);
    let updated = store
        .update_task("task", vec![job("third", "echo 3")])
        .unwrap();
    assert_eq!(updated.jobs.len(), 1);
    let t = store.load_task("task").unwrap();
    assert_eq!(t.jobs.len(), 1);
    assert_eq!(t.jobs[0].name, "third");
    assert_eq!(t.jobs[0].command, "echo 3");
}

#[test]
fn update_missing_fails_not_found() {
    let mut store = TaskStore::new();
    let r = store.update_task("absent", vec![job("a", "true")]);
    assert!(matches!(r, Err(StoreError::NotFound)));
}

#[test]
fn list_empty_store_is_empty() {
    let store = TaskStore::new();
    let names = store.list_tasks();
    assert!(names.is_empty());
}

#[test]
fn list_returns_created_names() {
    let mut store = TaskStore::new();
    store.create_task("alpha", vec![job("a", "true")]);
    store.create_task("beta", vec![job("b", "true")]);
    let names = store.list_tasks();
    assert_eq!(names.len(), 2);
    assert!(names.iter().any(|n| n == "alpha"));
    assert!(names.iter().any(|n| n == "beta"));
}

#[test]
fn load_missing_fails_not_found() {
    let store = TaskStore::new();
    let r = store.load_task("missing");
    assert!(matches!(r, Err(StoreError::NotFound)));
}

#[test]
fn task_names_from_files_filters_and_strips_extension() {
    let files = vec![
        String::from("build.task"),
        String::from("notes.txt"),
        String::from("deploy.task"),
        String::from(".task"),
        String::from("x"),
    ];
    let names = citrus::store::task_names_from_files(&files);
    assert_eq!(names.len(), 3);
    assert_eq!(names[0], "build");
    assert_eq!(names[1], "deploy");
    assert_eq!(names[2], "");
}

#[test]
fn task_names_from_empty_listing_is_empty() {
    let names = citrus::store::task_names_from_files(&Vec::new());
    assert!(names.is_empty());
}

#[test]
fn contains_reports_membership() {
    let mut store = TaskStore::new();
    assert!(!store.contains("x"));
    store.create_task("x", vec![job("a", "true")]);
    assert!(store.contains("x"));
}
