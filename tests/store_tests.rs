use task_tracker::model::{TaskError, TaskState};
use task_tracker::store::json_store::JsonStore;
use task_tracker::store::record::TaskRecord;
use task_tracker::store::TaskStore;

fn ids(store: &JsonStore, filter: Option<TaskState>) -> Vec<u8> {
    store.get_tasks(filter).iter().map(|t| t.get_id()).collect()
}

#[test]
fn end_to_end_scenario() {
    let mut store = JsonStore::new();
    assert_eq!(store.add_task("Buy milk".to_string()), 1);
    assert_eq!(*store.get_task(1).unwrap().get_state(), TaskState::NotStarted);
    assert_eq!(store.set_state(1, "in-progress".to_string()), Ok(true));
    assert_eq!(*store.get_task(1).unwrap().get_state(), TaskState::InProgress);
    assert!(store.remove_task(1));
    assert!(store.get_task(1).is_none());
    assert!(!store.remove_task(1));
}

#[test]
fn ids_are_never_reused() {
    let mut store = JsonStore::new();
    assert_eq!(store.add_task("a".to_string()), 1);
    assert_eq!(store.add_task("b".to_string()), 2);
    assert_eq!(store.add_task("c".to_string()), 3);
    assert!(store.remove_task(2));
    assert_eq!(store.add_task("d".to_string()), 4);
    assert_eq!(ids(&store, None), vec![1, 3, 4]);
    assert_eq!(store.last_id(), 4);
}

#[test]
fn filtered_listing_keeps_order() {
    let mut store = JsonStore::new();
    for _ in 0..4 {
        store.add_task("t".to_string());
    }
    assert_eq!(store.set_state(2, "done".to_string()), Ok(true));
    assert_eq!(store.set_state(3, "in-progress".to_string()), Ok(true));
    assert_eq!(store.set_state(4, "done".to_string()), Ok(true));
    assert_eq!(ids(&store, Some(TaskState::Done)), vec![2, 4]);
    assert_eq!(ids(&store, Some(TaskState::NotStarted)), vec![1]);
    assert_eq!(ids(&store, Some(TaskState::InProgress)), vec![3]);
    assert_eq!(ids(&store, None), vec![1, 2, 3, 4]);
}

#[test]
fn lookup_matches_stored_task() {
    let mut store = JsonStore::new();
    store.add_task("first".to_string());
    store.add_task("second".to_string());
    let t = store.get_task(2).unwrap();
    assert_eq!(t.get_id(), 2);
    assert_eq!(t.get_task(), "second");
    assert_eq!(*t.get_state(), TaskState::NotStarted);
    assert!(store.get_task(0).is_none());
    assert!(store.get_task(3).is_none());
}

#[test]
fn missing_ids_change_nothing() {
    let mut store = JsonStore::new();
    store.add_task("only".to_string());
    let before = store.to_json();
    assert_eq!(store.set_state(9, "done".to_string()), Ok(false));
    assert!(!store.update_task(9, "x".to_string()));
    assert!(!store.remove_task(9));
    assert_eq!(store.to_json(), before);
}

#[test]
fn invalid_state_is_an_error_and_changes_nothing() {
    let mut store = JsonStore::new();
    store.add_task("only".to_string());
    assert_eq!(store.set_state(1, "Done".to_string()), Err(TaskError::InvalidState));
    assert_eq!(*store.get_task(1).unwrap().get_state(), TaskState::NotStarted);
}

#[test]
fn document_text_is_exact() {
    let mut store = JsonStore::new();
    assert_eq!(store.to_json(), "[]");
    store.add_task("Buy milk".to_string());
    store.add_task("say \"hi\"".to_string());
    assert_eq!(store.set_state(2, "done".to_string()), Ok(true));
    assert_eq!(
        store.to_json(),
        "[{\"id\":1,\"task\":\"Buy milk\",\"state\":\"not-started\"},\
         {\"id\":2,\"task\":\"say \\\"hi\\\"\",\"state\":\"done\"}]"
    );
}

#[test]
fn round_trip_through_document() {
    let mut store = JsonStore::new();
    store.add_task("a \"quoted\" task".to_string());
    store.add_task("second\nline".to_string());
    store.add_task("third".to_string());
    assert_eq!(store.set_state(3, "in-progress".to_string()), Ok(true));
    assert!(store.remove_task(1));
    let text = store.to_json();
    let back = JsonStore::from_json(&text).unwrap();
    assert_eq!(back.to_json(), text);
    let tasks = back.get_tasks(None);
    assert_eq!(tasks.len(), 2);
    assert_eq!(tasks[0].get_id(), 2);
    assert_eq!(tasks[0].get_task(), "second\nline");
    assert_eq!(*tasks[0].get_state(), TaskState::NotStarted);
    assert_eq!(tasks[1].get_id(), 3);
    assert_eq!(tasks[1].get_task(), "third");
    assert_eq!(*tasks[1].get_state(), TaskState::InProgress);
    assert_eq!(back.last_id(), 3);
}

#[test]
fn update_persists_across_reload() {
    let mut store = JsonStore::new();
    store.add_task("old text".to_string());
    assert!(store.update_task(1, "new text".to_string()));
    let back = JsonStore::from_json(&store.to_json()).unwrap();
    assert_eq!(back.get_task(1).unwrap().get_task(), "new text");
}

#[test]
fn load_sets_counter_to_largest_id() {
    let text = "[{\"id\":5,\"task\":\"a\",\"state\":\"done\"},{\"id\":2,\"task\":\"b\",\"state\":\"not-started\"}]";
    let mut store = JsonStore::from_json(text).unwrap();
    assert_eq!(store.last_id(), 5);
    assert_eq!(store.add_task("c".to_string()), 6);
}

#[test]
fn load_empty_array() {
    let store = JsonStore::from_json("[]").unwrap();
    assert_eq!(store.last_id(), 0);
    assert!(store.get_tasks(None).is_empty());
}

#[test]
fn load_rejects_corrupt_documents() {
    for text in [
        "",
        "not json",
        "{}",
        "5",
        "[{\"task\":\"a\",\"state\":\"done\"}]",
        "[{\"id\":\"1\",\"task\":\"a\",\"state\":\"done\"}]",
        "[{\"id\":300,\"task\":\"a\",\"state\":\"done\"}]",
        "[{\"id\":0,\"task\":\"a\",\"state\":\"done\"}]",
        "[{\"id\":1,\"task\":\"a\"}]",
        "[{\"id\":1,\"task\":\"a\",\"state\":\"Done\"}]",
        "[{\"id\":1,\"task\":\"a\",\"state\":\"done\"},{\"id\":1,\"task\":\"b\",\"state\":\"done\"}]",
    ] {
        assert_eq!(
            JsonStore::from_json(text).map(|s| s.last_id()),
            Err(TaskError::CorruptStore),
            "{text}"
        );
    }
}

fn record(id: Option<u8>, task: &str, state: &str) -> TaskRecord {
    TaskRecord { id, task: task.to_string(), state: state.to_string() }
}

#[test]
fn from_records_exact() {
    let store = JsonStore::from_records(&vec![
        record(Some(4), "x", "in-progress"),
        record(Some(7), "y", "done"),
        record(Some(1), "z", "not-started"),
    ])
    .unwrap();
    assert_eq!(store.last_id(), 7);
    assert_eq!(ids(&store, None), vec![4, 7, 1]);
    assert_eq!(store.get_task(7).unwrap().get_task(), "y");
    assert!(JsonStore::from_records(&vec![record(None, "x", "done")]).is_err());
    assert!(JsonStore::from_records(&vec![record(Some(2), "x", "finished")]).is_err());
}

#[test]
fn records_follow_the_tasks() {
    let mut store = JsonStore::new();
    store.add_task("a".to_string());
    store.add_task("b".to_string());
    assert_eq!(store.set_state(2, "in-progress".to_string()), Ok(true));
    let records = store.to_records();
    assert_eq!(records.len(), 2);
    assert_eq!(records[1].id, Some(2));
    assert_eq!(records[1].task, "b");
    assert_eq!(records[1].state, "in-progress");
    let back = JsonStore::from_records(&records).unwrap();
    assert_eq!(back.to_json(), store.to_json());
}

#[test]
fn load_reads_missing_task_text_as_null() {
    let store = JsonStore::from_json("[{\"id\":1,\"state\":\"done\"}]").unwrap();
    assert_eq!(store.get_task(1).unwrap().get_task(), "null");
}

#[test]
fn ids_run_out_after_255() {
    let mut store = JsonStore::new();
    for expected in 1..=255u8 {
        assert_eq!(store.try_add_task("t".to_string()), Ok(expected));
    }
    assert_eq!(store.try_add_task("one more".to_string()), Err(TaskError::IdsExhausted));
    assert_eq!(store.get_tasks(None).len(), 255);
    assert!(store.remove_task(255));
    assert_eq!(store.try_add_task("still none".to_string()), Err(TaskError::IdsExhausted));
}
