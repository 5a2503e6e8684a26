use task_tracker::model::{Task, TaskError, TaskState};

#[test]
fn test_parse_task_state_not_started_from_string() {
    assert_eq!(
        TaskState::NotStarted,
        TaskState::try_from("not-started".to_string()).unwrap()
    );
}

#[test]
fn test_parse_task_state_in_progress_from_string() {
    assert_eq!(
        TaskState::InProgress,
        TaskState::try_from("in-progress".to_string()).unwrap()
    );
}

#[test]
fn test_parse_task_state_done_from_string() {
    assert_eq!(
        TaskState::Done,
        TaskState::try_from("done".to_string()).unwrap()
    );
}

#[test]
fn parse_invalid_state_is_an_error() {
    assert_eq!(
        TaskState::try_from("invalid".to_string()),
        Err(TaskError::InvalidState)
    );
}

#[test]
fn test_parse_string_not_started_from_task_state() {
    assert_eq!(
        "not-started".to_string(),
        String::from(&TaskState::NotStarted)
    );
}

#[test]
fn test_parse_string_in_progress_from_task_state() {
    assert_eq!(
        "in-progress".to_string(),
        String::from(&TaskState::InProgress)
    );
}

#[test]
fn test_parse_string_done_from_task_state() {
    assert_eq!("done".to_string(), String::from(&TaskState::Done));
}

#[test]
fn state_names_are_exact() {
    for raw in ["Done", " done", "done ", "", "DONE", "not_started", "inprogress"] {
        assert_eq!(TaskState::parse(raw), Err(TaskError::InvalidState));
    }
}

#[test]
fn state_names_round_trip() {
    for st in [TaskState::NotStarted, TaskState::InProgress, TaskState::Done] {
        assert_eq!(TaskState::parse(st.as_string().as_str()), Ok(st));
    }
}

#[test]
fn task_accessors_and_setters() {
    let mut task = Task::new(3, "Buy milk".to_string(), TaskState::NotStarted);
    assert_eq!(task.get_id(), 3);
    assert_eq!(task.get_task(), "Buy milk");
    assert_eq!(*task.get_state(), TaskState::NotStarted);

    assert_eq!(task.set_state("done".to_string()), Ok(()));
    assert_eq!(*task.get_state(), TaskState::Done);

    assert_eq!(task.set_state("Done".to_string()), Err(TaskError::InvalidState));
    assert_eq!(*task.get_state(), TaskState::Done);

    task.set_task("Buy bread".to_string());
    assert_eq!(task.get_task(), "Buy bread");
    assert_eq!(task.get_id(), 3);

    let copy = task.duplicate();
    assert_eq!(copy.get_id(), 3);
    assert_eq!(copy.get_task(), "Buy bread");
    assert_eq!(*copy.get_state(), TaskState::Done);
}
