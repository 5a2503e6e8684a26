use vstd::prelude::*;

verus! {

/// The errors of the task tracker.
#[derive(PartialEq, Eq, Structural, Debug, Clone, Copy)]
pub enum TaskError {
    /// Malformed command line input: too few arguments or a bad id.
    InvalidArgument,
    /// A state string that names none of the three states.
    InvalidState,
    /// A stored document that does not decode into tasks.
    CorruptStore,
    /// The stored document could not be written.
    Persistence,
    /// Every id from 1 to 255 has been handed out.
    IdsExhausted,
}

/// Where a task stands.
#[derive(PartialEq, Eq, Structural, Debug, Clone, Copy)]
pub enum TaskState {
    NotStarted,
    InProgress,
    Done,
}

/// The text that names a state.
pub open spec fn state_text(s: TaskState) -> Seq<char> {
    match s {
        TaskState::NotStarted => "not-started"@,
        TaskState::InProgress => "in-progress"@,
        TaskState::Done => "done"@,
    }
}

/// The state that a text names, if any: only the exact names are accepted.
pub open spec fn state_of_text(raw: Seq<char>) -> Option<TaskState> {
    if raw == state_text(TaskState::NotStarted) {
        Some(TaskState::NotStarted)
    } else if raw == state_text(TaskState::InProgress) {
        Some(TaskState::InProgress)
    } else if raw == state_text(TaskState::Done) {
        Some(TaskState::Done)
    } else {
        None
    }
}

/// The outcome of parsing a state text.
pub open spec fn parse_state_result(raw: Seq<char>) -> Result<TaskState, TaskError> {
    match state_of_text(raw) {
        Some(s) => Ok(s),
        None => Err(TaskError::InvalidState),
    }
}

/// Every state is named by exactly one text, and that text parses back to it.
pub proof fn lemma_state_text_round_trip(s: TaskState)
    ensures
        state_of_text(state_text(s)) == Some(s),
{
    reveal_strlit("not-started");
    reveal_strlit("in-progress");
    reveal_strlit("done");
    assert("not-started"@[0] != "in-progress"@[0]);
    assert("done"@.len() != "not-started"@.len());
    assert("done"@.len() != "in-progress"@.len());
}

/// A text parses to a state exactly when it is one of the three names.
pub proof fn lemma_parse_state_exact(raw: Seq<char>)
    ensures
        state_of_text(raw) is Some <==> (raw == "not-started"@ || raw == "in-progress"@ || raw
            == "done"@),
        state_of_text(raw) matches Some(s) ==> state_text(s) == raw,
{
}

impl TaskState {
    /// Parses one of `not-started`, `in-progress`, `done`, case-sensitively.
    pub fn parse(raw: &str) -> (r: Result<TaskState, TaskError>)
        ensures
            r == parse_state_result(raw@),
    {
        let value = String::from_str(raw);
        if value == String::from_str("not-started") {
            Ok(TaskState::NotStarted)
        } else if value == String::from_str("in-progress") {
            Ok(TaskState::InProgress)
        } else if value == String::from_str("done") {
            Ok(TaskState::Done)
        } else {
            Err(TaskError::InvalidState)
        }
    }

    /// The name of this state.
    pub fn as_string(&self) -> (r: String)
        ensures
            r@ == state_text(*self),
    {
        match self {
            TaskState::NotStarted => String::from_str("not-started"),
            TaskState::InProgress => String::from_str("in-progress"),
            TaskState::Done => String::from_str("done"),
        }
    }
}

impl From<&TaskState> for String {
    fn from(value: &TaskState) -> (r: String)
        ensures
            r@ == state_text(*value),
    {
        value.as_string()
    }
}

impl vstd::std_specs::convert::FromSpecImpl<&TaskState> for String {
    open spec fn obeys_from_spec() -> bool {
        false
    }

    open spec fn from_spec(v: &TaskState) -> String {
        arbitrary()
    }
}

impl TryFrom<String> for TaskState {
    type Error = TaskError;

    fn try_from(value: String) -> (r: Result<TaskState, TaskError>) {
        TaskState::parse(value.as_str())
    }
}

impl vstd::std_specs::convert::TryFromSpecImpl<String> for TaskState {
    open spec fn obeys_try_from_spec() -> bool {
        true
    }

    open spec fn try_from_spec(v: String) -> Result<TaskState, TaskError> {
        parse_state_result(v@)
    }
}

/// What a task holds.
pub struct TaskView {
    pub id: u8,
    pub text: Seq<char>,
    pub state: TaskState,
}

/// A task: an id fixed at creation, a text and a state.
#[derive(Debug)]
pub struct Task {
    id: u8,
    task: String,
    state: TaskState,
}

impl View for Task {
    type V = TaskView;

    closed spec fn view(&self) -> TaskView {
        TaskView { id: self.id, text: self.task@, state: self.state }
    }
}

impl Task {
    pub fn new(id: u8, task: String, state: TaskState) -> (r: Task)
        ensures
            r@ == (TaskView { id, text: task@, state }),
    {
        Task { id, task, state }
    }

    pub fn get_id(&self) -> (r: u8)
        ensures
            r == self@.id,
    {
        self.id
    }

    pub fn get_task(&self) -> (r: &String)
        ensures
            r@ == self@.text,
    {
        &self.task
    }

    pub fn get_state(&self) -> (r: &TaskState)
        ensures
            *r == self@.state,
    {
        &self.state
    }

    /// Sets the state from its name; an unknown name leaves the task as it was.
    pub fn set_state(&mut self, state: String) -> (r: Result<(), TaskError>)
        ensures
            r is Ok <==> state_of_text(state@) is Some,
            r is Err ==> r == Err::<(), TaskError>(TaskError::InvalidState),
            state_of_text(state@) matches Some(s) ==> final(self)@ == (TaskView {
                state: s,
                ..old(self)@
            }),
            state_of_text(state@) is None ==> final(self)@ == old(self)@,
    {
        match TaskState::parse(state.as_str()) {
            Ok(s) => {
                self.state = s;
                Ok(())
            },
            Err(e) => Err(e),
        }
    }

    pub fn set_task(&mut self, task: String)
        ensures
            final(self)@ == (TaskView { text: task@, ..old(self)@ }),
    {
        self.task = task;
    }

    /// A task with the same id, text and state.
    pub fn duplicate(&self) -> (r: Task)
        ensures
            r@ == self@,
    {
        Task { id: self.id, task: self.task.clone(), state: self.state }
    }
}

} // verus!
