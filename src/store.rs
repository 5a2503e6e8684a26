use crate::model::{Task, TaskError, TaskState, TaskView, state_of_text};
use vstd::prelude::*;

pub mod document;
pub mod json_store;
pub mod record;

verus! {

/// What a store holds: its tasks in order and the last id it handed out.
pub struct StoreView {
    pub tasks: Seq<TaskView>,
    pub last_id: u8,
}

pub open spec fn task_views(v: Seq<Task>) -> Seq<TaskView> {
    v.map_values(|t: Task| t@)
}

pub open spec fn has_id(tasks: Seq<TaskView>, id: u8) -> bool {
    exists|i: int| 0 <= i < tasks.len() && tasks[i].id == id
}

/// The position of the task with the given id (meaningful when there is one).
pub open spec fn index_of(tasks: Seq<TaskView>, id: u8) -> int {
    choose|i: int| 0 <= i < tasks.len() && tasks[i].id == id
}

pub open spec fn ids_unique(tasks: Seq<TaskView>) -> bool {
    forall|i: int, j: int|
        0 <= i < tasks.len() && 0 <= j < tasks.len() && tasks[i].id == tasks[j].id ==> i == j
}

pub open spec fn ids_within(tasks: Seq<TaskView>, last_id: u8) -> bool {
    forall|i: int| 0 <= i < tasks.len() ==> 1 <= #[trigger] tasks[i].id <= last_id
}

/// Ids are unique and none is above the last id handed out.
pub open spec fn store_wf(s: StoreView) -> bool {
    ids_unique(s.tasks) && ids_within(s.tasks, s.last_id)
}

pub open spec fn tasks_in_state(tasks: Seq<TaskView>, filter: Option<TaskState>) -> Seq<TaskView> {
    match filter {
        None => tasks,
        Some(st) => tasks.filter(|t: TaskView| t.state == st),
    }
}

pub open spec fn after_add(s: StoreView, text: Seq<char>) -> StoreView {
    let id = (s.last_id + 1) as u8;
    StoreView {
        tasks: s.tasks.push(TaskView { id, text, state: TaskState::NotStarted }),
        last_id: id,
    }
}

pub open spec fn after_set_state(s: StoreView, id: u8, st: TaskState) -> StoreView {
    if has_id(s.tasks, id) {
        let k = index_of(s.tasks, id);
        StoreView { tasks: s.tasks.update(k, TaskView { state: st, ..s.tasks[k] }), ..s }
    } else {
        s
    }
}

pub open spec fn after_update(s: StoreView, id: u8, text: Seq<char>) -> StoreView {
    if has_id(s.tasks, id) {
        let k = index_of(s.tasks, id);
        StoreView { tasks: s.tasks.update(k, TaskView { text, ..s.tasks[k] }), ..s }
    } else {
        s
    }
}

pub open spec fn after_remove(s: StoreView, id: u8) -> StoreView {
    if has_id(s.tasks, id) {
        StoreView { tasks: s.tasks.remove(index_of(s.tasks, id)), ..s }
    } else {
        s
    }
}

/// With unique ids, the position of an id is the one position that holds it.
pub proof fn lemma_index_of(tasks: Seq<TaskView>, id: u8, i: int)
    requires
        ids_unique(tasks),
        0 <= i < tasks.len(),
        tasks[i].id == id,
    ensures
        has_id(tasks, id),
        index_of(tasks, id) == i,
{
}

pub proof fn lemma_add_wf(s: StoreView, text: Seq<char>)
    requires
        store_wf(s),
        s.last_id < 255,
    ensures
        store_wf(after_add(s, text)),
        !has_id(s.tasks, (s.last_id + 1) as u8),
{
}

pub proof fn lemma_set_state_wf(s: StoreView, id: u8, st: TaskState)
    requires
        store_wf(s),
    ensures
        store_wf(after_set_state(s, id, st)),
{
    if has_id(s.tasks, id) {
        let k = index_of(s.tasks, id);
        assert(0 <= k < s.tasks.len());
    }
}

pub proof fn lemma_update_wf(s: StoreView, id: u8, text: Seq<char>)
    requires
        store_wf(s),
    ensures
        store_wf(after_update(s, id, text)),
{
    if has_id(s.tasks, id) {
        let k = index_of(s.tasks, id);
        assert(0 <= k < s.tasks.len());
    }
}

pub proof fn lemma_remove_wf(s: StoreView, id: u8)
    requires
        store_wf(s),
    ensures
        store_wf(after_remove(s, id)),
{
    if has_id(s.tasks, id) {
        let k = index_of(s.tasks, id);
        assert(0 <= k < s.tasks.len());
        let t = s.tasks.remove(k);
        assert forall|i: int, j: int|
            0 <= i < t.len() && 0 <= j < t.len() && t[i].id == t[j].id implies i == j by {
            let oi = if i < k { i } else { i + 1 };
            let oj = if j < k { j } else { j + 1 };
            assert(t[i] == s.tasks[oi]);
            assert(t[j] == s.tasks[oj]);
        }
        assert forall|i: int| 0 <= i < t.len() implies 1 <= #[trigger] t[i].id <= s.last_id by {
            let oi = if i < k { i } else { i + 1 };
            assert(t[i] == s.tasks[oi]);
        }
    }
}

/// One change to a store, as the store's mutating operations make it.
pub enum Change {
    Add(Seq<char>),
    SetState(u8, TaskState),
    Update(u8, Seq<char>),
    Remove(u8),
}

pub open spec fn apply_change(s: StoreView, c: Change) -> StoreView {
    match c {
        Change::Add(text) => after_add(s, text),
        Change::SetState(id, st) => after_set_state(s, id, st),
        Change::Update(id, text) => after_update(s, id, text),
        Change::Remove(id) => after_remove(s, id),
    }
}

pub open spec fn apply_changes(s: StoreView, cs: Seq<Change>) -> StoreView
    decreases cs.len(),
{
    if cs.len() == 0 {
        s
    } else {
        apply_change(apply_changes(s, cs.drop_last()), cs.last())
    }
}

pub open spec fn count_adds(cs: Seq<Change>) -> nat
    decreases cs.len(),
{
    if cs.len() == 0 {
        0
    } else {
        count_adds(cs.drop_last()) + if cs.last() is Add {
            1nat
        } else {
            0nat
        }
    }
}

/// Ids are handed out one after another and never reused: after any run of
/// changes with `n` additions (removals among them or not), the last id handed
/// out is `n` more than before, the store is still well formed, and the id that
/// the next addition gets is held by no task present.
pub proof fn lemma_ids_in_order(s: StoreView, cs: Seq<Change>)
    requires
        store_wf(s),
        s.last_id + count_adds(cs) <= 255,
    ensures
        store_wf(apply_changes(s, cs)),
        apply_changes(s, cs).last_id == s.last_id + count_adds(cs),
        s.last_id + count_adds(cs) < 255 ==> !has_id(
            apply_changes(s, cs).tasks,
            (s.last_id + count_adds(cs) + 1) as u8,
        ),
    decreases cs.len(),
{
    if cs.len() > 0 {
        lemma_ids_in_order(s, cs.drop_last());
        let prev = apply_changes(s, cs.drop_last());
        match cs.last() {
            Change::Add(text) => lemma_add_wf(prev, text),
            Change::SetState(id, st) => lemma_set_state_wf(prev, id, st),
            Change::Update(id, text) => lemma_update_wf(prev, id, text),
            Change::Remove(id) => lemma_remove_wf(prev, id),
        }
    }
    let last = apply_changes(s, cs);
    if s.last_id + count_adds(cs) < 255 {
        assert forall|i: int| 0 <= i < last.tasks.len() implies last.tasks[i].id != (s.last_id
            + count_adds(cs) + 1) as u8 by {
            assert(last.tasks[i].id <= last.last_id);
        }
    }
}

/// A store of tasks.
pub trait TaskStore {
    spec fn store_view(&self) -> StoreView;

    /// All tasks, or those in the given state, in store order.
    fn get_tasks(&self, state_filter: Option<TaskState>) -> (r: Vec<Task>)
        ensures
            task_views(r@) == tasks_in_state(self.store_view().tasks, state_filter),
    ;

    /// The task with the given id, if there is one.
    fn get_task(&self, id: u8) -> (r: Option<&Task>)
        requires
            store_wf(self.store_view()),
        ensures
            r is Some <==> has_id(self.store_view().tasks, id),
            r matches Some(t) ==> t@ == self.store_view().tasks[index_of(
                self.store_view().tasks,
                id,
            )],
    ;

    /// Appends a new task in state `NotStarted` under the next id, and returns that id.
    fn add_task(&mut self, task: String) -> (r: u8)
        requires
            store_wf(old(self).store_view()),
            old(self).store_view().last_id < 255,
        ensures
            r == old(self).store_view().last_id + 1,
            final(self).store_view() == after_add(old(self).store_view(), task@),
            store_wf(final(self).store_view()),
    ;

    /// Sets the state of the task with the given id from the state's name: `Ok(false)`
    /// when there is no such task, an error when the name is unknown.
    fn set_state(&mut self, id: u8, state: String) -> (r: Result<bool, TaskError>)
        requires
            store_wf(old(self).store_view()),
        ensures
            store_wf(final(self).store_view()),
            !has_id(old(self).store_view().tasks, id) ==> r == Ok::<bool, TaskError>(false)
                && final(self).store_view() == old(self).store_view(),
            has_id(old(self).store_view().tasks, id) && state_of_text(state@) is None ==> r
                == Err::<bool, TaskError>(TaskError::InvalidState) && final(self).store_view()
                == old(self).store_view(),
            has_id(old(self).store_view().tasks, id) && state_of_text(state@) is Some ==> r
                == Ok::<bool, TaskError>(true) && final(self).store_view() == after_set_state(
                old(self).store_view(),
                id,
                state_of_text(state@)->Some_0,
            ),
    ;

    /// Replaces the text of the task with the given id; `false` when there is none.
    fn update_task(&mut self, id: u8, updated_task: String) -> (r: bool)
        requires
            store_wf(old(self).store_view()),
        ensures
            r == has_id(old(self).store_view().tasks, id),
            final(self).store_view() == after_update(old(self).store_view(), id, updated_task@),
            store_wf(final(self).store_view()),
    ;

    /// Removes the task with the given id; `false` when there is none. Ids are not reused.
    fn remove_task(&mut self, id: u8) -> (r: bool)
        requires
            store_wf(old(self).store_view()),
        ensures
            r == has_id(old(self).store_view().tasks, id),
            final(self).store_view() == after_remove(old(self).store_view(), id),
            store_wf(final(self).store_view()),
    ;
}

} // verus!
