use crate::model::{Task, TaskError, TaskState, state_of_text};
use crate::store::{
    StoreView, TaskStore, after_add, has_id, ids_unique, index_of, lemma_add_wf,
    lemma_index_of, lemma_remove_wf, lemma_set_state_wf, lemma_update_wf, store_wf, task_views,
    tasks_in_state,
};
use crate::store::document::{json_document, json_records, read_records, write_document};
use crate::store::record::{
    TaskRecord, decoded_tasks, encode_records, lemma_decoded_wf, max_id, record_task,
    record_views, records_decode, store_of_records,
};
use vstd::prelude::*;

verus! {

/// A task store that is kept as a JSON document.
#[derive(Debug)]
pub struct JsonStore {
    store: Vec<Task>,
    last_id: u8,
}

/// The position of the first task with the given id.
fn position_of(tasks: &Vec<Task>, id: u8) -> (r: Option<usize>)
    requires
        ids_unique(task_views(tasks@)),
    ensures
        r is Some <==> has_id(task_views(tasks@), id),
        r matches Some(i) ==> i < tasks@.len() && i == index_of(task_views(tasks@), id),
{
    let ghost views = task_views(tasks@);
    let mut i: usize = 0;
    while i < tasks.len()
        invariant
            views == task_views(tasks@),
            ids_unique(views),
            i <= tasks@.len(),
            forall|j: int| 0 <= j < i ==> views[j].id != id,
        decreases tasks@.len() - i,
    {
        if tasks[i].get_id() == id {
            proof {
                lemma_index_of(views, id, i as int);
            }
            return Some(i);
        }
        i += 1;
    }
    None
}

impl JsonStore {
    /// An empty store whose next id is 1.
    pub fn new() -> (r: JsonStore)
        ensures
            r.store_view() == (StoreView { tasks: Seq::empty(), last_id: 0 }),
            store_wf(r.store_view()),
    {
        let r = JsonStore { store: Vec::new(), last_id: 0 };
        assert(task_views(r.store@) =~= Seq::empty());
        r
    }

    /// Builds a store from decoded records. It fails with `CorruptStore` when a
    /// record has no id, an id of 0 or an unknown state, or when two records share
    /// an id. The last id handed out becomes the largest id found.
    pub fn from_records(records: &Vec<TaskRecord>) -> (r: Result<JsonStore, TaskError>)
        ensures
            r is Ok <==> records_decode(record_views(records@)),
            r matches Ok(s) ==> s.store_view() == store_of_records(record_views(records@))
                && store_wf(s.store_view()),
            r is Err ==> r == Err::<JsonStore, TaskError>(TaskError::CorruptStore),
    {
        let ghost recs = record_views(records@);
        let mut store: Vec<Task> = Vec::new();
        let mut last_id: u8 = 0;
        let mut i: usize = 0;
        while i < records.len()
            invariant
                recs == record_views(records@),
                i <= records@.len(),
                forall|j: int| 0 <= j < i ==> (#[trigger] record_task(recs[j])) is Some,
                task_views(store@) == decoded_tasks(recs.take(i as int)),
                ids_unique(task_views(store@)),
                last_id == max_id(task_views(store@)),
            decreases records@.len() - i,
        {
            let rec = &records[i];
            let ghost prefix = task_views(store@);
            assert(decoded_tasks(recs.take(i + 1)) =~= prefix.push(
                record_task(recs[i as int])->Some_0,
            ));
            let id: u8 = match rec.id {
                Some(id) => id,
                None => {
                    return Err(TaskError::CorruptStore);
                },
            };
            if id == 0 {
                return Err(TaskError::CorruptStore);
            }
            let state = match TaskState::parse(rec.state.as_str()) {
                Ok(st) => st,
                Err(_) => {
                    return Err(TaskError::CorruptStore);
                },
            };
            match position_of(&store, id) {
                Some(k) => {
                    proof {
                        let all = decoded_tasks(recs);
                        assert(all[k as int] == prefix[k as int]);
                        assert(all[i as int].id == id);
                    }
                    return Err(TaskError::CorruptStore);
                },
                None => {},
            }
            let t = Task::new(id, rec.task.clone(), state);
            store.push(t);
            proof {
                let now = task_views(store@);
                assert(now =~= prefix.push(t@));
                assert(now.drop_last() =~= prefix);
                assert forall|a: int, b: int|
                    0 <= a < now.len() && 0 <= b < now.len() && now[a].id == now[b].id implies a
                    == b by {
                    if a < prefix.len() && b == prefix.len() {
                        assert(prefix[a].id == id);
                    }
                    if b < prefix.len() && a == prefix.len() {
                        assert(prefix[b].id == id);
                    }
                }
            }
            if id > last_id {
                last_id = id;
            }
            i += 1;
        }
        assert(recs.take(i as int) =~= recs);
        let r = JsonStore { store, last_id };
        proof {
            lemma_decoded_wf(recs);
        }
        Ok(r)
    }

    /// Reads a store from its JSON document: an array of objects with the keys
    /// `id`, `task` and `state`. A text that is not such an array, or whose records
    /// do not decode, gives `CorruptStore`.
    pub fn from_json(source: &str) -> (r: Result<JsonStore, TaskError>)
        ensures
            r is Ok <==> (json_records(source@) matches Some(recs) && records_decode(recs)),
            r matches Ok(s) ==> s.store_view() == store_of_records(json_records(source@)->Some_0)
                && store_wf(s.store_view()),
            r is Err ==> r == Err::<JsonStore, TaskError>(TaskError::CorruptStore),
    {
        match read_records(source) {
            Some(records) => JsonStore::from_records(&records),
            None => Err(TaskError::CorruptStore),
        }
    }

    /// The store's tasks as records, in order.
    pub fn to_records(&self) -> (r: Vec<TaskRecord>)
        ensures
            record_views(r@) == encode_records(self.store_view().tasks),
    {
        let ghost recs = encode_records(task_views(self.store@));
        let mut out: Vec<TaskRecord> = Vec::new();
        let mut i: usize = 0;
        while i < self.store.len()
            invariant
                recs == encode_records(task_views(self.store@)),
                i <= self.store@.len(),
                record_views(out@) == recs.take(i as int),
            decreases self.store@.len() - i,
        {
            let t = &self.store[i];
            let record = TaskRecord {
                id: Some(t.get_id()),
                task: t.get_task().clone(),
                state: t.get_state().as_string(),
            };
            assert(task_views(self.store@)[i as int] == t@);
            assert(record@ == recs[i as int]);
            let ghost before = out@;
            let ghost rv = record@;
            out.push(record);
            assert(out@ == before.push(record));
            assert(record_views(out@) =~= record_views(before).push(rv));
            assert(recs.take(i + 1) =~= recs.take(i as int).push(rv));
            i += 1;
        }
        assert(recs.take(i as int) =~= recs);
        out
    }

    /// The store's JSON document.
    pub fn to_json(&self) -> (r: String)
        ensures
            r@ == json_document(encode_records(self.store_view().tasks)),
    {
        write_document(&self.to_records())
    }

    /// Adds a task as `add_task` does while an id is left; once id 255 has been
    /// handed out it fails with `IdsExhausted` and leaves the store as it was.
    pub fn try_add_task(&mut self, task: String) -> (r: Result<u8, TaskError>)
        requires
            store_wf(old(self).store_view()),
        ensures
            store_wf(final(self).store_view()),
            old(self).store_view().last_id < 255 ==> r == Ok::<u8, TaskError>(
                (old(self).store_view().last_id + 1) as u8,
            ) && final(self).store_view() == after_add(old(self).store_view(), task@),
            old(self).store_view().last_id == 255 ==> r == Err::<u8, TaskError>(
                TaskError::IdsExhausted,
            ) && final(self).store_view() == old(self).store_view(),
    {
        if self.last_id == 255 {
            Err(TaskError::IdsExhausted)
        } else {
            Ok(self.add_task(task))
        }
    }

    /// The last id handed out.
    pub fn last_id(&self) -> (r: u8)
        ensures
            r == self.store_view().last_id,
    {
        self.last_id
    }
}

impl TaskStore for JsonStore {
    closed spec fn store_view(&self) -> StoreView {
        StoreView { tasks: task_views(self.store@), last_id: self.last_id }
    }

    fn get_tasks(&self, state_filter: Option<TaskState>) -> (r: Vec<Task>) {
        let ghost tasks = task_views(self.store@);
        let mut out: Vec<Task> = Vec::new();
        let mut i: usize = 0;
        while i < self.store.len()
            invariant
                tasks == task_views(self.store@),
                i <= self.store@.len(),
                task_views(out@) == tasks_in_state(tasks.take(i as int), state_filter),
            decreases self.store@.len() - i,
        {
            let t = &self.store[i];
            let keep = match state_filter {
                None => true,
                Some(st) => *t.get_state() == st,
            };
            proof {
                assert(tasks.take(i + 1).drop_last() =~= tasks.take(i as int));
                reveal(Seq::filter);
            }
            if keep {
                out.push(t.duplicate());
            }
            assert(task_views(out@) =~= tasks_in_state(tasks.take(i + 1), state_filter));
            i += 1;
        }
        assert(tasks.take(i as int) =~= tasks);
        out
    }

    fn get_task(&self, id: u8) -> (r: Option<&Task>) {
        match position_of(&self.store, id) {
            Some(i) => Some(&self.store[i]),
            None => None,
        }
    }

    fn add_task(&mut self, task: String) -> (r: u8) {
        proof {
            lemma_add_wf(self.store_view(), task@);
        }
        let id: u8 = self.last_id + 1;
        let t = Task::new(id, task, TaskState::NotStarted);
        let ghost before = self.store@;
        self.store.push(t);
        self.last_id = id;
        assert(task_views(self.store@) =~= task_views(before).push(t@));
        id
    }

    fn set_state(&mut self, id: u8, state: String) -> (r: Result<bool, TaskError>) {
        proof {
            if let Some(st) = state_of_text(state@) {
                lemma_set_state_wf(self.store_view(), id, st);
            }
        }
        match position_of(&self.store, id) {
            Some(i) => {
                let ghost before = self.store@;
                let res = self.store[i].set_state(state);
                assert(task_views(self.store@) =~= task_views(before).update(
                    i as int,
                    self.store@[i as int]@,
                ));
                match res {
                    Ok(()) => Ok(true),
                    Err(e) => {
                        assert(task_views(self.store@) =~= task_views(before));
                        Err(e)
                    },
                }
            },
            None => Ok(false),
        }
    }

    fn update_task(&mut self, id: u8, updated_task: String) -> (r: bool) {
        proof {
            lemma_update_wf(self.store_view(), id, updated_task@);
        }
        match position_of(&self.store, id) {
            Some(i) => {
                let ghost before = self.store@;
                self.store[i].set_task(updated_task);
                assert(task_views(self.store@) =~= task_views(before).update(
                    i as int,
                    self.store@[i as int]@,
                ));
                true
            },
            None => false,
        }
    }

    fn remove_task(&mut self, id: u8) -> (r: bool) {
        proof {
            lemma_remove_wf(self.store_view(), id);
        }
        match position_of(&self.store, id) {
            Some(i) => {
                let ghost before = self.store@;
                self.store.remove(i);
                assert(task_views(self.store@) =~= task_views(before).remove(i as int));
                true
            },
            None => false,
        }
    }
}

} // verus!
