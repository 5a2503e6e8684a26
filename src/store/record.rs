use crate::model::{TaskState, TaskView, lemma_state_text_round_trip, state_of_text, state_text};
use crate::store::{
    StoreView, after_update, has_id, ids_unique, index_of, lemma_index_of, lemma_update_wf,
    store_wf,
};
use vstd::prelude::*;

verus! {

/// One stored task as it is read from a document: the id, if the document
/// holds a usable one, and the task and state texts.
#[derive(Debug)]
pub struct TaskRecord {
    pub id: Option<u8>,
    pub task: String,
    pub state: String,
}

pub struct RecordView {
    pub id: Option<u8>,
    pub task: Seq<char>,
    pub state: Seq<char>,
}

impl View for TaskRecord {
    type V = RecordView;

    open spec fn view(&self) -> RecordView {
        RecordView { id: self.id, task: self.task@, state: self.state@ }
    }
}

pub open spec fn record_views(v: Seq<TaskRecord>) -> Seq<RecordView> {
    v.map_values(|r: TaskRecord| r@)
}

/// The task a record stands for: it needs an id of at least 1 and a known state.
pub open spec fn record_task(r: RecordView) -> Option<TaskView> {
    match (r.id, state_of_text(r.state)) {
        (Some(id), Some(st)) => if id >= 1 {
            Some(TaskView { id, text: r.task, state: st })
        } else {
            None
        },
        _ => None,
    }
}

pub open spec fn decoded_tasks(recs: Seq<RecordView>) -> Seq<TaskView> {
    recs.map_values(|r: RecordView| record_task(r)->Some_0)
}

/// Records decode when each stands for a task and no two share an id.
pub open spec fn records_decode(recs: Seq<RecordView>) -> bool {
    &&& forall|i: int| 0 <= i < recs.len() ==> (#[trigger] record_task(recs[i])) is Some
    &&& ids_unique(decoded_tasks(recs))
}

/// The largest id among the tasks, 0 when there are none.
pub open spec fn max_id(tasks: Seq<TaskView>) -> u8
    decreases tasks.len(),
{
    if tasks.len() == 0 {
        0
    } else {
        let m = max_id(tasks.drop_last());
        if tasks.last().id > m {
            tasks.last().id
        } else {
            m
        }
    }
}

/// The store that decoded records give: their tasks, with the largest id as the last one handed out.
pub open spec fn store_of_records(recs: Seq<RecordView>) -> StoreView {
    let tasks = decoded_tasks(recs);
    StoreView { tasks, last_id: max_id(tasks) }
}

pub open spec fn record_of(t: TaskView) -> RecordView {
    RecordView { id: Some(t.id), task: t.text, state: state_text(t.state) }
}

pub open spec fn encode_records(tasks: Seq<TaskView>) -> Seq<RecordView> {
    tasks.map_values(|t: TaskView| record_of(t))
}

pub proof fn lemma_max_id_bound(tasks: Seq<TaskView>)
    ensures
        forall|i: int| 0 <= i < tasks.len() ==> tasks[i].id <= max_id(tasks),
        tasks.len() > 0 ==> exists|i: int| 0 <= i < tasks.len() && tasks[i].id == max_id(tasks),
    decreases tasks.len(),
{
    if tasks.len() > 0 {
        let d = tasks.drop_last();
        lemma_max_id_bound(d);
        assert forall|i: int| 0 <= i < tasks.len() implies tasks[i].id <= max_id(tasks) by {
            if i < d.len() {
                assert(tasks[i] == d[i]);
            }
        }
        if tasks.last().id <= max_id(d) && d.len() > 0 {
            let j = choose|j: int| 0 <= j < d.len() && d[j].id == max_id(d);
            assert(tasks[j] == d[j]);
        }
    }
}

/// Decoded records always make a well-formed store.
pub proof fn lemma_decoded_wf(recs: Seq<RecordView>)
    requires
        records_decode(recs),
    ensures
        store_wf(store_of_records(recs)),
{
    let tasks = decoded_tasks(recs);
    lemma_max_id_bound(tasks);
    assert forall|i: int| 0 <= i < tasks.len() implies 1 <= #[trigger] tasks[i].id <= max_id(
        tasks,
    ) by {
        assert(record_task(recs[i]) is Some);
    }
}

/// Writing a well-formed store's tasks as records and reading them back gives
/// the same tasks in the same order, with ids, texts and states kept.
pub proof fn lemma_records_round_trip(s: StoreView)
    requires
        store_wf(s),
    ensures
        records_decode(encode_records(s.tasks)),
        decoded_tasks(encode_records(s.tasks)) == s.tasks,
        store_of_records(encode_records(s.tasks)).tasks == s.tasks,
{
    let recs = encode_records(s.tasks);
    assert forall|i: int| 0 <= i < recs.len() implies (#[trigger] record_task(recs[i])) == Some(
        s.tasks[i],
    ) by {
        lemma_state_text_round_trip(s.tasks[i].state);
    }
    assert(decoded_tasks(recs) =~= s.tasks);
}

/// The largest id is kept when a store is read back, so a store whose newest
/// task is still present goes on handing out the same ids after a reload.
pub proof fn lemma_round_trip_keeps_counter(s: StoreView)
    requires
        store_wf(s),
        s.tasks.len() > 0,
        s.tasks.last().id == s.last_id,
    ensures
        store_of_records(encode_records(s.tasks)) == s,
{
    lemma_records_round_trip(s);
    lemma_max_id_bound(s.tasks);
    let j = choose|j: int| 0 <= j < s.tasks.len() && s.tasks[j].id == max_id(s.tasks);
    assert(s.tasks[s.tasks.len() - 1].id <= max_id(s.tasks));
}

/// A new text given to a present task is what the task holds when the store
/// is written out and read back.
pub proof fn lemma_update_persists(s: StoreView, id: u8, text: Seq<char>)
    requires
        store_wf(s),
        has_id(s.tasks, id),
    ensures
        ({
            let back = store_of_records(encode_records(after_update(s, id, text).tasks));
            has_id(back.tasks, id) && back.tasks[index_of(back.tasks, id)].text == text
        }),
{
    let s2 = after_update(s, id, text);
    lemma_update_wf(s, id, text);
    lemma_records_round_trip(s2);
    let k = index_of(s.tasks, id);
    assert(s2.tasks[k].id == id);
    lemma_index_of(s2.tasks, id, k);
}

} // verus!
