//! The task manager's table of running tasks: added when spawned, cancelled
//! through their one-shot sender, dropped when they end.
use std::collections::BTreeMap;
use vstd::prelude::*;

verus! {

/// A running task: its id, its join handle, the sender that cancels it (taken
/// once used) and an optional name.
pub struct Task<H, S> {
    pub id: i64,
    pub handle: H,
    pub sender: Option<S>,
    pub name: Option<String>,
}

/// What the task manager is told.
pub enum TaskManagerEvent<H, S> {
    Add(Task<H, S>),
    Progress,
    Cancel { id: i64 },
    End { id: i64 },
}

/// The table after an event, and the sender to cancel with: an added task
/// is kept by its id; a cancel takes the sender of a known task, which keeps
/// no sender afterwards; an end drops the task.
pub open spec fn handled<H, S>(m: Map<i64, Task<H, S>>, event: TaskManagerEvent<H, S>) -> (
    Map<i64, Task<H, S>>,
    Option<S>,
) {
    match event {
        TaskManagerEvent::Add(task) => (m.insert(task.id, task), None),
        TaskManagerEvent::Progress => (m, None),
        TaskManagerEvent::Cancel { id } => if m.contains_key(id) {
            let t = m[id];
            (m.insert(id, Task { id: t.id, handle: t.handle, sender: None, name: t.name }), t.sender)
        } else {
            (m, None)
        },
        TaskManagerEvent::End { id } => (m.remove(id), None),
    }
}

#[verifier::reject_recursive_types(H)]
#[verifier::reject_recursive_types(S)]
pub struct TaskManager<H, S> {
    tasks: BTreeMap<i64, Task<H, S>>,
}

impl<H, S> TaskManager<H, S> {
    pub closed spec fn tasks(&self) -> Map<i64, Task<H, S>> {
        self.tasks@
    }

    pub fn new() -> (m: Self)
        ensures
            m.tasks() == Map::<i64, Task<H, S>>::empty(),
    {
        TaskManager { tasks: BTreeMap::new() }
    }

    /// Handles one event (the body of `process`); returns the sender to cancel
    /// with, when a cancel found a task that still had one.
    pub fn handle(&mut self, event: TaskManagerEvent<H, S>) -> (cancel: Option<S>)
        ensures
            (final(self).tasks(), cancel) == handled(old(self).tasks(), event),
    {
        broadcast use vstd::std_specs::btree::group_btree_axioms;
        match event {
            TaskManagerEvent::Add(task) => {
                self.tasks.insert(task.id, task);
                None
            },
            TaskManagerEvent::Cancel { id } => {
                match self.tasks.remove(&id) {
                    Some(t) => {
                        let Task { id: tid, handle, sender, name } = t;
                        self.tasks.insert(id, Task { id: tid, handle, sender: None, name });
                        sender
                    },
                    None => None,
                }
            },
            TaskManagerEvent::End { id } => {
                self.tasks.remove(&id);
                None
            },
            TaskManagerEvent::Progress => None,
        }
    }
}

/// A task is cancelled through its sender at most once: a second cancel, or
/// a cancel after the task ended, hands out nothing; events about other
/// tasks leave it as it was.
pub proof fn lemma_cancel_at_most_once<H, S>(m: Map<i64, Task<H, S>>, id: i64, other: i64)
    ensures
        handled(handled(m, TaskManagerEvent::Cancel { id }).0, TaskManagerEvent::Cancel { id }).1
            is None,
        handled(handled(m, TaskManagerEvent::End { id }).0, TaskManagerEvent::Cancel { id }).1
            is None,
        other != id ==> handled(m, TaskManagerEvent::Cancel { id: other }).0.contains_key(id)
            == m.contains_key(id),
        other != id && m.contains_key(id) ==> handled(m, TaskManagerEvent::Cancel { id: other }).0[id]
            == m[id],
{
}

/// The source of task ids: each id is handed out once, in increasing order.
pub struct TaskIds {
    next: i64,
}

impl TaskIds {
    pub closed spec fn next(&self) -> i64 {
        self.next
    }

    pub fn new() -> (t: Self)
        ensures
            t.next() == 0,
    {
        TaskIds { next: 0 }
    }

    /// The id the next call of `gen_id` hands out.
    pub fn peek(&self) -> (n: i64)
        ensures
            n == self.next(),
    {
        self.next
    }

    pub fn gen_id(&mut self) -> (id: i64)
        requires
            old(self).next() < i64::MAX,
        ensures
            id == old(self).next(),
            final(self).next() == old(self).next() + 1,
    {
        let id = self.next;
        self.next = self.next + 1;
        id
    }
}

} // verus!
