//! The decisions of the reverse proxy's event loop: connection ids and the
//! table of running remote downloads. Spawning, cancelling and the database
//! are the caller's.
use std::collections::BTreeMap;
use vstd::prelude::*;

use crate::connection::{full_length, RemoteFileInfo};

verus! {

/// The cache row of a downloaded remote file.
#[derive(Clone, Debug, PartialEq)]
pub struct CacheRow<T> {
    pub key: String,
    pub cache_type: T,
    pub content_length: i64,
    pub content_type: String,
}

/// What finishing a remote file asks of the database, the task manager and
/// the IO loop.
#[derive(Clone, Debug, PartialEq)]
pub struct FinishFile<T> {
    pub row: CacheRow<T>,
    pub cancel: Vec<i64>,
    pub done: String,
}

/// Connection ids wrap around below this bound.
pub const CONNECTION_ID_BOUND: i64 = 65536;

/// A running download of a remote file: the file's key, the handle on its
/// write cursor, where the file ends, and its task id.
pub struct RemoteFileTask<Cursor> {
    pub key: String,
    pub cursor: Cursor,
    pub end: u64,
    pub task_id: i64,
}

/// Where a new download starts writing: the start of its content range, or
/// the beginning of the file.
pub open spec fn download_start(info: RemoteFileInfo) -> u64 {
    match info.content_range {
        Some(cr) => cr.start,
        None => 0,
    }
}

pub fn remote_file_start(info: &RemoteFileInfo) -> (s: u64)
    ensures
        s == download_start(*info),
{
    match &info.content_range {
        Some(cr) => cr.start,
        None => 0,
    }
}

/// The state of the reverse proxy's event loop.
#[verifier::reject_recursive_types(Cursor)]
pub struct ReverseHandler<Cursor> {
    cnn_id: i64,
    tasks: BTreeMap<i64, RemoteFileTask<Cursor>>,
}

impl<Cursor> ReverseHandler<Cursor> {
    pub closed spec fn last_id(&self) -> i64 {
        self.cnn_id
    }

    pub closed spec fn tasks(&self) -> Map<i64, RemoteFileTask<Cursor>> {
        self.tasks@
    }

    pub open spec fn wf(&self) -> bool {
        0 <= self.last_id() < CONNECTION_ID_BOUND
    }

    pub fn new() -> (h: Self)
        ensures
            h.wf(),
            h.last_id() == 0,
            h.tasks() == Map::<i64, RemoteFileTask<Cursor>>::empty(),
    {
        ReverseHandler { cnn_id: 0, tasks: BTreeMap::new() }
    }

    /// The id of a new connection: one more than the last, wrapping to 0 at
    /// `CONNECTION_ID_BOUND`.
    pub fn next_connection_id(&mut self) -> (id: i64)
        requires
            old(self).wf(),
        ensures
            final(self).wf(),
            id == (old(self).last_id() + 1) % (CONNECTION_ID_BOUND as int),
            final(self).last_id() == id,
            final(self).tasks() == old(self).tasks(),
    {
        self.cnn_id = (self.cnn_id + 1) % CONNECTION_ID_BOUND;
        self.cnn_id
    }

    /// Records the download that connection `id` started for file `key`; it
    /// ends where the file ends.
    pub fn add_remote_file(
        &mut self,
        id: i64,
        key: String,
        info: &RemoteFileInfo,
        cursor: Cursor,
        task_id: i64,
    )
        requires
            old(self).wf(),
        ensures
            final(self).wf(),
            final(self).last_id() == old(self).last_id(),
            final(self).tasks() == old(self).tasks().insert(
                id,
                RemoteFileTask { key, cursor, end: full_length(*info), task_id },
            ),
    {
        broadcast use vstd::std_specs::btree::group_btree_axioms;
        let end = info.full();
        self.tasks.insert(id, RemoteFileTask { key, cursor, end, task_id });
    }

    /// Drops the download of connection `id`; returns the task to cancel when
    /// `cancel` is set and there was such a download.
    pub fn remove_task(&mut self, id: i64, cancel: bool) -> (to_cancel: Option<i64>)
        requires
            old(self).wf(),
        ensures
            final(self).wf(),
            final(self).last_id() == old(self).last_id(),
            final(self).tasks() == old(self).tasks().remove(id),
            to_cancel == if cancel && old(self).tasks().contains_key(id) {
                Some(old(self).tasks()[id].task_id)
            } else {
                None
            },
    {
        broadcast use vstd::std_specs::btree::group_btree_axioms;
        let mut to_cancel: Option<i64> = None;
        if cancel {
            if let Some(t) = self.tasks.get(&id) {
                to_cancel = Some(t.task_id);
            }
        }
        self.tasks.remove(&id);
        to_cancel
    }

    /// Drops every download of file `key`; returns their tasks, to cancel.
    pub fn cancel_task_by_key(&mut self, key: &str) -> (to_cancel: Vec<i64>)
        requires
            old(self).wf(),
        ensures
            final(self).wf(),
            final(self).last_id() == old(self).last_id(),
            final(self).tasks() == old(self).tasks().remove_keys(
                keys_of_file(old(self).tasks(), key@),
            ),
            forall|t: i64|
                to_cancel@.contains(t) <==> exists|id: i64|
                    #[trigger] keys_of_file(old(self).tasks(), key@).contains(id)
                        && old(self).tasks()[id].task_id == t,
    {
        broadcast use vstd::std_specs::btree::group_btree_axioms;
        let ghost m = self.tasks@;
        let ghost ks = keys_of_file(m, key@);
        let key_s = key.to_owned();
        let mut to_rm: Vec<i64> = Vec::new();
        let mut to_cancel: Vec<i64> = Vec::new();
        for (k, v) in it: self.tasks.iter()
            invariant
                m == self.tasks@,
                ks == keys_of_file(m, key@),
                key_s@ == key@,
                it.seq().len() == m.dom().len(),
                forall|i: int| 0 <= i < it.seq().len() ==> #[trigger] m.contains_key(*it.seq()[i].0)
                    && m[*it.seq()[i].0] == *it.seq()[i].1,
                forall|kk: i64| #[trigger] m.contains_key(kk) ==> it.seq().contains((&kk, &m[kk])),
                forall|id: i64| #[trigger] to_rm@.contains(id) ==> ks.contains(id),
                forall|id: i64|
                    #[trigger] ks.contains(id) ==> (to_rm@.contains(id) && to_cancel@.contains(
                        m[id].task_id,
                    )) || exists|i: int|
                        it.index() <= i < it.seq().len() && *(#[trigger] it.seq()[i]).0 == id,
                forall|t: i64|
                    #[trigger] to_cancel@.contains(t) ==> exists|id: i64|
                        #[trigger] ks.contains(id) && m[id].task_id == t,
        {
            let id: i64 = *k;
            proof {
                assert(m.contains_key(id));
                assert(*v == m[id]);
            }
            let ghost old_rm = to_rm@;
            let ghost old_cancel = to_cancel@;
            if v.key == key_s {
                to_rm.push(id);
                to_cancel.push(v.task_id);
            }
            proof {
                assert forall|x: i64| #[trigger] to_rm@.contains(x) <==> old_rm.contains(x) || (x == id
                    && ks.contains(id)) by {
                    if to_rm@.len() > old_rm.len() {
                        assert(to_rm@ == old_rm.push(id));
                        if to_rm@.contains(x) && x != id {
                            let j = choose|j: int| 0 <= j < to_rm@.len() && to_rm@[j] == x;
                            assert(old_rm[j] == x);
                        }
                        if old_rm.contains(x) {
                            let j = choose|j: int| 0 <= j < old_rm.len() && old_rm[j] == x;
                            assert(to_rm@[j] == x);
                        }
                        if x == id {
                            assert(to_rm@[old_rm.len() as int] == x);
                        }
                    }
                }
                assert forall|x: i64| #[trigger] to_cancel@.contains(x) <==> old_cancel.contains(x) || (
                x == m[id].task_id && ks.contains(id)) by {
                    if to_cancel@.len() > old_cancel.len() {
                        assert(to_cancel@ == old_cancel.push(m[id].task_id));
                        if to_cancel@.contains(x) && x != m[id].task_id {
                            let j = choose|j: int| 0 <= j < to_cancel@.len() && to_cancel@[j] == x;
                            assert(old_cancel[j] == x);
                        }
                        if old_cancel.contains(x) {
                            let j = choose|j: int| 0 <= j < old_cancel.len() && old_cancel[j] == x;
                            assert(to_cancel@[j] == x);
                        }
                        if x == m[id].task_id {
                            assert(to_cancel@[old_cancel.len() as int] == x);
                        }
                    } else {
                        assert(to_cancel@ == old_cancel);
                    }
                }
            }
        }
        let mut i: usize = 0;
        while i < to_rm.len()
            invariant
                i <= to_rm@.len(),
                0 <= self.cnn_id < CONNECTION_ID_BOUND,
                self.cnn_id == old(self).last_id(),
                self.tasks@ == m.remove_keys(to_rm@.take(i as int).to_set()),
            decreases to_rm@.len() - i,
        {
            let id = to_rm[i];
            self.tasks.remove(&id);
            proof {
                assert(to_rm@.take(i + 1) =~= to_rm@.take(i as int).push(id));
                assert forall|y: i64| #[trigger] to_rm@.take(i + 1).to_set().contains(y)
                    <==> to_rm@.take(i as int).to_set().insert(id).contains(y) by {
                    let a = to_rm@.take(i + 1);
                    let b = to_rm@.take(i as int);
                    if a.contains(y) && y != id {
                        let j = choose|j: int| 0 <= j < a.len() && a[j] == y;
                        assert(b[j] == y);
                    }
                    if b.contains(y) {
                        let j = choose|j: int| 0 <= j < b.len() && b[j] == y;
                        assert(a[j] == y);
                    }
                    if y == id {
                        assert(a[i as int] == y);
                    }
                }
                assert(self.tasks@ =~= m.remove_keys(to_rm@.take(i + 1).to_set()));
            }
            i = i + 1;
        }
        proof {
            assert(to_rm@.take(to_rm@.len() as int) == to_rm@);
            assert(to_rm@.to_set() =~= ks);
            assert forall|t: i64| to_cancel@.contains(t) <==> exists|id: i64|
                #[trigger] ks.contains(id) && m[id].task_id == t by {
                if exists|id: i64| #[trigger] ks.contains(id) && m[id].task_id == t {
                    let id = choose|id: i64| #[trigger] ks.contains(id) && m[id].task_id == t;
                    assert(to_cancel@.contains(m[id].task_id));
                }
            }
        }
        to_cancel
    }

    /// A remote file was fully downloaded: its cache row is to be recorded
    /// (`row`: the key, the cache type, the full length and the content
    /// type), the downloads of the file are dropped and their tasks are to be
    /// cancelled (`cancel`), and the IO loop is then told that the file is
    /// done (`done`, the file's key).
    pub fn finish_file<T>(&mut self, key: String, cache_type: T, info: &RemoteFileInfo) -> (f:
        FinishFile<T>)
        requires
            old(self).wf(),
        ensures
            final(self).wf(),
            f.row.key@ == key@,
            f.row.cache_type == cache_type,
            f.row.content_length == full_length(*info) as i64,
            f.row.content_type@ == info.content_type@,
            f.done@ == key@,
            final(self).last_id() == old(self).last_id(),
            final(self).tasks() == old(self).tasks().remove_keys(
                keys_of_file(old(self).tasks(), key@),
            ),
            forall|t: i64|
                f.cancel@.contains(t) <==> exists|id: i64|
                    #[trigger] keys_of_file(old(self).tasks(), key@).contains(id)
                        && old(self).tasks()[id].task_id == t,
    {
        let full = info.full();
        let row = CacheRow {
            key: key.clone(),
            cache_type,
            content_length: full as i64,
            content_type: info.content_type.clone(),
        };
        let cancel = self.cancel_task_by_key(key.as_str());
        FinishFile { row, cancel, done: key }
    }

    /// Whether connection `id` has a running download; when it has none, the
    /// connection is told so.
    pub fn has_remote_file(&self, id: i64) -> (b: bool)
        ensures
            b == self.tasks().contains_key(id),
    {
        broadcast use vstd::std_specs::btree::group_btree_axioms;
        self.tasks.contains_key(&id)
    }
}

/// The connections whose downloads are of file `key`.
pub open spec fn keys_of_file<Cursor>(m: Map<i64, RemoteFileTask<Cursor>>, key: Seq<char>) -> Set<
    i64,
> {
    Set::new(|id: i64| m.contains_key(id) && m[id].key@ == key)
}

/// After `cancel_task_by_key(key)` no download of `key` is left, and every
/// download of another file is kept as it was.
pub proof fn lemma_cancel_by_key_exact<Cursor>(
    m: Map<i64, RemoteFileTask<Cursor>>,
    key: Seq<char>,
    id: i64,
)
    ensures
        m.remove_keys(keys_of_file(m, key)).contains_key(id) ==> m[id].key@ != key,
        m.contains_key(id) && m[id].key@ != key ==> m.remove_keys(keys_of_file(m, key)).contains_key(
            id,
        ) && m.remove_keys(keys_of_file(m, key))[id] == m[id],
{
}

} // verus!
