//! The bookkeeping of the cache's IO thread: the files being written and the
//! pieces they hold, the readers streaming pieces to connections, and the
//! connections waiting for bytes that have not arrived yet. The files
//! themselves are opened, read and written by the caller.
use std::collections::BTreeMap;
use vstd::prelude::*;

use crate::connection::RemoteFileInfo;
use crate::piece::{
    combined, disjoint_from, is_complete, is_floor_key, pieces_wf, piece_end, FileMeta, Piece,
};
use std::path::PathBuf;

verus! {

/// The most bytes a reader sends in one go: 64 KiB.
pub const READ_BUF_SIZE: u64 = 64 * 1024;

/// Where a reader stands: reading, with this many bytes of its piece sent
/// since it last paused; paused until the connection asks for more; or done
/// with its piece.
#[derive(Debug, Clone, Copy, PartialEq, Eq, Structural)]
pub enum ReadState {
    Reading(u64),
    Paused,
    End,
}

/// A connection waiting for byte `start` of file `key` to be written.
pub struct Waiter {
    pub key: String,
    pub start: u64,
}

/// A connection's reader: the piece of file `key` it streams and its state.
pub struct Reader {
    pub key: String,
    pub piece: Piece,
    pub state: ReadState,
}

/// A file being written: its key, its pieces, its remote headers, and how
/// many downloads share it.
pub struct Writer {
    pub key: String,
    pub meta: FileMeta,
    pub remote_info: RemoteFileInfo,
    pub rc: i64,
}

/// The bytes a reader asks the file for next: what is left of its piece since
/// it last paused, at most `READ_BUF_SIZE`.
pub open spec fn read_len_of(piece_length: u64, state: ReadState) -> int {
    let readed = match state {
        ReadState::Reading(o) => o as int,
        _ => 0,
    };
    if piece_length - readed < READ_BUF_SIZE {
        piece_length - readed
    } else {
        READ_BUF_SIZE as int
    }
}

/// A reader after `size > 0` bytes were read: done when its piece is used up;
/// else paused once `READ_BUF_SIZE` bytes were sent since the last pause, the
/// piece then shrinking by what was sent; else still reading.
pub open spec fn after_read(piece: Piece, state: ReadState, size: u64) -> (Piece, ReadState) {
    let readed = (match state {
        ReadState::Reading(o) => o as int,
        _ => 0,
    }) + size;
    if readed == piece.length {
        (piece, ReadState::End)
    } else if readed >= READ_BUF_SIZE {
        (Piece { offset: piece.offset, length: (piece.length - readed) as u64 }, ReadState::Paused)
    } else {
        (piece, ReadState::Reading(readed as u64))
    }
}

/// Whether a waiter is served by a write of `len` bytes at `offset` of `key`.
pub open spec fn waiter_served(w: Waiter, key: Seq<char>, offset: u64, len: u64) -> bool {
    w.key@ == key && offset <= w.start < offset + len
}

/// The waiters that a write of `len` bytes at `offset` of file `key` serves.
pub open spec fn served_ids(waiters: Map<i64, Waiter>, key: Seq<char>, offset: u64, len: u64) -> Set<
    i64,
> {
    Set::new(|id: i64| waiters.contains_key(id) && waiter_served(waiters[id], key, offset, len))
}

/// A reader's piece ends within `u64`, and while reading it has not passed
/// the end of its piece.
pub open spec fn reader_ok(r: Reader) -> bool {
    &&& piece_end(r.piece) <= u64::MAX
    &&& r.state matches ReadState::Reading(o) ==> o <= r.piece.length
}

pub open spec fn readers_ok(m: Map<i64, Reader>) -> bool {
    forall|id: i64| #![trigger m[id]] m.contains_key(id) ==> reader_ok(m[id])
}

pub open spec fn writers_ok(ws: Seq<Writer>) -> bool {
    &&& forall|i: int, j: int|
        0 <= i < j < ws.len() ==> #[trigger] ws[i].key@ != #[trigger] ws[j].key@
    &&& forall|i: int|
        #![trigger ws[i]]
        0 <= i < ws.len() ==> pieces_wf(ws[i].meta.pieces@) && ws[i].rc >= 1
}

proof fn lemma_writers_update(ws: Seq<Writer>, i: int, w: Writer)
    requires
        writers_ok(ws),
        0 <= i < ws.len(),
        w.key@ == ws[i].key@,
        pieces_wf(w.meta.pieces@),
        w.rc >= 1,
    ensures
        writers_ok(ws.update(i, w)),
{
    let n = ws.update(i, w);
    assert forall|a: int, b: int| 0 <= a < b < n.len() implies #[trigger] n[a].key@
        != #[trigger] n[b].key@ by {
        assert(n[a].key@ == ws[a].key@);
        assert(n[b].key@ == ws[b].key@);
    }
}

proof fn lemma_writers_remove(ws: Seq<Writer>, i: int)
    requires
        writers_ok(ws),
        0 <= i < ws.len(),
    ensures
        writers_ok(ws.remove(i)),
{
    let n = ws.remove(i);
    assert forall|a: int, b: int| 0 <= a < b < n.len() implies #[trigger] n[a].key@
        != #[trigger] n[b].key@ by {
        let oa = if a < i {
            a
        } else {
            a + 1
        };
        let ob = if b < i {
            b
        } else {
            b + 1
        };
        assert(n[a] == ws[oa]);
        assert(n[b] == ws[ob]);
    }
    assert forall|a: int| 0 <= a < n.len() implies pieces_wf(#[trigger] n[a].meta.pieces@) && n[a].rc
        >= 1 by {
        let oa = if a < i {
            a
        } else {
            a + 1
        };
        assert(n[a] == ws[oa]);
    }
}

proof fn lemma_writers_push(ws: Seq<Writer>, w: Writer)
    requires
        writers_ok(ws),
        forall|i: int| 0 <= i < ws.len() ==> ws[i].key@ != w.key@,
        pieces_wf(w.meta.pieces@),
        w.rc >= 1,
    ensures
        writers_ok(ws.push(w)),
{
    let n = ws.push(w);
    assert forall|a: int, b: int| 0 <= a < b < n.len() implies #[trigger] n[a].key@
        != #[trigger] n[b].key@ by {
        assert(n[a] == ws[a]);
        if b < ws.len() {
            assert(n[b] == ws[b]);
        }
    }
    assert forall|a: int| 0 <= a < n.len() implies pieces_wf(#[trigger] n[a].meta.pieces@) && n[a].rc
        >= 1 by {
        if a < ws.len() {
            assert(n[a] == ws[a]);
        }
    }
}

/// The piece of a file being written that a read at `cursor` comes from:
/// the piece under the greatest key at most `cursor`, when it reaches past
/// `cursor`.
pub open spec fn piece_at(m: Map<u64, Piece>, cursor: u64) -> Option<Piece> {
    if exists|k: u64| is_floor_key(m, cursor, k) && piece_end(m[k]) > cursor {
        Some(m[choose|k: u64| is_floor_key(m, cursor, k) && piece_end(m[k]) > cursor])
    } else {
        None
    }
}

/// The answer to a read of file `key` from `cursor`: with a writer, the
/// piece at `cursor` when there is one and the file was opened; without
/// one, the rest of the cache file when it was opened.
pub open spec fn read_answer(
    ws: Seq<Writer>,
    key: Seq<char>,
    cursor: u64,
    opened: bool,
    cached_len: Option<u64>,
) -> Option<Piece> {
    match key_index(ws, key) {
        Some(i) => match piece_at(ws[i].meta.pieces@, cursor) {
            Some(p) => if opened {
                Some(p)
            } else {
                None
            },
            None => None,
        },
        None => match cached_len {
            Some(l) => Some(Piece { offset: cursor, length: (l - cursor) as u64 }),
            None => None,
        },
    }
}

proof fn lemma_floor_key_unique(m: Map<u64, Piece>, cursor: u64, a: u64, b: u64)
    requires
        is_floor_key(m, cursor, a),
        is_floor_key(m, cursor, b),
    ensures
        a == b,
{
}

/// Where the writer of `key` is in `ws`, if there is one.
pub open spec fn key_index(ws: Seq<Writer>, key: Seq<char>) -> Option<int> {
    if exists|i: int| 0 <= i < ws.len() && ws[i].key@ == key {
        Some(choose|i: int| 0 <= i < ws.len() && ws[i].key@ == key)
    } else {
        None
    }
}

/// The writers after a download of `key` ended: the writer's count goes
/// down, and a writer that no download shares any more is dropped.
pub open spec fn writers_after_end(ws: Seq<Writer>, key: Seq<char>) -> Seq<Writer> {
    match key_index(ws, key) {
        Some(i) => if ws[i].rc == 1 {
            ws.remove(i)
        } else {
            ws.update(i, with_rc(ws[i], ws[i].rc - 1))
        },
        None => ws,
    }
}

/// The writers after `n` downloads of `key` ended.
pub open spec fn writers_after_ends(ws: Seq<Writer>, key: Seq<char>, n: nat) -> Seq<Writer>
    decreases n,
{
    if n == 0 {
        ws
    } else {
        writers_after_end(writers_after_ends(ws, key, (n - 1) as nat), key)
    }
}

proof fn lemma_key_index_at(ws: Seq<Writer>, key: Seq<char>, i: int)
    requires
        writers_ok(ws),
        0 <= i < ws.len(),
        ws[i].key@ == key,
    ensures
        key_index(ws, key) == Some(i),
{
    let c = choose|j: int| 0 <= j < ws.len() && ws[j].key@ == key;
    assert(0 <= c < ws.len() && ws[c].key@ == key);
    if c < i {
        assert(ws[c].key@ != ws[i].key@);
    } else if i < c {
        assert(ws[i].key@ != ws[c].key@);
    }
}

/// A writer shared by `k` downloads stays until the `k`-th of them ends,
/// with one share fewer at each end, and is gone after it; an end of a file
/// with no writer changes nothing.
pub proof fn lemma_writer_outlives_its_downloads(ws: Seq<Writer>, key: Seq<char>, k: nat, j: nat)
    requires
        writers_ok(ws),
        key_index(ws, key) matches Some(i) && ws[i].rc == k,
        j <= k,
    ensures
        writers_ok(writers_after_ends(ws, key, j)),
        j < k ==> (key_index(writers_after_ends(ws, key, j), key) matches Some(i2)
            && writers_after_ends(ws, key, j)[i2].rc == k - j),
        j == k ==> key_index(writers_after_ends(ws, key, j), key) is None,
        key_index(writers_after_ends(ws, key, k), key) is None ==> writers_after_end(
            writers_after_ends(ws, key, k),
            key,
        ) == writers_after_ends(ws, key, k),
    decreases j,
{
    let i0 = key_index(ws, key)->0;
    assert(0 <= i0 < ws.len() && ws[i0].key@ == key);
    if j > 0 {
        lemma_writer_outlives_its_downloads(ws, key, k, (j - 1) as nat);
        let prev = writers_after_ends(ws, key, (j - 1) as nat);
        let i = key_index(prev, key)->0;
        assert(0 <= i < prev.len() && prev[i].key@ == key);
        assert(prev[i].rc == k - (j - 1));
        if prev[i].rc == 1 {
            lemma_writers_remove(prev, i);
            let n = prev.remove(i);
            if key_index(n, key) is Some {
                let m = key_index(n, key)->0;
                assert(0 <= m < n.len() && n[m].key@ == key);
                if m < i {
                    assert(n[m] == prev[m]);
                    assert(prev[m].key@ != prev[i].key@);
                } else {
                    assert(n[m] == prev[m + 1]);
                    assert(prev[i].key@ != prev[m + 1].key@);
                }
            }
        } else {
            let w = with_rc(prev[i], prev[i].rc - 1);
            lemma_writers_update(prev, i, w);
            let n = prev.update(i, w);
            lemma_key_index_at(n, key, i);
        }
    }
}

/// `w` with its share count set to `rc`.
pub open spec fn with_rc(w: Writer, rc: int) -> Writer {
    Writer { key: w.key, meta: w.meta, remote_info: w.remote_info, rc: rc as i64 }
}

/// Where a reader resumes in its file: the start of its piece plus what it
/// has read of it since it last paused.
pub open spec fn resume_pos(r: Reader) -> int {
    r.piece.offset + match r.state {
        ReadState::Reading(o) => o as int,
        _ => 0,
    }
}

/// Where a piece for a read comes from.
pub enum PieceLookup {
    /// The file is being written; this is the piece holding the cursor, if
    /// one does.
    Writing(Option<Piece>),
    /// No writer: the finished cache file is to be opened.
    NoWriter,
}

/// The pieces of a file after a write of `p`: merged in when it is new
/// (non-empty and overlapping nothing written), else unchanged.
pub open spec fn pieces_after_write(m: Map<u64, Piece>, p: Piece) -> Map<u64, Piece> {
    if p.length > 0 && disjoint_from(m, p) {
        combined(m, p)
    } else {
        m
    }
}

/// What a write did.
pub struct WriteOutcome {
    /// Whether a writer for the file exists; nothing happens otherwise.
    pub known: bool,
    /// Whether the bytes are new and are to be written to the file.
    pub write: bool,
    /// The connections to answer, with the byte each waited for.
    pub notify: Vec<(i64, u64)>,
    /// The writer, removed, when the file became complete.
    pub finished: Option<Writer>,
}

/// The IO state. Writers are kept in a vector with at most one writer per
/// key (a map keyed by `String` cannot be reasoned about here).
pub struct IoContext {
    writers: Vec<Writer>,
    readers: BTreeMap<i64, Reader>,
    waiters: BTreeMap<i64, Waiter>,
}

impl IoContext {
    pub closed spec fn writers(&self) -> Seq<Writer> {
        self.writers@
    }

    pub closed spec fn readers(&self) -> Map<i64, Reader> {
        self.readers@
    }

    pub closed spec fn waiters(&self) -> Map<i64, Waiter> {
        self.waiters@
    }

    /// No two writers share a key, every writer's pieces are well-formed, and
    /// every writer is shared at least once; every reader's piece ends within
    /// `u64` and a reading reader has not passed the end of its piece.
    pub open spec fn wf(&self) -> bool {
        readers_ok(self.readers()) && writers_ok(self.writers())
    }

    /// The position of the writer of `key`, if there is one.
    pub open spec fn writer_index(&self, key: Seq<char>) -> Option<int> {
        key_index(self.writers(), key)
    }

    pub fn new() -> (c: Self)
        ensures
            c.wf(),
            c.writers() == Seq::<Writer>::empty(),
            c.readers() == Map::<i64, Reader>::empty(),
            c.waiters() == Map::<i64, Waiter>::empty(),
    {
        IoContext {
            writers: Vec::new(),
            readers: BTreeMap::new(),
            waiters: BTreeMap::new(),
        }
    }

    pub fn add_waiter(&mut self, id: i64, key: &str, start: u64)
        requires
            old(self).wf(),
        ensures
            final(self).wf(),
            final(self).waiters().contains_key(id),
            final(self).waiters()[id].key@ == key@,
            final(self).waiters()[id].start == start,
            final(self).waiters().remove(id) == old(self).waiters().remove(id),
            final(self).readers() == old(self).readers(),
            final(self).writers() == old(self).writers(),
    {
        broadcast use vstd::std_specs::btree::group_btree_axioms;
        self.waiters.insert(id, Waiter { key: key.to_owned(), start });
    }

    /// The position of the writer of `key`.
    pub fn find_writer(&self, key: &str) -> (r: Option<usize>)
        requires
            self.wf(),
        ensures
            match r {
                Some(i) => self.writer_index(key@) == Some(i as int),
                None => self.writer_index(key@) is None,
            },
    {
        let key_s = key.to_owned();
        let mut i: usize = 0;
        while i < self.writers.len()
            invariant
                self.wf(),
                key_s@ == key@,
                i <= self.writers@.len(),
                forall|j: int| 0 <= j < i ==> self.writers@[j].key@ != key@,
            decreases self.writers@.len() - i,
        {
            if self.writers[i].key == key_s {
                proof {
                    assert(exists|j: int| 0 <= j < self.writers().len() && self.writers()[j].key@ == key@);
                    let c = choose|j: int| 0 <= j < self.writers().len() && self.writers()[j].key@ == key@;
                    if c != i {
                        if c < i {
                            assert(self.writers()[c].key@ != self.writers()[i as int].key@);
                        } else {
                            assert(self.writers()[i as int].key@ != self.writers()[c].key@);
                        }
                    }
                }
                return Some(i);
            }
            i = i + 1;
        }
        None
    }

    pub fn has_writer(&self, key: &str) -> (b: bool)
        requires
            self.wf(),
        ensures
            b == self.writer_index(key@) is Some,
    {
        self.find_writer(key).is_some()
    }

    /// Another download shares the writer of `key`: its count goes up.
    /// Returns whether there was such a writer.
    pub fn add_writer_ref(&mut self, key: &str) -> (existed: bool)
        requires
            old(self).wf(),
            old(self).writer_index(key@) matches Some(i) ==> old(self).writers()[i].rc < i64::MAX,
        ensures
            final(self).wf(),
            existed == old(self).writer_index(key@) is Some,
            match old(self).writer_index(key@) {
                Some(i) => final(self).writers() == old(self).writers().update(
                    i,
                    with_rc(old(self).writers()[i], old(self).writers()[i].rc + 1),
                ),
                None => final(self).writers() == old(self).writers(),
            },
            final(self).readers() == old(self).readers(),
            final(self).waiters() == old(self).waiters(),
    {
        match self.find_writer(key) {
            Some(i) => {
                let mut w = self.writers.remove(i);
                w.rc = w.rc + 1;
                self.writers.insert(i, w);
                proof {
                    assert(self.writers() =~= old(self).writers().update(
                        i as int,
                        with_rc(old(self).writers()[i as int], old(self).writers()[i as int].rc + 1),
                    ));
                    lemma_writers_update(
                        old(self).writers(),
                        i as int,
                        with_rc(old(self).writers()[i as int], old(self).writers()[i as int].rc + 1),
                    );
                }
                true
            },
            None => false,
        }
    }

    /// Registers a new writer for `key`, shared once, with no pieces yet (the
    /// caller has created its file at `path`).
    pub fn insert_writer(&mut self, key: &str, path: PathBuf, len: u64, remote_info: RemoteFileInfo)
        requires
            old(self).wf(),
            old(self).writer_index(key@) is None,
        ensures
            final(self).wf(),
            final(self).writers().len() == old(self).writers().len() + 1,
            final(self).writers().drop_last() == old(self).writers(),
            final(self).writers().last().key@ == key@,
            final(self).writers().last().meta.pieces@ == Map::<u64, Piece>::empty(),
            final(self).writers().last().meta.len == len,
            final(self).writers().last().meta.path == path,
            final(self).writers().last().remote_info == remote_info,
            final(self).writers().last().rc == 1,
            final(self).readers() == old(self).readers(),
            final(self).waiters() == old(self).waiters(),
    {
        broadcast use vstd::std_specs::btree::group_btree_axioms;
        let ghost ws = self.writers@;
        let w = Writer {
            key: key.to_owned(),
            meta: FileMeta { path, len, pieces: BTreeMap::new() },
            remote_info,
            rc: 1,
        };
        self.writers.push(w);
        proof {
            assert(self.writers().drop_last() =~= old(self).writers());
            lemma_writers_push(old(self).writers(), w);
            assert(self.writers() =~= old(self).writers().push(w));
        }
    }

    /// A download of `key` ended: the writer's count goes down and the writer
    /// is dropped when no download shares it any more.
    pub fn end_writer(&mut self, key: &str)
        requires
            old(self).wf(),
        ensures
            final(self).wf(),
            final(self).writers() == writers_after_end(old(self).writers(), key@),
            match old(self).writer_index(key@) {
                Some(i) => if old(self).writers()[i].rc == 1 {
                    final(self).writers() == old(self).writers().remove(i)
                } else {
                    final(self).writers() == old(self).writers().update(
                        i,
                        with_rc(old(self).writers()[i], old(self).writers()[i].rc - 1),
                    )
                },
                None => final(self).writers() == old(self).writers(),
            },
            final(self).readers() == old(self).readers(),
            final(self).waiters() == old(self).waiters(),
    {
        if let Some(i) = self.find_writer(key) {
            let mut w = self.writers.remove(i);
            w.rc = w.rc - 1;
            if w.rc != 0 {
                self.writers.insert(i, w);
                proof {
                    assert(self.writers() =~= old(self).writers().update(
                        i as int,
                        with_rc(old(self).writers()[i as int], old(self).writers()[i as int].rc - 1),
                    ));
                    lemma_writers_update(
                        old(self).writers(),
                        i as int,
                        with_rc(old(self).writers()[i as int], old(self).writers()[i as int].rc - 1),
                    );
                }
            } else {
                proof {
                    lemma_writers_remove(old(self).writers(), i as int);
                }
            }
        }
    }

    /// Sets a reader's state; returns whether there is such a reader.
    pub fn set_reader_state(&mut self, id: i64, state: ReadState) -> (found: bool)
        requires
            old(self).wf(),
            old(self).readers().contains_key(id) ==> (state matches ReadState::Reading(o) ==> o
                <= old(self).readers()[id].piece.length),
        ensures
            final(self).wf(),
            found == old(self).readers().contains_key(id),
            found ==> final(self).readers() == old(self).readers().insert(
                id,
                Reader {
                    key: old(self).readers()[id].key,
                    piece: old(self).readers()[id].piece,
                    state,
                },
            ),
            !found ==> final(self).readers() == old(self).readers(),
            final(self).writers() == old(self).writers(),
            final(self).waiters() == old(self).waiters(),
    {
        broadcast use vstd::std_specs::btree::group_btree_axioms;
        match self.readers.remove(&id) {
            Some(mut r) => {
                r.state = state;
                self.readers.insert(id, r);
                proof {
                    assert(self.readers() =~= old(self).readers().insert(
                        id,
                        Reader {
                            key: old(self).readers()[id].key,
                            piece: old(self).readers()[id].piece,
                            state,
                        },
                    ));
                }
                true
            },
            None => false,
        }
    }

    /// A connection ended: its reader and its waiter are dropped.
    pub fn end(&mut self, id: i64)
        requires
            old(self).wf(),
        ensures
            final(self).wf(),
            final(self).readers() == old(self).readers().remove(id),
            final(self).waiters() == old(self).waiters().remove(id),
            final(self).writers() == old(self).writers(),
    {
        broadcast use vstd::std_specs::btree::group_btree_axioms;
        self.readers.remove(&id);
        self.waiters.remove(&id);
    }

    /// Points a connection's reader at `piece`, from its start: a known
    /// reader keeps its key, a new one is made for `key`.
    pub fn start_reader(&mut self, id: i64, key: &str, piece: Piece)
        requires
            old(self).wf(),
            piece.offset + piece.length <= u64::MAX,
        ensures
            final(self).wf(),
            final(self).readers().contains_key(id),
            final(self).readers()[id].piece == piece,
            final(self).readers()[id].state == ReadState::Reading(0),
            final(self).readers()[id].key@ == if old(self).readers().contains_key(id) {
                old(self).readers()[id].key@
            } else {
                key@
            },
            final(self).readers().remove(id) == old(self).readers().remove(id),
            final(self).writers() == old(self).writers(),
            final(self).waiters() == old(self).waiters(),
    {
        broadcast use vstd::std_specs::btree::group_btree_axioms;
        let r = match self.readers.remove(&id) {
            Some(old_reader) => Reader { key: old_reader.key, piece, state: ReadState::Reading(0) },
            None => Reader { key: key.to_owned(), piece, state: ReadState::Reading(0) },
        };
        self.readers.insert(id, r);
        proof {
            assert(self.readers().remove(id) =~= old(self).readers().remove(id));
        }
    }

    /// Points connection `id` at the finished cache file of `key`, `len`
    /// bytes long, from `cursor` to its end: the reader is made anew.
    pub fn start_cached_reader(&mut self, id: i64, key: &str, cursor: u64, len: u64) -> (p: Piece)
        requires
            old(self).wf(),
            cursor <= len,
        ensures
            final(self).wf(),
            p == (Piece { offset: cursor, length: (len - cursor) as u64 }),
            final(self).readers() == old(self).readers().insert(
                id,
                Reader { key: final(self).readers()[id].key, piece: p, state: ReadState::Reading(0) },
            ),
            final(self).readers()[id].key@ == key@,
            final(self).writers() == old(self).writers(),
            final(self).waiters() == old(self).waiters(),
    {
        broadcast use vstd::std_specs::btree::group_btree_axioms;
        let piece = Piece { offset: cursor, length: len - cursor };
        self.readers.insert(
            id,
            Reader { key: key.to_owned(), piece, state: ReadState::Reading(0) },
        );
        Piece { offset: cursor, length: len - cursor }
    }

    /// The connections whose readers are reading.
    pub fn reading_ids(&self) -> (ids: Vec<i64>)
        requires
            self.wf(),
        ensures
            forall|id: i64|
                ids@.contains(id) <==> self.readers().contains_key(id) && self.readers()[id].state
                    is Reading,
    {
        broadcast use vstd::std_specs::btree::group_btree_axioms;
        let ghost m = self.readers@;
        let mut ids: Vec<i64> = Vec::new();
        for (k, v) in it: self.readers.iter()
            invariant
                m == self.readers@,
                it.seq().len() == m.dom().len(),
                forall|i: int| 0 <= i < it.seq().len() ==> #[trigger] m.contains_key(*it.seq()[i].0)
                    && m[*it.seq()[i].0] == *it.seq()[i].1,
                forall|key: i64| #[trigger] m.contains_key(key) ==> it.seq().contains((&key, &m[key])),
                forall|id: i64|
                    #[trigger] ids@.contains(id) ==> m.contains_key(id) && m[id].state is Reading,
                forall|id: i64|
                    #[trigger] m.contains_key(id) && m[id].state is Reading ==> ids@.contains(id)
                        || exists|i: int|
                        it.index() <= i < it.seq().len() && *(#[trigger] it.seq()[i]).0 == id,
        {
            let id: i64 = *k;
            proof {
                assert(m.contains_key(id));
                assert(*v == m[id]);
            }
            let ghost old_ids = ids@;
            if let ReadState::Reading(_) = v.state {
                ids.push(id);
            }
            proof {
                assert forall|x: i64| #[trigger] ids@.contains(x) <==> old_ids.contains(x) || (x == id
                    && m[id].state is Reading) by {
                    if ids@.len() > old_ids.len() {
                        assert(ids@ == old_ids.push(id));
                        if ids@.contains(x) && x != id {
                            let j = choose|j: int| 0 <= j < ids@.len() && ids@[j] == x;
                            assert(old_ids[j] == x);
                        }
                        if old_ids.contains(x) {
                            let j = choose|j: int| 0 <= j < old_ids.len() && old_ids[j] == x;
                            assert(ids@[j] == x);
                        }
                        if x == id {
                            assert(ids@[old_ids.len() as int] == x);
                        }
                    }
                }
            }
        }
        ids
    }

    /// How many readers are reading.
    pub fn reading_count(&self) -> (n: u64)
        requires
            self.wf(),
        ensures
            n == self.readers().dom().filter(|id: i64| self.readers()[id].state is Reading).len(),
    {
        broadcast use vstd::std_specs::btree::group_btree_axioms;
        let ghost m = self.readers@;
        let ghost target = m.dom().filter(|id: i64| m[id].state is Reading);
        let ghost mut counted: Set<i64> = Set::empty();
        let total = self.readers.len();
        let mut out: u64 = 0;
        for (k, v) in it: self.readers.iter()
            invariant
                m == self.readers@,
                target == m.dom().filter(|id: i64| m[id].state is Reading),
                m.dom().finite(),
                m.dom().len() == total,
                it.seq().len() == m.dom().len(),
                it.seq().no_duplicates(),
                forall|i: int| 0 <= i < it.seq().len() ==> #[trigger] m.contains_key(*it.seq()[i].0)
                    && m[*it.seq()[i].0] == *it.seq()[i].1,
                forall|key: i64| #[trigger] m.contains_key(key) ==> it.seq().contains((&key, &m[key])),
                counted.finite(),
                out == counted.len(),
                counted.subset_of(target),
                forall|id: i64|
                    #[trigger] target.contains(id) ==> counted.contains(id) || exists|i: int|
                        it.index() <= i < it.seq().len() && *(#[trigger] it.seq()[i]).0 == id,
                forall|id: i64|
                    #[trigger] counted.contains(id) ==> exists|i: int|
                        0 <= i < it.index() && *(#[trigger] it.seq()[i]).0 == id,
        {
            let id: i64 = *k;
            proof {
                assert(m.contains_key(id));
                assert(!counted.contains(id)) by {
                    if counted.contains(id) {
                        let j = choose|j: int| 0 <= j < it.index() && *it.seq()[j].0 == id;
                        assert(it.seq()[j] == it.seq()[it.index() as int]);
                    }
                }
                vstd::set_lib::lemma_len_subset(counted, target);
                vstd::set_lib::lemma_len_subset(target, m.dom());
            }
            proof {
                assert(*v == m[id]);
            }
            if let ReadState::Reading(_) = v.state {
                proof {
                    assert(target.contains(id));
                    vstd::set_lib::lemma_len_subset(counted.insert(id), target);
                }
                out = out + 1;
                proof {
                    counted = counted.insert(id);
                }
            }
        }
        proof {
            assert(counted =~= target);
        }
        out
    }

    /// How many bytes a reading reader asks its file for next.
    pub fn read_len(&self, id: i64) -> (n: u64)
        requires
            self.wf(),
            self.readers().contains_key(id),
            self.readers()[id].state is Reading,
        ensures
            n == read_len_of(self.readers()[id].piece.length, self.readers()[id].state),
    {
        broadcast use vstd::std_specs::btree::group_btree_axioms;
        let r = self.readers.get(&id).unwrap();
        let readed = match r.state {
            ReadState::Reading(o) => o,
            _ => 0,
        };
        proof {
            assert(reader_ok(self.readers()[id]));
        }
        let left = r.piece.length - readed;
        if left < READ_BUF_SIZE {
            left
        } else {
            READ_BUF_SIZE
        }
    }

    /// Records that a reading reader read `size > 0` bytes; returns its new
    /// state.
    pub fn finish_read(&mut self, id: i64, size: u64) -> (state: ReadState)
        requires
            old(self).wf(),
            old(self).readers().contains_key(id),
            old(self).readers()[id].state is Reading,
            0 < size <= read_len_of(
                old(self).readers()[id].piece.length,
                old(self).readers()[id].state,
            ),
        ensures
            final(self).wf(),
            ({
                let r = old(self).readers()[id];
                let (piece, st) = after_read(r.piece, r.state, size);
                &&& state == st
                &&& final(self).readers() == old(self).readers().insert(
                    id,
                    Reader { key: r.key, piece, state: st },
                )
            }),
            state is Reading ==> resume_pos(final(self).readers()[id]) == resume_pos(
                old(self).readers()[id],
            ) + size,
            final(self).writers() == old(self).writers(),
            final(self).waiters() == old(self).waiters(),
    {
        broadcast use vstd::std_specs::btree::group_btree_axioms;
        let r = self.readers.remove(&id).unwrap();
        proof {
            assert(reader_ok(old(self).readers()[id]));
        }
        let readed = match r.state {
            ReadState::Reading(o) => o,
            _ => 0,
        } + size;
        let (piece, state) = if readed == r.piece.length {
            (r.piece, ReadState::End)
        } else if readed >= READ_BUF_SIZE {
            (Piece { offset: r.piece.offset, length: r.piece.length - readed }, ReadState::Paused)
        } else {
            (r.piece, ReadState::Reading(readed))
        };
        self.readers.insert(id, Reader { key: r.key, piece, state });
        proof {
            assert(self.readers() =~= old(self).readers().insert(
                id,
                Reader { key: old(self).readers()[id].key, piece, state },
            ));
        }
        state
    }

    /// The piece to read from at `cursor` of file `key`, as `get_piece` finds
    /// it before it opens any file.
    pub fn lookup_piece(&self, key: &str, cursor: u64) -> (r: PieceLookup)
        requires
            self.wf(),
        ensures
            match self.writer_index(key@) {
                None => r is NoWriter,
                Some(i) => match r {
                    PieceLookup::Writing(res) => {
                        let m = self.writers()[i].meta.pieces@;
                        &&& (res is Some <==> exists|k: u64|
                            crate::piece::is_floor_key(m, cursor, k) && piece_end(m[k]) > cursor)
                        &&& (res matches Some(q) ==> exists|k: u64|
                            crate::piece::is_floor_key(m, cursor, k) && q == m[k])
                    },
                    PieceLookup::NoWriter => false,
                },
            },
    {
        match self.find_writer(key) {
            Some(i) => {
                proof {
                    assert(pieces_wf(self.writers()[i as int].meta.pieces@));
                }
                PieceLookup::Writing(self.writers[i].meta.longest_piece(cursor))
            },
            None => PieceLookup::NoWriter,
        }
    }

    /// A connection asks to read file `key` from `cursor` (the request-read
    /// step of the IO loop); it is answered exactly once, with the piece it
    /// is to read or with none. A file being written serves the piece that
    /// holds `cursor`, once the caller opened the file for the reader
    /// (`opened`); a file with no writer serves its finished cache file,
    /// `cached_len` bytes long when the caller could open it. A connection
    /// answered with a piece reads it from its start; one answered with none
    /// waits for `cursor` to be written.
    pub fn request_read(
        &mut self,
        id: i64,
        key: &str,
        cursor: u64,
        opened: bool,
        cached_len: Option<u64>,
    ) -> (answer: Option<Piece>)
        requires
            old(self).wf(),
            old(self).writer_index(key@) is None ==> (cached_len matches Some(l) ==> cursor <= l),
        ensures
            final(self).wf(),
            answer == read_answer(old(self).writers(), key@, cursor, opened, cached_len),
            final(self).writers() == old(self).writers(),
            match answer {
                Some(p) => {
                    &&& final(self).readers().contains_key(id)
                    &&& final(self).readers()[id].piece == p
                    &&& final(self).readers()[id].state == ReadState::Reading(0)
                    &&& final(self).readers()[id].key@ == if old(self).writer_index(key@) is Some
                        && old(self).readers().contains_key(id) {
                        old(self).readers()[id].key@
                    } else {
                        key@
                    }
                    &&& final(self).readers().remove(id) == old(self).readers().remove(id)
                    &&& final(self).waiters() == old(self).waiters()
                },
                None => {
                    &&& final(self).readers() == old(self).readers()
                    &&& final(self).waiters().contains_key(id)
                    &&& final(self).waiters()[id].key@ == key@
                    &&& final(self).waiters()[id].start == cursor
                    &&& final(self).waiters().remove(id) == old(self).waiters().remove(id)
                },
            },
    {
        let ghost ws = self.writers();
        let answer = match self.lookup_piece(key, cursor) {
            PieceLookup::Writing(found) => {
                proof {
                    let i = self.writer_index(key@)->0;
                    let m = ws[i].meta.pieces@;
                    if found is Some {
                        let q = found->0;
                        let k = choose|k: u64| is_floor_key(m, cursor, k) && q == m[k];
                        let c = choose|k: u64|
                            is_floor_key(m, cursor, k) && piece_end(m[k]) > cursor;
                        lemma_floor_key_unique(m, cursor, k, c);
                    }
                }
                match found {
                    Some(p) => {
                        if opened {
                            proof {
                                let i = self.writer_index(key@)->0;
                                assert(pieces_wf(ws[i].meta.pieces@));
                                assert(ws[i].meta.pieces@.contains_key(p.offset));
                            }
                            let q = Piece { offset: p.offset, length: p.length };
                            self.start_reader(id, key, p);
                            Some(q)
                        } else {
                            None
                        }
                    },
                    None => None,
                }
            },
            PieceLookup::NoWriter => match cached_len {
                Some(len) => Some(self.start_cached_reader(id, key, cursor, len)),
                None => None,
            },
        };
        if answer.is_none() {
            self.add_waiter(id, key, cursor);
        }
        answer
    }

    /// The readers of file `key`, each with the position where it resumes.
    pub fn readers_of(&self, key: &str) -> (res: Vec<(i64, u64)>)
        requires
            self.wf(),
        ensures
            forall|id: i64, pos: u64|
                res@.contains((id, pos)) <==> self.readers().contains_key(id)
                    && self.readers()[id].key@ == key@ && pos == resume_pos(self.readers()[id]),
            forall|id: i64, pos: u64|
                #![trigger res@.contains((id, pos))]
                res@.contains((id, pos)) && self.readers()[id].state is Reading ==> pos
                    == self.readers()[id].piece.offset + self.readers()[id].state->Reading_0,
            forall|id: i64, pos: u64|
                #![trigger res@.contains((id, pos))]
                res@.contains((id, pos)) && !(self.readers()[id].state is Reading) ==> pos
                    == self.readers()[id].piece.offset,
    {
        broadcast use vstd::std_specs::btree::group_btree_axioms;
        let ghost m = self.readers@;
        let key_s = key.to_owned();
        let mut res: Vec<(i64, u64)> = Vec::new();
        for (k, v) in it: self.readers.iter()
            invariant
                m == self.readers@,
                readers_ok(m),
                key_s@ == key@,
                it.seq().len() == m.dom().len(),
                forall|i: int| 0 <= i < it.seq().len() ==> #[trigger] m.contains_key(*it.seq()[i].0)
                    && m[*it.seq()[i].0] == *it.seq()[i].1,
                forall|kk: i64| #[trigger] m.contains_key(kk) ==> it.seq().contains((&kk, &m[kk])),
                forall|id: i64, pos: u64|
                    #[trigger] res@.contains((id, pos)) ==> m.contains_key(id) && m[id].key@ == key@
                        && pos == resume_pos(m[id]),
                forall|id: i64|
                    #[trigger] m.contains_key(id) && m[id].key@ == key@ ==> res@.contains(
                        (id, resume_pos(m[id]) as u64),
                    ) || exists|i: int|
                        it.index() <= i < it.seq().len() && *(#[trigger] it.seq()[i]).0 == id,
        {
            let id: i64 = *k;
            proof {
                assert(m.contains_key(id));
                assert(*v == m[id]);
                assert(reader_ok(m[id]));
            }
            let ghost old_res = res@;
            if v.key == key_s {
                let pos = v.piece.offset + match v.state {
                    ReadState::Reading(o) => o,
                    _ => 0,
                };
                res.push((id, pos));
            }
            proof {
                assert forall|x: (i64, u64)| #[trigger] res@.contains(x) <==> old_res.contains(x) || (
                x == (id, resume_pos(m[id]) as u64) && m[id].key@ == key@) by {
                    if res@.len() > old_res.len() {
                        assert(res@ == old_res.push((id, resume_pos(m[id]) as u64)));
                        if res@.contains(x) && x != (id, resume_pos(m[id]) as u64) {
                            let j = choose|j: int| 0 <= j < res@.len() && res@[j] == x;
                            assert(old_res[j] == x);
                        }
                        if old_res.contains(x) {
                            let j = choose|j: int| 0 <= j < old_res.len() && old_res[j] == x;
                            assert(res@[j] == x);
                        }
                        if x == (id, resume_pos(m[id]) as u64) {
                            assert(res@[old_res.len() as int] == x);
                        }
                    }
                }
            }
        }
        res
    }

    /// Takes out the waiters that a write of `len` bytes at `offset` of file
    /// `key` serves, each with the byte it waited for.
    pub fn take_served_waiters(&mut self, key: &str, offset: u64, len: u64) -> (res: Vec<(i64, u64)>)
        requires
            offset + len <= u64::MAX,
        ensures
            forall|id: i64, start: u64|
                res@.contains((id, start)) <==> served_ids(old(self).waiters(), key@, offset, len).contains(
                    id,
                ) && start == old(self).waiters()[id].start,
            final(self).waiters() == old(self).waiters().remove_keys(
                served_ids(old(self).waiters(), key@, offset, len),
            ),
            final(self).readers() == old(self).readers(),
            final(self).writers() == old(self).writers(),
    {
        broadcast use vstd::std_specs::btree::group_btree_axioms;
        let ghost m = self.waiters@;
        let ghost served = served_ids(m, key@, offset, len);
        let key_s = key.to_owned();
        let end = offset + len;
        let mut res: Vec<(i64, u64)> = Vec::new();
        for (k, v) in it: self.waiters.iter()
            invariant
                m == self.waiters@,
                served == served_ids(m, key@, offset, len),
                key_s@ == key@,
                end == offset + len,
                it.seq().len() == m.dom().len(),
                forall|i: int| 0 <= i < it.seq().len() ==> #[trigger] m.contains_key(*it.seq()[i].0)
                    && m[*it.seq()[i].0] == *it.seq()[i].1,
                forall|kk: i64| #[trigger] m.contains_key(kk) ==> it.seq().contains((&kk, &m[kk])),
                forall|id: i64, start: u64|
                    #[trigger] res@.contains((id, start)) ==> served.contains(id) && start
                        == m[id].start,
                forall|id: i64|
                    #[trigger] served.contains(id) ==> res@.contains((id, m[id].start)) || exists|
                        i: int,
                    |
                        it.index() <= i < it.seq().len() && *(#[trigger] it.seq()[i]).0 == id,
        {
            let id: i64 = *k;
            proof {
                assert(m.contains_key(id));
                assert(*v == m[id]);
            }
            let ghost old_res = res@;
            if v.key == key_s && v.start >= offset && v.start < end {
                res.push((id, v.start));
            }
            proof {
                assert forall|x: (i64, u64)| #[trigger] res@.contains(x) <==> old_res.contains(x) || (
                x == (id, m[id].start) && served.contains(id)) by {
                    if res@.len() > old_res.len() {
                        assert(res@ == old_res.push((id, m[id].start)));
                        if res@.contains(x) && x != (id, m[id].start) {
                            let j = choose|j: int| 0 <= j < res@.len() && res@[j] == x;
                            assert(old_res[j] == x);
                        }
                        if old_res.contains(x) {
                            let j = choose|j: int| 0 <= j < old_res.len() && old_res[j] == x;
                            assert(res@[j] == x);
                        }
                        if x == (id, m[id].start) {
                            assert(res@[old_res.len() as int] == x);
                        }
                    }
                }
            }
        }
        let mut i: usize = 0;
        while i < res.len()
            invariant
                i <= res@.len(),
                self.waiters@ == m.remove_keys(res@.take(i as int).map_values(|x: (i64, u64)| x.0).to_set()),
                self.readers@ == old(self).readers(),
                self.writers@ == old(self).writers(),
            decreases res@.len() - i,
        {
            let (id, _) = res[i];
            self.waiters.remove(&id);
            proof {
                let f = |x: (i64, u64)| x.0;
                assert(res@.take(i + 1) =~= res@.take(i as int).push(res@[i as int]));
                assert(res@.take(i + 1).map_values(f) =~= res@.take(i as int).map_values(f).push(id));
                assert forall|y: i64| #[trigger] res@.take(i + 1).map_values(f).to_set().contains(y)
                    <==> res@.take(i as int).map_values(f).to_set().insert(id).contains(y) by {
                    let a = res@.take(i + 1).map_values(f);
                    let b = res@.take(i as int).map_values(f);
                    if a.contains(y) && y != id {
                        let j = choose|j: int| 0 <= j < a.len() && a[j] == y;
                        assert(b[j] == y);
                    }
                    if b.contains(y) {
                        let j = choose|j: int| 0 <= j < b.len() && b[j] == y;
                        assert(a[j] == y);
                    }
                    if y == id {
                        assert(a[i as int] == y);
                    }
                }
                assert(self.waiters@ =~= m.remove_keys(res@.take(i + 1).map_values(f).to_set()));
            }
            i = i + 1;
        }
        proof {
            let f = |x: (i64, u64)| x.0;
            assert(res@.take(res@.len() as int) == res@);
            assert forall|y: i64| #[trigger] res@.map_values(f).to_set().contains(y) <==> served.contains(
                y,
            ) by {
                if served.contains(y) {
                    assert(res@.contains((y, m[y].start)));
                    let j = choose|j: int| 0 <= j < res@.len() && res@[j] == (y, m[y].start);
                    assert(res@.map_values(f)[j] == y);
                }
                if res@.map_values(f).contains(y) {
                    let j = choose|j: int| 0 <= j < res@.len() && res@.map_values(f)[j] == y;
                    let x = res@[j];
                    assert(res@.contains(x));
                    assert(res@.contains((x.0, x.1)));
                    assert(served.contains(x.0));
                    assert(x.0 == y);
                }
                assert(res@.map_values(f).to_set().contains(y) == res@.map_values(f).contains(y));
            }
            assert(res@.map_values(f).to_set() =~= served);
        }
        res
    }

    /// Records a write of `len` bytes at `offset` of file `key` (`do_write`
    /// without the file operations): a new piece is merged into the file's
    /// pieces, the waiters it serves are taken out, and a file that became
    /// complete loses its writer.
    pub fn record_write(&mut self, key: &str, offset: u64, len: u64) -> (out: WriteOutcome)
        requires
            old(self).wf(),
            offset + len <= u64::MAX,
        ensures
            final(self).wf(),
            final(self).readers() == old(self).readers(),
            out.known == old(self).writer_index(key@) is Some,
            !out.known ==> {
                &&& !out.write
                &&& out.notify@.len() == 0
                &&& out.finished is None
                &&& final(self).writers() == old(self).writers()
                &&& final(self).waiters() == old(self).waiters()
            },
            out.known ==> ({
                let i = old(self).writer_index(key@)->0;
                let w = old(self).writers()[i];
                let p = Piece { offset, length: len };
                let np = pieces_after_write(w.meta.pieces@, p);
                &&& out.write == (len > 0 && disjoint_from(w.meta.pieces@, p))
                &&& forall|id: i64, start: u64|
                    out.notify@.contains((id, start)) <==> served_ids(
                        old(self).waiters(),
                        key@,
                        offset,
                        len,
                    ).contains(id) && start == old(self).waiters()[id].start
                &&& final(self).waiters() == old(self).waiters().remove_keys(
                    served_ids(old(self).waiters(), key@, offset, len),
                )
                &&& (out.finished is Some <==> is_complete(np, w.meta.len))
                &&& match out.finished {
                    Some(fw) => {
                        &&& fw.key == w.key
                        &&& fw.meta.pieces@ == np
                        &&& fw.meta.len == w.meta.len
                        &&& fw.meta.path == w.meta.path
                        &&& fw.remote_info == w.remote_info
                        &&& fw.rc == w.rc
                        &&& final(self).writers() == old(self).writers().remove(i)
                    },
                    None => {
                        let nw = final(self).writers()[i];
                        &&& final(self).writers() == old(self).writers().update(i, nw)
                        &&& nw.key == w.key
                        &&& nw.meta.pieces@ == np
                        &&& nw.meta.len == w.meta.len
                        &&& nw.meta.path == w.meta.path
                        &&& nw.remote_info == w.remote_info
                        &&& nw.rc == w.rc
                    },
                }
            }),
    {
        let i = match self.find_writer(key) {
            None => {
                return WriteOutcome { known: false, write: false, notify: Vec::new(), finished: None };
            },
            Some(i) => i,
        };
        let ghost ws = self.writers@;
        let mut w = self.writers.remove(i);
        proof {
            assert(w == ws[i as int]);
            assert(pieces_wf(w.meta.pieces@));
            lemma_writers_remove(ws, i as int);
        }
        let p = Piece { offset, length: len };
        let fresh = len > 0 && !w.meta.overlaps(&p);
        if fresh {
            w.meta.combine(p);
        }
        let notify = self.take_served_waiters(key, offset, len);
        if w.meta.is_end() {
            WriteOutcome { known: true, write: fresh, notify, finished: Some(w) }
        } else {
            self.writers.insert(i, w);
            proof {
                assert(self.writers@ =~= ws.update(i as int, w));
                lemma_writers_update(ws, i as int, w);
            }
            WriteOutcome { known: true, write: fresh, notify, finished: None }
        }
    }
}

/// A reader still reading stands at the start of its piece plus the bytes
/// it has read of it; a paused or ended reader stands at the start of its
/// piece.
pub proof fn lemma_resume_pos_of_state(r: Reader)
    ensures
        r.state matches ReadState::Reading(o) ==> resume_pos(r) == r.piece.offset + o,
        !(r.state is Reading) ==> resume_pos(r) == r.piece.offset,
{
}

/// Reading `size` bytes that neither use up the piece nor fill the buffer
/// moves the place where the reader resumes forward by exactly `size`.
pub proof fn lemma_resume_after_read(r: Reader, size: u64)
    requires
        reader_ok(r),
        r.state matches ReadState::Reading(o) && 0 < size && o + size < r.piece.length && o + size
            < READ_BUF_SIZE,
    ensures
        after_read(r.piece, r.state, size).1 is Reading,
        after_read(r.piece, r.state, size).0 == r.piece,
        resume_pos(
            Reader {
                key: r.key,
                piece: after_read(r.piece, r.state, size).0,
                state: after_read(r.piece, r.state, size).1,
            },
        ) == resume_pos(r) + size,
{
}

/// A reader's piece and state after reads of the sizes `sizes`, one after
/// the other.
pub open spec fn after_reads(piece: Piece, state: ReadState, sizes: Seq<u64>) -> (Piece, ReadState)
    decreases sizes.len(),
{
    if sizes.len() == 0 {
        (piece, state)
    } else {
        let (p, st) = after_reads(piece, state, sizes.drop_last());
        after_read(p, st, sizes.last())
    }
}

/// The sum of `sizes`.
pub open spec fn total_size(sizes: Seq<u64>) -> int
    decreases sizes.len(),
{
    if sizes.len() == 0 {
        0
    } else {
        total_size(sizes.drop_last()) + sizes.last()
    }
}

/// A reader started on a piece that has read some non-empty buffers, in all
/// fewer bytes than the piece and than one pause's worth, resumes at the
/// start of the piece plus the bytes it read: nothing it sent is sent again.
pub proof fn lemma_resume_after_reads(key: String, piece: Piece, sizes: Seq<u64>)
    requires
        forall|i: int| 0 <= i < sizes.len() ==> #[trigger] sizes[i] > 0,
        total_size(sizes) < piece.length,
        total_size(sizes) < READ_BUF_SIZE,
    ensures
        after_reads(piece, ReadState::Reading(0), sizes) == (
            piece,
            ReadState::Reading(total_size(sizes) as u64),
        ),
        resume_pos(
            Reader {
                key,
                piece: after_reads(piece, ReadState::Reading(0), sizes).0,
                state: after_reads(piece, ReadState::Reading(0), sizes).1,
            },
        ) == piece.offset + total_size(sizes),
    decreases sizes.len(),
{
    if sizes.len() > 0 {
        let init = sizes.drop_last();
        assert forall|i: int| 0 <= i < init.len() implies #[trigger] init[i] > 0 by {
            assert(init[i] == sizes[i]);
        }
        assert(sizes.last() == sizes[sizes.len() - 1]);
        lemma_resume_after_reads(key, piece, init);
    }
}

} // verus!
