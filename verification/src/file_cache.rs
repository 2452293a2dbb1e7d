//! The IO thread's table of open file handles, and its choice of the file a
//! block is read from.
//!
//! The handles are kept by cache key; `H` is the handle type (a `File` in
//! the IO thread). A block still downloading is kept under its key with
//! `.dl` appended.
use vstd::prelude::*;
use vstd::string::StringExecFns;

use crate::text::string_push;

verus! {

/// The most bytes one read of a block file returns.
pub const READ_CHUNK: u64 = 65536;

/// The table of open handles: at most one per key, and room for
/// `capacity` before one is closed to make room.
#[verifier::reject_recursive_types(H)]
pub struct FileCache<H> {
    keys: Vec<String>,
    handles: Vec<H>,
    capacity: usize,
}

pub open spec fn distinct_keys(keys: Seq<Seq<char>>) -> bool {
    forall|i: int, j: int| 0 <= i < j < keys.len() ==> keys[i] != keys[j]
}

impl<H> FileCache<H> {
    /// The keys, oldest first.
    pub closed spec fn keys(&self) -> Seq<Seq<char>> {
        self.keys@.map_values(|k: String| k@)
    }

    /// The handles, in the order of their keys.
    pub closed spec fn handles(&self) -> Seq<H> {
        self.handles@
    }

    pub closed spec fn capacity(&self) -> nat {
        self.capacity as nat
    }

    pub closed spec fn wf(&self) -> bool {
        &&& self.keys@.len() == self.handles@.len()
        &&& distinct_keys(self.keys())
    }

    /// Whether `key` has a handle.
    pub open spec fn has(&self, key: Seq<char>) -> bool {
        self.keys().contains(key)
    }

    pub fn new(capacity: usize) -> (c: Self)
        ensures
            c.wf(),
            c.keys() == Seq::<Seq<char>>::empty(),
            c.handles() == Seq::<H>::empty(),
            c.capacity() == capacity,
    {
        let c = FileCache { keys: Vec::new(), handles: Vec::new(), capacity };
        proof {
            assert(c.keys() =~= Seq::<Seq<char>>::empty());
        }
        c
    }

    /// How many handles are open.
    pub fn len(&self) -> (n: usize)
        requires
            self.wf(),
        ensures
            n == self.keys().len(),
            n == self.handles().len(),
    {
        self.keys.len()
    }

    /// Where the handle of `key` is.
    pub fn find(&self, key: &str) -> (r: Option<usize>)
        requires
            self.wf(),
        ensures
            match r {
                Some(i) => i < self.keys().len() && self.keys()[i as int] == key@,
                None => !self.has(key@),
            },
    {
        let wanted = key.to_owned();
        let mut i: usize = 0;
        while i < self.keys.len()
            invariant
                wanted@ == key@,
                i <= self.keys@.len(),
                self.keys().len() == self.keys@.len(),
                forall|j: int| 0 <= j < i ==> self.keys()[j] != key@,
            decreases self.keys@.len() - i,
        {
            let same = self.keys[i] == wanted;
            proof {
                assert(self.keys()[i as int] == self.keys@[i as int]@);
            }
            if same {
                return Some(i);
            }
            i = i + 1;
        }
        proof {
            if self.has(key@) {
                let j = self.keys().index_of(key@);
                assert(self.keys()[j] == key@);
            }
        }
        None
    }

    /// Whether `key` has a handle.
    pub fn contains_key(&self, key: &str) -> (b: bool)
        requires
            self.wf(),
        ensures
            b == self.has(key@),
    {
        self.find(key).is_some()
    }

    /// Makes room when the table is full: closes the oldest handle.
    pub fn evict_one(&mut self)
        requires
            old(self).wf(),
        ensures
            final(self).wf(),
            final(self).capacity() == old(self).capacity(),
            if old(self).keys().len() >= old(self).capacity() && old(self).keys().len() > 0 {
                &&& final(self).keys() == old(self).keys().subrange(1, old(self).keys().len() as int)
                &&& final(self).handles() == old(self).handles().subrange(
                    1,
                    old(self).handles().len() as int,
                )
            } else {
                &&& final(self).keys() == old(self).keys()
                &&& final(self).handles() == old(self).handles()
            },
    {
        if self.keys.len() >= self.capacity && self.keys.len() > 0 {
            let ghost old_keys = self.keys();
            self.keys.remove(0);
            self.handles.remove(0);
            proof {
                assert(self.keys() =~= old_keys.subrange(1, old_keys.len() as int));
            }
        }
    }

    /// The first step of opening the handle of `key` (`get_or_open`): the
    /// handle is reused when there is one (its position is returned);
    /// otherwise room is made for a new one, which the caller opens and
    /// inserts. Room is made before the file is opened, so a failed open
    /// leaves the table one handle shorter.
    pub fn reuse_or_make_room(&mut self, key: &str) -> (r: Option<usize>)
        requires
            old(self).wf(),
        ensures
            final(self).wf(),
            final(self).capacity() == old(self).capacity(),
            match r {
                Some(i) => {
                    &&& i < old(self).keys().len()
                    &&& old(self).keys()[i as int] == key@
                    &&& final(self).keys() == old(self).keys()
                    &&& final(self).handles() == old(self).handles()
                },
                None => {
                    &&& !old(self).has(key@)
                    &&& !final(self).has(key@)
                    &&& if old(self).keys().len() >= old(self).capacity() && old(self).keys().len()
                        > 0 {
                        &&& final(self).keys() == old(self).keys().subrange(
                            1,
                            old(self).keys().len() as int,
                        )
                        &&& final(self).handles() == old(self).handles().subrange(
                            1,
                            old(self).handles().len() as int,
                        )
                    } else {
                        &&& final(self).keys() == old(self).keys()
                        &&& final(self).handles() == old(self).handles()
                    }
                },
            },
    {
        match self.find(key) {
            Some(i) => Some(i),
            None => {
                let ghost old_keys = self.keys();
                self.evict_one();
                proof {
                    if self.has(key@) {
                        let j = self.keys().index_of(key@);
                        assert(old_keys[j + 1] == key@);
                    }
                }
                None
            },
        }
    }

    /// Keeps `h` as the handle of `key`, in place of any it had.
    pub fn insert(&mut self, key: String, h: H)
        requires
            old(self).wf(),
        ensures
            final(self).wf(),
            final(self).capacity() == old(self).capacity(),
            if old(self).has(key@) {
                let i = old(self).keys().index_of(key@);
                &&& final(self).keys() == old(self).keys()
                &&& final(self).handles() == old(self).handles().update(i, h)
            } else {
                &&& final(self).keys() == old(self).keys().push(key@)
                &&& final(self).handles() == old(self).handles().push(h)
            },
    {
        match self.find(key.as_str()) {
            Some(i) => {
                proof {
                    let j = self.keys().index_of(key@);
                    assert(self.keys()[j] == key@);
                    if i != j {
                        if i < j {
                            assert(self.keys()[i as int] != self.keys()[j]);
                        } else {
                            assert(self.keys()[j] != self.keys()[i as int]);
                        }
                    }
                }
                self.handles.set(i, h);
            },
            None => {
                let ghost old_keys = self.keys();
                let ghost k = key@;
                self.keys.push(key);
                self.handles.push(h);
                proof {
                    assert(self.keys() =~= old_keys.push(k));
                }
            },
        }
    }

    /// Closes the handle of `key`, if it has one.
    pub fn remove(&mut self, key: &str)
        requires
            old(self).wf(),
        ensures
            final(self).wf(),
            final(self).capacity() == old(self).capacity(),
            !final(self).has(key@),
            if old(self).has(key@) {
                let i = old(self).keys().index_of(key@);
                &&& final(self).keys() == old(self).keys().remove(i)
                &&& final(self).handles() == old(self).handles().remove(i)
            } else {
                &&& final(self).keys() == old(self).keys()
                &&& final(self).handles() == old(self).handles()
            },
    {
        match self.find(key) {
            Some(i) => {
                let ghost old_keys = self.keys();
                proof {
                    let j = old_keys.index_of(key@);
                    assert(old_keys[j] == key@);
                    if i != j {
                        if i < j {
                            assert(old_keys[i as int] != old_keys[j]);
                        } else {
                            assert(old_keys[j] != old_keys[i as int]);
                        }
                    }
                }
                self.keys.remove(i);
                self.handles.remove(i);
                proof {
                    assert(self.keys() =~= old_keys.remove(i as int));
                    if self.has(key@) {
                        let m = self.keys().index_of(key@);
                        if m < i {
                            assert(old_keys[m] == key@);
                            assert(old_keys[m] != old_keys[i as int]);
                        } else {
                            assert(old_keys[m + 1] == key@);
                            assert(old_keys[i as int] != old_keys[m + 1]);
                        }
                    }
                }
            },
            None => {},
        }
    }

    /// The handle at `i`, to read or write through.
    pub fn handle_mut(&mut self, i: usize) -> (h: &mut H)
        requires
            old(self).wf(),
            i < old(self).handles().len(),
        ensures
            *h == old(self).handles()[i as int],
            final(self).wf(),
            final(self).keys() == old(self).keys(),
            final(self).capacity() == old(self).capacity(),
            final(self).handles() == old(self).handles().update(i as int, *final(h)),
    {
        &mut self.handles[i]
    }
}

/// The key a block is kept under while it downloads: `key` and `.dl`.
pub open spec fn downloading_key_of(key: Seq<char>) -> Seq<char> {
    key + seq!['.', 'd', 'l']
}

pub fn downloading_key(key: &str) -> (k: String)
    ensures
        k@ == downloading_key_of(key@),
{
    let mut k = String::new();
    k.append(key);
    string_push(&mut k, '.');
    string_push(&mut k, 'd');
    string_push(&mut k, 'l');
    proof {
        assert(k@ =~= downloading_key_of(key@));
    }
    k
}

/// Which file a block is read from.
#[derive(Debug, PartialEq, Eq, Structural, Clone, Copy)]
pub enum ReadSource {
    /// The handle the download writes through (flushed first).
    DownloadHandle,
    /// The finished block file, opened for reading.
    Finished,
    /// The file being downloaded, opened for reading and writing.
    Downloading,
    /// No such block.
    NotFound,
}

/// The file a block is read from: the download's own handle while it is
/// open, else the finished file, else the file still being downloaded.
pub fn read_source(has_download_handle: bool, finished_exists: bool, downloading_exists: bool) -> (r:
    ReadSource)
    ensures
        r == (if has_download_handle {
            ReadSource::DownloadHandle
        } else if finished_exists {
            ReadSource::Finished
        } else if downloading_exists {
            ReadSource::Downloading
        } else {
            ReadSource::NotFound
        }),
{
    if has_download_handle {
        ReadSource::DownloadHandle
    } else if finished_exists {
        ReadSource::Finished
    } else if downloading_exists {
        ReadSource::Downloading
    } else {
        ReadSource::NotFound
    }
}

/// How many bytes one read asks for: `len`, at most [`READ_CHUNK`].
pub fn read_chunk_len(len: u64) -> (n: usize)
    ensures
        n == if len < READ_CHUNK { len } else { READ_CHUNK },
{
    if len < READ_CHUNK {
        len as usize
    } else {
        READ_CHUNK as usize
    }
}

} // verus!
