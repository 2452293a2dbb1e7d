//! Block-based cache bookkeeping: how a source is cut into fixed-size blocks,
//! how blocks are named and laid out on disk, and the in-memory state of the
//! blocks and sources of the cache.
use std::path::PathBuf;
use vstd::prelude::*;

use crate::connection::{full_length, RemoteFileInfo};
use crate::text::string_push;
use vstd::hash_map::StringHashMap;

verus! {

/// The size of a block: 8 MiB.
pub const BLOCK_SIZE: u64 = 8 * 1024 * 1024;

/// The most bytes read from a block in one go: 64 KiB.
pub const READ_CHUNK_SIZE: u64 = 64 * 1024;

/// The index of the block that holds byte `offset`, truncated to 32 bits as
/// the cache stores it.
pub fn block_index(offset: u64) -> (i: u32)
    ensures
        i == (offset / BLOCK_SIZE) as u32,
{
    (offset / BLOCK_SIZE) as u32
}

/// The decimal digit character for `d < 10`.
pub open spec fn digit_char(d: int) -> char {
    (48 + d) as char
}

/// The decimal representation of `n`, without leading zeros.
pub open spec fn decimal(n: nat) -> Seq<char>
    decreases n,
{
    if n < 10 {
        seq![digit_char(n as int)]
    } else {
        decimal(n / 10).push(digit_char((n % 10) as int))
    }
}

fn push_decimal(s: &mut String, n: u32)
    ensures
        final(s)@ == old(s)@ + decimal(n as nat),
    decreases n,
{
    if n >= 10 {
        push_decimal(s, n / 10);
    }
    let d: u8 = (n % 10) as u8;
    let c: char = (48u8 + d) as char;
    string_push(s, c);
    proof {
        if n >= 10 {
            assert(old(s)@ + decimal(n as nat) =~= old(s)@ + decimal((n / 10) as nat) + seq![c]);
        } else {
            assert(decimal(n as nat) =~= seq![c]);
        }
    }
}

/// The key of block `index` of a source: the source key, `_`, and the index
/// in decimal.
pub open spec fn block_key_of(source_key: Seq<char>, index: nat) -> Seq<char> {
    source_key + seq!['_'] + decimal(index)
}

pub fn block_key(source_key: &str, index: u32) -> (k: String)
    ensures
        k@ == block_key_of(source_key@, index as nat),
{
    let mut k = source_key.to_owned();
    string_push(&mut k, '_');
    push_decimal(&mut k, index);
    k
}

proof fn lemma_digit_char(d: int)
    requires
        0 <= d < 10,
    ensures
        digit_char(d) != '_',
        digit_char(d) as u32 == 48 + d,
{
    assert(((48 + d) as char) as u32 == 48 + d);
}

proof fn lemma_decimal_shape(n: nat)
    ensures
        decimal(n).len() >= 1,
        forall|j: int| 0 <= j < decimal(n).len() ==> #[trigger] decimal(n)[j] != '_',
    decreases n,
{
    if n < 10 {
        lemma_digit_char(n as int);
    } else {
        lemma_decimal_shape(n / 10);
        lemma_digit_char((n % 10) as int);
        assert forall|j: int| 0 <= j < decimal(n).len() implies #[trigger] decimal(n)[j] != '_' by {
            if j < decimal(n / 10).len() {
                assert(decimal(n)[j] == decimal(n / 10)[j]);
            }
        }
    }
}

proof fn lemma_decimal_injective(a: nat, b: nat)
    requires
        decimal(a) == decimal(b),
    ensures
        a == b,
    decreases a,
{
    lemma_decimal_shape(a);
    lemma_decimal_shape(b);
    if a < 10 && b < 10 {
        lemma_digit_char(a as int);
        lemma_digit_char(b as int);
        assert(decimal(a) == seq![digit_char(a as int)]);
        assert(decimal(b) == seq![digit_char(b as int)]);
        assert(decimal(a)[0] == digit_char(a as int));
        assert(decimal(b)[0] == digit_char(b as int));
        assert(digit_char(a as int) == digit_char(b as int));
    } else if a < 10 {
        lemma_decimal_shape(b / 10);
        assert(decimal(b).len() >= 2);
    } else if b < 10 {
        lemma_decimal_shape(a / 10);
        assert(decimal(a).len() >= 2);
    } else {
        assert(decimal(a).drop_last() =~= decimal(a / 10));
        assert(decimal(b).drop_last() =~= decimal(b / 10));
        lemma_decimal_injective(a / 10, b / 10);
        lemma_digit_char((a % 10) as int);
        lemma_digit_char((b % 10) as int);
        assert(decimal(a).last() == digit_char((a % 10) as int));
        assert(decimal(b).last() == digit_char((b % 10) as int));
        assert(decimal(a).last() == decimal(b).last());
        assert(a % 10 == b % 10);
        assert(a == (a / 10) * 10 + a % 10);
        assert(b == (b / 10) * 10 + b % 10);
    }
}

/// Different sources or indices give different block keys: a block key
/// names one block of one source.
pub proof fn lemma_block_key_injective(k1: Seq<char>, i1: nat, k2: Seq<char>, i2: nat)
    requires
        block_key_of(k1, i1) == block_key_of(k2, i2),
    ensures
        k1 == k2,
        i1 == i2,
{
    let s = block_key_of(k1, i1);
    let d1 = decimal(i1);
    let d2 = decimal(i2);
    lemma_decimal_shape(i1);
    lemma_decimal_shape(i2);
    assert(s == k1 + seq!['_'] + d1);
    assert(s == k2 + seq!['_'] + d2);
    if d1.len() < d2.len() {
        let p = k1.len() as int;
        assert(s[p] == '_');
        assert(s[p] == d2[p - k2.len() - 1]);
    } else if d2.len() < d1.len() {
        let p = k2.len() as int;
        assert(s[p] == '_');
        assert(s[p] == d1[p - k1.len() - 1]);
    } else {
        assert(k1 =~= s.take(k1.len() as int));
        assert(k2 =~= s.take(k2.len() as int));
        assert(d1 =~= s.skip((k1.len() + 1) as int));
        assert(d2 =~= s.skip((k2.len() + 1) as int));
        lemma_decimal_injective(i1, i2);
    }
}

/// The offset of the first byte of block `index`.
pub fn block_offset(index: u32) -> (o: u64)
    ensures
        o == index * BLOCK_SIZE,
{
    proof {
        assert(index * BLOCK_SIZE <= u32::MAX * BLOCK_SIZE) by (nonlinear_arith)
            requires
                index <= u32::MAX,
        ;
    }
    index as u64 * BLOCK_SIZE
}

/// The number of blocks that `content_length` bytes take, truncated to 32
/// bits as the cache stores it.
pub fn block_count(content_length: u64) -> (n: u32)
    requires
        content_length + BLOCK_SIZE <= u64::MAX,
    ensures
        n == ((content_length + BLOCK_SIZE - 1) / (BLOCK_SIZE as int)) as u32,
{
    ((content_length + BLOCK_SIZE - 1) / BLOCK_SIZE) as u32
}

/// How many bytes the UTF-8 encoding of `c` takes.
pub open spec fn utf8_width(c: char) -> nat {
    if (c as u32) < 0x80 {
        1
    } else if (c as u32) < 0x800 {
        2
    } else if (c as u32) < 0x10000 {
        3
    } else {
        4
    }
}

/// The name of the directory that holds a block file: the first two bytes of
/// the key when they form whole characters (one character of two bytes, or
/// two characters of one byte), else `00`.
pub open spec fn block_dir_name(key: Seq<char>) -> Seq<char> {
    if key.len() >= 1 && utf8_width(key[0]) == 2 {
        key.take(1)
    } else if key.len() >= 2 && utf8_width(key[0]) == 1 && utf8_width(key[1]) == 1 {
        key.take(2)
    } else {
        seq!['0', '0']
    }
}

fn utf8_width_exec(c: char) -> (w: usize)
    ensures
        w == utf8_width(c),
{
    let u = c as u32;
    if u < 0x80 {
        1
    } else if u < 0x800 {
        2
    } else if u < 0x10000 {
        3
    } else {
        4
    }
}

/// The directory name of a block file: the first two bytes of `key`, the way
/// `key.get(0..2).unwrap_or("00")` reads them.
pub fn block_dir(key: &str) -> (d: String)
    ensures
        d@ == block_dir_name(key@),
{
    let n = key.unicode_len();
    let mut d = String::new();
    if n >= 1 {
        let c0 = key.get_char(0);
        let w0 = utf8_width_exec(c0);
        if w0 == 2 {
            string_push(&mut d, c0);
            proof {
                assert(d@ =~= key@.take(1));
            }
            return d;
        }
        if n >= 2 && w0 == 1 {
            let c1 = key.get_char(1);
            if utf8_width_exec(c1) == 1 {
                string_push(&mut d, c0);
                string_push(&mut d, c1);
                proof {
                    assert(d@ =~= key@.take(2));
                }
                return d;
            }
        }
    }
    string_push(&mut d, '0');
    string_push(&mut d, '0');
    proof {
        assert(d@ =~= seq!['0', '0']);
    }
    d
}

/// Where a block file lies under the cache directory: the file `file` in the
/// directory `dir`, with its extension replaced by `extension` when there is
/// one (as `Path::with_extension` replaces it).
#[derive(Clone, Debug, PartialEq)]
pub struct BlockPath {
    pub dir: String,
    pub file: String,
    pub extension: Option<String>,
}

/// The extension of a block file while it is being downloaded.
pub open spec fn downloading_ext() -> Seq<char> {
    seq!['d', 'o', 'w', 'n', 'l', 'o', 'a', 'd', 'i', 'n', 'g']
}

/// The path of a finished block file: `<dir>/<key>` under the cache
/// directory, where `<dir>` is `block_dir(key)`.
pub fn block_path(key: &str) -> (p: BlockPath)
    ensures
        p.dir@ == block_dir_name(key@),
        p.file@ == key@,
        p.extension is None,
{
    BlockPath { dir: block_dir(key), file: key.to_owned(), extension: None }
}

/// The path of a block file while it is being downloaded: the block path
/// with the extension `downloading`.
pub fn block_path_downloading(key: &str) -> (p: BlockPath)
    ensures
        p.dir@ == block_dir_name(key@),
        p.file@ == key@,
        p.extension matches Some(e) && e@ == downloading_ext(),
{
    let mut e = String::new();
    string_push(&mut e, 'd');
    string_push(&mut e, 'o');
    string_push(&mut e, 'w');
    string_push(&mut e, 'n');
    string_push(&mut e, 'l');
    string_push(&mut e, 'o');
    string_push(&mut e, 'a');
    string_push(&mut e, 'd');
    string_push(&mut e, 'i');
    string_push(&mut e, 'n');
    string_push(&mut e, 'g');
    proof {
        assert(e@ =~= downloading_ext());
    }
    BlockPath { dir: block_dir(key), file: key.to_owned(), extension: Some(e) }
}

/// Source-level metadata.
#[derive(Clone, Debug)]
pub struct SourceMeta {
    pub content_type: String,
    pub content_length: u64,
    pub accept_ranges: bool,
    pub block_count: u32,
}

impl SourceMeta {
    pub fn from_remote_info(info: &RemoteFileInfo) -> (m: Self)
        requires
            full_length(*info) + BLOCK_SIZE <= u64::MAX,
        ensures
            m.content_type@ == info.content_type@,
            m.content_length == full_length(*info),
            m.accept_ranges == info.accept_ranges,
            m.block_count == ((full_length(*info) + BLOCK_SIZE - 1) / (BLOCK_SIZE as int)) as u32,
    {
        let content_length = info.full();
        SourceMeta {
            content_type: info.content_type.clone(),
            content_length,
            accept_ranges: info.accept_ranges,
            block_count: block_count(content_length),
        }
    }
}

/// The database row of a fully downloaded source.
#[derive(Clone, Debug, PartialEq)]
pub struct SourceRow<T> {
    pub key: String,
    pub cache_type: T,
    pub content_type: String,
    pub content_length: i64,
    pub block_count: i32,
}

/// The database row of a finished block.
#[derive(Clone, Debug, PartialEq)]
pub struct BlockRow {
    pub key: String,
    pub source_key: String,
    pub block_index: i32,
    pub block_size: i64,
}

/// What finishing a block asks of the IO thread and the database.
#[derive(Clone, Debug, PartialEq)]
pub struct FinishBlock {
    /// The downloading file, renamed to `rename_to`.
    pub rename_from: BlockPath,
    pub rename_to: BlockPath,
    /// The row recorded for the block.
    pub row: BlockRow,
    /// Whether the block was being fetched: its waiters are woken.
    pub notify: bool,
}

/// The state of a block in memory.
#[derive(Clone, Copy, Debug, PartialEq, Eq, Structural)]
pub enum BlockState {
    /// Being downloaded; the first `written` bytes are readable.
    Fetching { written: u64 },
    /// Fully cached on disk.
    Cached,
}

/// How many bytes of a block can be read in a given state.
pub open spec fn readable_in(state: Option<BlockState>) -> u64 {
    match state {
        Some(BlockState::Cached) => BLOCK_SIZE,
        Some(BlockState::Fetching { written }) => written,
        None => 0,
    }
}

/// The state of a block after `len` bytes were written at `offset_in_block`:
/// a fetching block grows to cover the write, any other state is kept.
pub open spec fn after_write(state: Option<BlockState>, offset_in_block: u64, len: u64) -> Option<
    BlockState,
> {
    match state {
        Some(BlockState::Fetching { written }) => Some(
            BlockState::Fetching {
                written: if offset_in_block + len > written {
                    (offset_in_block + len) as u64
                } else {
                    written
                },
            },
        ),
        _ => state,
    }
}

/// What a reader of byte `offset_in_block` of a block must do.
#[derive(Clone, Copy, Debug, PartialEq, Eq, Structural)]
pub enum Readable {
    /// The byte can be read now.
    Ready,
    /// The block is being fetched and the byte has not arrived: wait for the
    /// block's next notification.
    Wait,
    /// The block is unknown.
    Missing,
}

/// The block table of the cache: source metadata, the state of each block by
/// block key, and the running download actors by source key.
#[verifier::reject_recursive_types(H)]
pub struct BlockStore<H> {
    sources: StringHashMap<SourceMeta>,
    blocks: StringHashMap<BlockState>,
    active_sources: StringHashMap<H>,
    cache_dir: PathBuf,
}

/// `meta` and `other` hold the same values.
pub open spec fn same_meta(meta: SourceMeta, other: SourceMeta) -> bool {
    &&& meta.content_type@ == other.content_type@
    &&& meta.content_length == other.content_length
    &&& meta.accept_ranges == other.accept_ranges
    &&& meta.block_count == other.block_count
}

impl<H> BlockStore<H> {
    pub closed spec fn sources(&self) -> Map<Seq<char>, SourceMeta> {
        self.sources@
    }

    pub closed spec fn blocks(&self) -> Map<Seq<char>, BlockState> {
        self.blocks@
    }

    /// The directory the store was made with.
    pub closed spec fn dir(&self) -> PathBuf {
        self.cache_dir
    }

    pub closed spec fn active_sources(&self) -> Set<Seq<char>> {
        self.active_sources@.dom()
    }

    /// The state of block `key`, if it is in memory.
    pub open spec fn block(&self, key: Seq<char>) -> Option<BlockState> {
        if self.blocks().contains_key(key) {
            Some(self.blocks()[key])
        } else {
            None
        }
    }

    pub fn new(cache_dir: PathBuf) -> (s: Self)
        ensures
            s.sources() == Map::<Seq<char>, SourceMeta>::empty(),
            s.blocks() == Map::<Seq<char>, BlockState>::empty(),
            s.active_sources() == Set::<Seq<char>>::empty(),
            s.dir() == cache_dir,
    {
        let s = BlockStore {
            sources: StringHashMap::new(),
            blocks: StringHashMap::new(),
            active_sources: StringHashMap::new(),
            cache_dir,
        };
        proof {
            assert(s.active_sources@.dom() =~= Set::<Seq<char>>::empty());
        }
        s
    }

    /// The directory the block files are kept in.
    pub fn cache_dir(&self) -> (d: &PathBuf)
        ensures
            *d == self.dir(),
    {
        &self.cache_dir
    }

    pub fn get_source_meta(&self, source_key: &str) -> (res: Option<SourceMeta>)
        ensures
            match res {
                Some(m) => self.sources().contains_key(source_key@) && same_meta(
                    m,
                    self.sources()[source_key@],
                ),
                None => !self.sources().contains_key(source_key@),
            },
    {
        match self.sources.get(source_key) {
            Some(m) => Some(
                SourceMeta {
                    content_type: m.content_type.clone(),
                    content_length: m.content_length,
                    accept_ranges: m.accept_ranges,
                    block_count: m.block_count,
                },
            ),
            None => None,
        }
    }

    pub fn set_source_meta(&mut self, source_key: &str, meta: SourceMeta)
        ensures
            final(self).sources() == old(self).sources().insert(source_key@, meta),
            final(self).blocks() == old(self).blocks(),
            final(self).active_sources() == old(self).active_sources(),
            final(self).dir() == old(self).dir(),
    {
        self.sources.insert(source_key.to_owned(), meta);
    }

    /// The in-memory state of a block: what `block_state` finds before it
    /// asks the database.
    pub fn memory_block_state(&self, bkey: &str) -> (res: Option<BlockState>)
        ensures
            res == self.block(bkey@),
    {
        match self.blocks.get(bkey) {
            Some(s) => Some(*s),
            None => None,
        }
    }

    /// The state of a block, as `block_state` finds it: the in-memory state
    /// when there is one; else, when the database holds the block (`in_db`,
    /// which the caller asks only then), the block is recorded as cached.
    pub fn block_state(&mut self, bkey: &str, in_db: bool) -> (r: Option<BlockState>)
        ensures
            old(self).block(bkey@) is Some ==> r == old(self).block(bkey@) && final(self).blocks()
                == old(self).blocks(),
            old(self).block(bkey@) is None && in_db ==> r == Some(BlockState::Cached)
                && final(self).blocks() == old(self).blocks().insert(bkey@, BlockState::Cached),
            old(self).block(bkey@) is None && !in_db ==> r is None && final(self).blocks() == old(
                self,
            ).blocks(),
            final(self).sources() == old(self).sources(),
            final(self).active_sources() == old(self).active_sources(),
            final(self).dir() == old(self).dir(),
    {
        match self.blocks.get(bkey) {
            Some(s) => {
                return Some(*s);
            },
            None => {},
        }
        if in_db {
            self.blocks.insert(bkey.to_owned(), BlockState::Cached);
            Some(BlockState::Cached)
        } else {
            None
        }
    }

    /// Finishes a block whose bytes are all written: its downloading file is
    /// to be renamed to the block path and its row recorded (`row`), the
    /// waiters of a block being fetched are to be woken (`notify`), and the
    /// block is cached from now on.
    pub fn finish_block(&mut self, bkey: &str, source_key: &str, block_index: i32, block_size: i64) -> (f:
        FinishBlock)
        ensures
            f.rename_from.dir@ == block_dir_name(bkey@),
            f.rename_from.file@ == bkey@,
            f.rename_from.extension matches Some(e) && e@ == downloading_ext(),
            f.rename_to.dir@ == block_dir_name(bkey@),
            f.rename_to.file@ == bkey@,
            f.rename_to.extension is None,
            f.row.key@ == bkey@,
            f.row.source_key@ == source_key@,
            f.row.block_index == block_index,
            f.row.block_size == block_size,
            f.notify == (old(self).block(bkey@) matches Some(BlockState::Fetching { .. })),
            final(self).blocks() == old(self).blocks().insert(bkey@, BlockState::Cached),
            final(self).sources() == old(self).sources(),
            final(self).active_sources() == old(self).active_sources(),
            final(self).dir() == old(self).dir(),
    {
        let rename_from = block_path_downloading(bkey);
        let rename_to = block_path(bkey);
        let row = BlockRow {
            key: bkey.to_owned(),
            source_key: source_key.to_owned(),
            block_index,
            block_size,
        };
        let notify = match self.blocks.get(bkey) {
            Some(BlockState::Fetching { .. }) => true,
            _ => false,
        };
        self.blocks.insert(bkey.to_owned(), BlockState::Cached);
        FinishBlock { rename_from, rename_to, row, notify }
    }

    /// Marks a block as being fetched. When it already is, nothing changes and
    /// `true` is returned (its notification handle is shared); otherwise it
    /// starts over with nothing written.
    pub fn begin_fetch(&mut self, bkey: &str) -> (already: bool)
        ensures
            already == (old(self).block(bkey@) matches Some(BlockState::Fetching { .. })),
            already ==> final(self).blocks() == old(self).blocks(),
            !already ==> final(self).blocks() == old(self).blocks().insert(
                bkey@,
                BlockState::Fetching { written: 0 },
            ),
            final(self).sources() == old(self).sources(),
            final(self).active_sources() == old(self).active_sources(),
            final(self).dir() == old(self).dir(),
    {
        if let Some(BlockState::Fetching { .. }) = self.blocks.get(bkey) {
            return true;
        }
        self.blocks.insert(bkey.to_owned(), BlockState::Fetching { written: 0 });
        false
    }

    /// Records that `len` bytes were written at `offset_in_block` of a block;
    /// returns whether the block is being fetched, in which case its waiters
    /// are to be notified.
    pub fn write_block_data(&mut self, bkey: &str, offset_in_block: u64, len: u64) -> (notify: bool)
        requires
            old(self).block(bkey@) matches Some(BlockState::Fetching { .. }) ==> offset_in_block + len
                <= u64::MAX,
        ensures
            notify == (old(self).block(bkey@) matches Some(BlockState::Fetching { .. })),
            final(self).block(bkey@) == after_write(old(self).block(bkey@), offset_in_block, len),
            forall|k: Seq<char>| k != bkey@ ==> #[trigger] final(self).block(k) == old(self).block(k),
            final(self).sources() == old(self).sources(),
            final(self).active_sources() == old(self).active_sources(),
            final(self).dir() == old(self).dir(),
    {
        match self.blocks.get(bkey) {
            Some(BlockState::Fetching { written }) => {
                let new_end = offset_in_block + len;
                let w = if new_end > *written {
                    new_end
                } else {
                    *written
                };
                self.blocks.insert(bkey.to_owned(), BlockState::Fetching { written: w });
                true
            },
            _ => false,
        }
    }

    /// How many bytes of a block are readable now.
    pub fn readable_bytes(&self, bkey: &str) -> (n: u64)
        ensures
            n == readable_in(self.block(bkey@)),
    {
        match self.blocks.get(bkey) {
            Some(BlockState::Cached) => BLOCK_SIZE,
            Some(BlockState::Fetching { written }) => *written,
            None => 0,
        }
    }

    /// Whether byte `offset_in_block` of a block can be read now: the step
    /// that `wait_readable` repeats until it is ready or missing.
    pub fn readable_at(&self, bkey: &str, offset_in_block: u64) -> (r: Readable)
        ensures
            r == match self.block(bkey@) {
                Some(BlockState::Cached) => Readable::Ready,
                Some(BlockState::Fetching { written }) => if written > offset_in_block {
                    Readable::Ready
                } else {
                    Readable::Wait
                },
                None => Readable::Missing,
            },
    {
        match self.blocks.get(bkey) {
            Some(BlockState::Cached) => Readable::Ready,
            Some(BlockState::Fetching { written }) => {
                if *written > offset_in_block {
                    Readable::Ready
                } else {
                    Readable::Wait
                }
            },
            None => Readable::Missing,
        }
    }

    /// Whether a source needs a new download actor: none is running for it.
    /// The row that records a source whose download ended: its key, cache
    /// type, content type, length and block count.
    pub fn finish_source<T>(&self, source_key: &str, cache_type: T, meta: &SourceMeta) -> (r:
        SourceRow<T>)
        ensures
            r.key@ == source_key@,
            r.cache_type == cache_type,
            r.content_type@ == meta.content_type@,
            r.content_length == meta.content_length as i64,
            r.block_count == meta.block_count as i32,
    {
        SourceRow {
            key: source_key.to_owned(),
            cache_type,
            content_type: meta.content_type.clone(),
            content_length: meta.content_length as i64,
            block_count: meta.block_count as i32,
        }
    }

    pub fn needs_source_actor(&self, source_key: &str) -> (b: bool)
        ensures
            b == !self.active_sources().contains(source_key@),
    {
        !self.active_sources.contains_key(source_key)
    }

    pub fn set_source_actor(&mut self, source_key: &str, task: H)
        ensures
            final(self).active_sources() == old(self).active_sources().insert(source_key@),
            final(self).sources() == old(self).sources(),
            final(self).blocks() == old(self).blocks(),
            final(self).dir() == old(self).dir(),
    {
        self.active_sources.insert(source_key.to_owned(), task);
        proof {
            assert(self.active_sources@.dom() =~= old(self).active_sources@.dom().insert(source_key@));
        }
    }

    pub fn remove_source_actor(&mut self, source_key: &str)
        ensures
            final(self).active_sources() == old(self).active_sources().remove(source_key@),
            final(self).sources() == old(self).sources(),
            final(self).blocks() == old(self).blocks(),
            final(self).dir() == old(self).dir(),
    {
        self.active_sources.remove(source_key);
        proof {
            assert(self.active_sources@.dom() =~= old(self).active_sources@.dom().remove(source_key@));
        }
    }

    pub fn has_source_actor(&self, source_key: &str) -> (b: bool)
        ensures
            b == self.active_sources().contains(source_key@),
    {
        self.active_sources.contains_key(source_key)
    }
}

/// Writes never shrink what is readable of a block, and after a write to a
/// block being fetched the written range is readable.
pub proof fn lemma_write_keeps_readable(state: Option<BlockState>, offset_in_block: u64, len: u64)
    requires
        offset_in_block + len <= u64::MAX,
    ensures
        readable_in(after_write(state, offset_in_block, len)) >= readable_in(state),
        state matches Some(BlockState::Fetching { .. }) ==> readable_in(
            after_write(state, offset_in_block, len),
        ) >= offset_in_block + len,
{
}

/// Every byte below `content_length` lies in the block that `block_index`
/// names, that block is one of the `block_count` blocks, and the blocks end
/// within `BLOCK_SIZE - 1` bytes after the content: as long as no index
/// reaches 2^32.
pub proof fn lemma_blocks_cover(content_length: u64, offset: u64)
    requires
        offset < content_length,
        content_length <= 0xFFFF_FFFF * BLOCK_SIZE,
    ensures
        ({
            let i = (offset / BLOCK_SIZE) as u32;
            let n = ((content_length + BLOCK_SIZE - 1) / (BLOCK_SIZE as int)) as u32;
            &&& i * BLOCK_SIZE <= offset < i * BLOCK_SIZE + BLOCK_SIZE
            &&& i < n
            &&& n * BLOCK_SIZE >= content_length
            &&& n * BLOCK_SIZE < content_length + BLOCK_SIZE
        }),
{
    let q = (offset as int) / (BLOCK_SIZE as int);
    let n = (content_length + BLOCK_SIZE - 1) / (BLOCK_SIZE as int);
    let bs = BLOCK_SIZE as int;
    let c = content_length as int;
    let o = offset as int;
    assert(q * bs <= o < q * bs + bs && q < 0x1_0000_0000) by (nonlinear_arith)
        requires
            bs == 8388608,
            q == o / bs,
            0 <= o < c <= 0xFFFF_FFFF * bs,
    ;
    assert(n * bs >= c && n * bs < c + bs && n <= 0xFFFF_FFFF && q < n) by (nonlinear_arith)
        requires
            bs == 8388608,
            n == (c + bs - 1) / bs,
            q == o / bs,
            q * bs <= o,
            0 <= o < c <= 0xFFFF_FFFF * bs,
    ;
    assert((q as u32) as int == q);
    assert((n as u32) as int == n);
    assert(((offset / BLOCK_SIZE) as u32) as int == q);
}

} // verus!
