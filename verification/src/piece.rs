//! The downloaded pieces of a cached file: disjoint byte ranges keyed by
//! their offsets, merged with their neighbours as writes arrive.
use std::collections::BTreeMap;
use std::path::PathBuf;
use vstd::prelude::*;

verus! {

/// `std::path::PathBuf`, carried through as an opaque value.
#[verifier::external_type_specification]
#[verifier::external_body]
pub struct ExPathBuf(PathBuf);

/// A byte range `[offset, offset + length)` of a file.
#[derive(Debug, Clone)]
pub struct Piece {
    pub offset: u64,
    pub length: u64,
}

/// The end of a piece, one past its last byte.
pub open spec fn piece_end(p: Piece) -> int {
    p.offset + p.length
}

/// Whether byte `x` lies in piece `p`.
pub open spec fn piece_has(p: Piece, x: int) -> bool {
    p.offset <= x < piece_end(p)
}

/// A file being downloaded: its path, its full length and the pieces of it
/// that have been written, keyed by their offsets.
pub struct FileMeta {
    pub path: PathBuf,
    pub len: u64,
    pub pieces: BTreeMap<u64, Piece>,
}

/// Every piece is stored under its own offset, is not empty, and ends within
/// the range of `u64`.
pub open spec fn pieces_valid(m: Map<u64, Piece>) -> bool {
    forall|k: u64|
        #![trigger m[k]]
        m.contains_key(k) ==> {
            &&& m[k].offset == k
            &&& m[k].length > 0
            &&& piece_end(m[k]) <= u64::MAX
        }
}

/// No two pieces overlap.
pub open spec fn pieces_disjoint(m: Map<u64, Piece>) -> bool {
    forall|a: u64, b: u64|
        #![trigger m[a], m[b]]
        m.contains_key(a) && m.contains_key(b) && a < b ==> piece_end(m[a]) <= b
}

/// No piece ends where another begins: neighbours have been merged.
pub open spec fn pieces_coalesced(m: Map<u64, Piece>) -> bool {
    forall|a: u64, b: u64|
        #![trigger m[a], m[b]]
        m.contains_key(a) && m.contains_key(b) ==> piece_end(m[a]) != b
}

/// The well-formed piece maps: valid and pairwise disjoint.
pub open spec fn pieces_wf(m: Map<u64, Piece>) -> bool {
    pieces_valid(m) && pieces_disjoint(m)
}

/// The set of bytes that the pieces cover.
pub open spec fn covered(m: Map<u64, Piece>) -> Set<int> {
    Set::new(|x: int| exists|k: u64| #[trigger] m.contains_key(k) && piece_has(m[k], x))
}

/// `k` is the greatest key of `m` that is at most `start`.
pub open spec fn is_floor_key(m: Map<u64, Piece>, start: u64, k: u64) -> bool {
    &&& m.contains_key(k)
    &&& k <= start
    &&& forall|k2: u64| #[trigger] m.contains_key(k2) && k2 <= start ==> k2 <= k
}

/// The key of the piece that ends exactly where `p` begins.
pub open spec fn is_left_neighbour(m: Map<u64, Piece>, p: Piece, k: u64) -> bool {
    m.contains_key(k) && piece_end(m[k]) == p.offset
}

/// The piece `p` joined with its neighbours in `m`: it starts where its left
/// neighbour starts, if there is one, and spans the neighbours' lengths too.
pub open spec fn merged_piece(m: Map<u64, Piece>, p: Piece) -> Piece {
    let has_left = exists|k: u64| is_left_neighbour(m, p, k);
    let left = choose|k: u64| is_left_neighbour(m, p, k);
    let right = (p.offset + p.length) as u64;
    let has_right = m.contains_key(right);
    Piece {
        offset: if has_left {
            left
        } else {
            p.offset
        },
        length: (p.length + (if has_left {
            m[left].length as int
        } else {
            0
        }) + (if has_right {
            m[right].length as int
        } else {
            0
        })) as u64,
    }
}

/// The keys of the pieces that touch `p`: the one ending where `p` begins
/// and the one beginning where `p` ends.
pub open spec fn neighbour_keys(m: Map<u64, Piece>, p: Piece) -> Set<u64> {
    Set::new(
        |k: u64| m.contains_key(k) && (piece_end(m[k]) == p.offset || k == piece_end(p)),
    )
}

/// The pieces after writing `p`: its neighbours are removed and the merged
/// piece is stored under its offset.
pub open spec fn combined(m: Map<u64, Piece>, p: Piece) -> Map<u64, Piece> {
    m.remove_keys(neighbour_keys(m, p)).insert(merged_piece(m, p).offset, merged_piece(m, p))
}

/// Exactly one piece, stored under key 0, spanning `len` bytes.
pub open spec fn is_complete(m: Map<u64, Piece>, len: u64) -> bool {
    &&& m.dom().len() == 1
    &&& m.contains_key(0)
    &&& m[0].offset == 0
    &&& m[0].length == len
}

/// The bytes of a piece.
pub open spec fn piece_range(p: Piece) -> Set<int> {
    Set::new(|x: int| piece_has(p, x))
}

/// `p` overlaps no piece of `m`.
pub open spec fn disjoint_from(m: Map<u64, Piece>, p: Piece) -> bool {
    forall|k: u64|
        #![trigger m[k]]
        m.contains_key(k) ==> piece_end(m[k]) <= p.offset || piece_end(p) <= k
}

impl FileMeta {
    pub open spec fn wf(&self) -> bool {
        pieces_wf(self.pieces@)
    }

    /// The piece whose key is the greatest one at most `start`, if that piece
    /// reaches past `start`.
    pub fn longest_piece(&self, start: u64) -> (res: Option<Piece>)
        requires
            pieces_valid(self.pieces@),
        ensures
            res is Some <==> exists|k: u64|
                is_floor_key(self.pieces@, start, k) && piece_end(self.pieces@[k]) > start,
            res matches Some(q) ==> exists|k: u64|
                is_floor_key(self.pieces@, start, k) && q == self.pieces@[k],
    {
        broadcast use vstd::std_specs::btree::group_btree_axioms;
        let mut best: Option<u64> = None;
        let mut best_piece: Option<Piece> = None;
        let ghost m = self.pieces@;
        let ghost mut done: int = 0;
        for (k, v) in it: self.pieces.iter()
            invariant
                m == self.pieces@,
                done == it.index(),
                pieces_valid(m),
                it.seq().len() == m.dom().len(),
                forall|i: int| 0 <= i < it.seq().len() ==> #[trigger] m.contains_key(*it.seq()[i].0)
                    && m[*it.seq()[i].0] == *it.seq()[i].1,
                forall|key: u64| #[trigger] m.contains_key(key) ==> it.seq().contains((&key, &m[key])),
                match best {
                    None => best_piece is None,
                    Some(b) => m.contains_key(b) && b <= start && best_piece == Some(m[b]),
                },
                forall|key: u64|
                    #[trigger] m.contains_key(key) && key <= start ==> (match best {
                        None => false,
                        Some(b) => key <= b,
                    }) || exists|i: int|
                        it.index() <= i < it.seq().len() && *(#[trigger] it.seq()[i]).0 == key,
        {
            let key: u64 = *k;
            let better = match best {
                None => key <= start,
                Some(b) => key <= start && key > b,
            };
            if better {
                best = Some(key);
                best_piece = Some(Piece { offset: v.offset, length: v.length });
            }
            proof {
                done = done + 1;
            }
        }
        assert(done == m.dom().len());
        proof {
            if let Some(b) = best {
                assert(is_floor_key(m, start, b));
                assert forall|k: u64| is_floor_key(m, start, k) implies k == b by {}
            } else {
                assert forall|k: u64| !is_floor_key(m, start, k) by {
                    if m.contains_key(k) && k <= start {
                        assert(false);
                    }
                }
            }
        }
        match best_piece {
            Some(p) => {
                if p.offset + p.length > start {
                    Some(p)
                } else {
                    None
                }
            },
            None => None,
        }
    }

    /// Whether `p` shares a byte with a piece already written.
    pub fn overlaps(&self, p: &Piece) -> (b: bool)
        requires
            pieces_valid(self.pieces@),
            p.offset + p.length <= u64::MAX,
        ensures
            b == !disjoint_from(self.pieces@, *p),
    {
        broadcast use vstd::std_specs::btree::group_btree_axioms;
        let ghost m = self.pieces@;
        let p_end = p.offset + p.length;
        let mut found = false;
        for (k, v) in it: self.pieces.iter()
            invariant
                m == self.pieces@,
                pieces_valid(m),
                p_end == piece_end(*p),
                it.seq().len() == m.dom().len(),
                forall|i: int| 0 <= i < it.seq().len() ==> #[trigger] m.contains_key(*it.seq()[i].0)
                    && m[*it.seq()[i].0] == *it.seq()[i].1,
                forall|key: u64| #[trigger] m.contains_key(key) ==> it.seq().contains((&key, &m[key])),
                found ==> !disjoint_from(m, *p),
                !found ==> forall|key: u64|
                    #[trigger] m.contains_key(key) ==> (piece_end(m[key]) <= p.offset || piece_end(*p)
                        <= key) || exists|i: int|
                        it.index() <= i < it.seq().len() && *(#[trigger] it.seq()[i]).0 == key,
        {
            let key: u64 = *k;
            proof {
                assert(m.contains_key(key));
            }
            if !(v.offset + v.length <= p.offset || p_end <= key) {
                found = true;
            }
        }
        found
    }

    /// Whether the file is complete: one piece covers all of it.
    pub fn is_end(&self) -> (b: bool)
        ensures
            b == is_complete(self.pieces@, self.len),
    {
        broadcast use vstd::std_specs::btree::group_btree_axioms;
        return self.pieces.len() == 1 && match self.pieces.get(&0) {
            Some(v) => v.offset == 0 && v.length == self.len,
            None => false,
        };
    }

    /// Records that `p` has been written: `p` is merged with the piece that
    /// ends where it begins and the piece that begins where it ends.
    pub fn combine(&mut self, p: Piece)
        requires
            old(self).wf(),
            p.offset + p.length <= u64::MAX,
        ensures
            final(self).pieces@ == combined(old(self).pieces@, p),
            p.length > 0 && disjoint_from(old(self).pieces@, p) ==> final(self).wf(),
            final(self).path == old(self).path,
            final(self).len == old(self).len,
    {
        broadcast use vstd::std_specs::btree::group_btree_axioms;
        let ghost m = self.pieces@;
        let ghost has_left = exists|k: u64| is_left_neighbour(m, p, k);
        let ghost left = choose|k: u64| is_left_neighbour(m, p, k);
        let ghost right = (p.offset + p.length) as u64;
        let ghost has_right = m.contains_key(right);
        proof {
            lemma_left_neighbour_unique(m, p);
            if has_left {
                assert(is_left_neighbour(m, p, left));
            }
        }
        let mut merged = Piece { offset: p.offset, length: p.length };
        let mut to_remove: Vec<u64> = Vec::new();
        let ghost mut seen: Set<u64> = Set::empty();
        for (offset, existing) in it: self.pieces.iter()
            invariant
                m == self.pieces@,
                self.path == old(self).path,
                self.len == old(self).len,
                pieces_wf(m),
                p.offset + p.length <= u64::MAX,
                right == p.offset + p.length,
                has_right == m.contains_key(right),
                has_left == exists|k: u64| is_left_neighbour(m, p, k),
                has_left ==> is_left_neighbour(m, p, left),
                forall|k: u64| is_left_neighbour(m, p, k) ==> k == left,
                it.seq().len() == m.dom().len(),
                it.seq().no_duplicates(),
                forall|i: int| 0 <= i < it.seq().len() ==> #[trigger] m.contains_key(*it.seq()[i].0)
                    && m[*it.seq()[i].0] == *it.seq()[i].1,
                forall|key: u64| #[trigger] m.contains_key(key) ==> it.seq().contains((&key, &m[key])),
                forall|key: u64|
                    seen.contains(key) <==> exists|i: int|
                        0 <= i < it.index() && *(#[trigger] it.seq()[i]).0 == key,
                merged.offset == (if has_left && seen.contains(left) {
                    left
                } else {
                    p.offset
                }),
                merged.length == p.length + (if has_left && seen.contains(left) {
                    m[left].length as int
                } else {
                    0
                }) + (if has_right && seen.contains(right) {
                    m[right].length as int
                } else {
                    0
                }),
                forall|key: u64|
                    #![trigger to_remove@.contains(key)]
                    #![trigger seen.contains(key)]
                    to_remove@.contains(key) <==> neighbour_keys(m, p).contains(key) && seen.contains(
                        key,
                    ),
        {
            let key: u64 = *offset;
            proof {
                assert(!seen.contains(key)) by {
                    if seen.contains(key) {
                        let j = choose|j: int| 0 <= j < it.index() && *it.seq()[j].0 == key;
                        assert(it.seq()[j] == it.seq()[it.index() as int]);
                    }
                }
                assert(m.contains_key(key));
                assert(*existing == m[key]);
                if piece_end(m[key]) == p.offset {
                    assert(is_left_neighbour(m, p, key));
                }
                if has_left && has_right {
                    assert(left < right);
                }
            }
            let ghost old_remove = to_remove@;
            if existing.offset + existing.length == p.offset {
                merged.offset = existing.offset;
                merged.length = merged.length + existing.length;
                to_remove.push(key);
            } else if p.offset + p.length == existing.offset {
                merged.length = merged.length + existing.length;
                to_remove.push(key);
            }
            proof {
                let old_seen = seen;
                seen = seen.insert(key);
                let pushed = to_remove@.len() > old_remove.len();
                if pushed {
                    assert(to_remove@ == old_remove.push(key));
                    assert(neighbour_keys(m, p).contains(key));
                } else {
                    assert(to_remove@ == old_remove);
                    assert(!neighbour_keys(m, p).contains(key));
                }
                assert forall|k2: u64|
                    #![trigger to_remove@.contains(k2)]
                    #![trigger seen.contains(k2)]
                    to_remove@.contains(k2) <==> neighbour_keys(m, p).contains(k2) && seen.contains(
                        k2,
                    ) by {
                    assert(old_remove.contains(k2) <==> neighbour_keys(m, p).contains(k2)
                        && old_seen.contains(k2));
                    if pushed {
                        if to_remove@.contains(k2) && k2 != key {
                            let j = choose|j: int| 0 <= j < to_remove@.len() && to_remove@[j] == k2;
                            assert(old_remove[j] == k2);
                            assert(old_remove.contains(k2));
                        }
                        if old_remove.contains(k2) {
                            let j = choose|j: int| 0 <= j < old_remove.len() && old_remove[j] == k2;
                            assert(to_remove@[j] == k2);
                        }
                        if k2 == key {
                            assert(to_remove@[old_remove.len() as int] == k2);
                        }
                    }
                }
            }
        }
        proof {
            assert forall|k: u64| m.contains_key(k) implies seen.contains(k) by {

            }
        }
        let mut i: usize = 0;
        while i < to_remove.len()
            invariant
                i <= to_remove@.len(),
                self.path == old(self).path,
                self.len == old(self).len,
                self.pieces@ == m.remove_keys(to_remove@.take(i as int).to_set()),
            decreases to_remove@.len() - i,
        {
            let ghost before = self.pieces@;
            let key = to_remove[i];
            self.pieces.remove(&key);
            proof {
                assert(to_remove@.take(i + 1) =~= to_remove@.take(i as int).push(key));
                assert forall|x: u64| #[trigger] to_remove@.take(i + 1).to_set().contains(x) <==> to_remove@.take(i as int).to_set().insert(key).contains(x) by {
                    if to_remove@.take(i + 1).contains(x) && x != key {
                        let j = choose|j: int| 0 <= j < i + 1 && #[trigger] to_remove@.take(i + 1)[j] == x;
                        assert(to_remove@.take(i as int)[j] == x);
                    }
                    if to_remove@.take(i as int).contains(x) {
                        let j = choose|j: int| 0 <= j < i && #[trigger] to_remove@.take(i as int)[j] == x;
                        assert(to_remove@.take(i + 1)[j] == x);
                    }
                    if x == key {
                        assert(to_remove@.take(i + 1)[i as int] == x);
                    }
                }
                assert(to_remove@.take(i + 1).to_set() =~= to_remove@.take(i as int).to_set().insert(key));
                assert(self.pieces@ =~= m.remove_keys(to_remove@.take(i + 1).to_set()));
            }
            i = i + 1;
        }
        proof {
            assert(to_remove@.take(to_remove@.len() as int) == to_remove@);
            assert forall|x: u64| #[trigger] to_remove@.to_set().contains(x) <==> neighbour_keys(m, p).contains(x) by {
                if neighbour_keys(m, p).contains(x) {
                    assert(m.contains_key(x));
                    assert(seen.contains(x));
                    assert(to_remove@.contains(x));
                }
                if to_remove@.contains(x) {
                    assert(neighbour_keys(m, p).contains(x));
                }
            }
            assert(to_remove@.to_set() =~= neighbour_keys(m, p));
        }
        let ghost mp = merged_piece(m, p);
        proof {
            assert(merged.offset == mp.offset);
            assert(merged.length == mp.length);
        }
        self.pieces.insert(merged.offset, merged);
        proof {
            assert(self.pieces@ =~= combined(m, p));
            if p.length > 0 && disjoint_from(m, p) {
                lemma_combine_keeps_wf(m, p);
            }
        }
    }
}

/// Under well-formedness at most one piece ends where `p` begins.
proof fn lemma_left_neighbour_unique(m: Map<u64, Piece>, p: Piece)
    requires
        pieces_wf(m),
    ensures
        forall|a: u64, b: u64|
            is_left_neighbour(m, p, a) && is_left_neighbour(m, p, b) ==> a == b,
{
    assert forall|a: u64, b: u64|
        is_left_neighbour(m, p, a) && is_left_neighbour(m, p, b) implies a == b by {
        if a < b {
            assert(piece_end(m[a]) <= b);
        } else if b < a {
            assert(piece_end(m[b]) <= a);
        }
    }
}


/// What `merged_piece` spans: `p`, its left neighbour if any, and its right
/// neighbour if any, which lie next to each other.
proof fn lemma_merged_geometry(m: Map<u64, Piece>, p: Piece)
    requires
        pieces_wf(m),
        p.offset + p.length <= u64::MAX,
    ensures
        ({
            let mp = merged_piece(m, p);
            let has_left = exists|k: u64| is_left_neighbour(m, p, k);
            let left = choose|k: u64| is_left_neighbour(m, p, k);
            let right = (p.offset + p.length) as u64;
            let has_right = m.contains_key(right);
            &&& has_left ==> is_left_neighbour(m, p, left) && mp.offset == left
            &&& !has_left ==> mp.offset == p.offset
            &&& piece_end(mp) == (if has_right {
                piece_end(m[right])
            } else {
                piece_end(p)
            })
            &&& piece_end(mp) <= u64::MAX
            &&& forall|x: int|
                piece_has(mp, x) <==> piece_has(p, x) || (has_left && piece_has(m[left], x)) || (
                has_right && piece_has(m[right], x))
        }),
{
    let has_left = exists|k: u64| is_left_neighbour(m, p, k);
    let left = choose|k: u64| is_left_neighbour(m, p, k);
    if has_left {
        assert(is_left_neighbour(m, p, left));
    }
}

/// Writing `p` where nothing has been written yet adds exactly the bytes of
/// `p` to the covered bytes.
pub proof fn lemma_combine_covers(m: Map<u64, Piece>, p: Piece)
    requires
        pieces_wf(m),
        p.length > 0,
        p.offset + p.length <= u64::MAX,
        disjoint_from(m, p),
    ensures
        covered(combined(m, p)) == covered(m).union(piece_range(p)),
{
    lemma_merged_geometry(m, p);
    let mp = merged_piece(m, p);
    let c = combined(m, p);
    let has_left = exists|k: u64| is_left_neighbour(m, p, k);
    let left = choose|k: u64| is_left_neighbour(m, p, k);
    let right = (p.offset + p.length) as u64;
    let has_right = m.contains_key(right);
    assert(!m.contains_key(p.offset)) by {
        if m.contains_key(p.offset) {
            assert(piece_end(m[p.offset]) <= p.offset || piece_end(p) <= p.offset);
        }
    }
    assert forall|x: int| covered(c).contains(x) implies covered(m).union(piece_range(p)).contains(
        x,
    ) by {
        let k = choose|k: u64| #[trigger] c.contains_key(k) && piece_has(c[k], x);
        if k == mp.offset {
            assert(piece_has(mp, x));
            if has_left && piece_has(m[left], x) {
                assert(m.contains_key(left) && piece_has(m[left], x));
            } else if has_right && piece_has(m[right], x) {
                assert(m.contains_key(right) && piece_has(m[right], x));
            } else {
                assert(piece_range(p).contains(x));
            }
        } else {
            assert(m.contains_key(k) && c[k] == m[k]);
        }
    }
    assert forall|x: int| covered(m).union(piece_range(p)).contains(x) implies covered(c).contains(
        x,
    ) by {
        if piece_range(p).contains(x) {
            assert(c.contains_key(mp.offset) && piece_has(c[mp.offset], x));
        } else {
            let k = choose|k: u64| #[trigger] m.contains_key(k) && piece_has(m[k], x);
            if neighbour_keys(m, p).contains(k) {
                if piece_end(m[k]) == p.offset {
                    assert(is_left_neighbour(m, p, k));
                    lemma_left_neighbour_unique(m, p);
                    assert(k == left);
                }
                assert(piece_has(mp, x));
                assert(c.contains_key(mp.offset) && piece_has(c[mp.offset], x));
            } else {
                assert(k != mp.offset);
                assert(c.contains_key(k) && c[k] == m[k]);
            }
        }
    }
    assert(covered(c) =~= covered(m).union(piece_range(p)));
}

/// Writing a non-empty `p` that overlaps nothing keeps the pieces well-formed,
/// and keeps them coalesced when they were.
pub proof fn lemma_combine_keeps_wf(m: Map<u64, Piece>, p: Piece)
    requires
        pieces_wf(m),
        p.length > 0,
        p.offset + p.length <= u64::MAX,
        disjoint_from(m, p),
    ensures
        pieces_wf(combined(m, p)),
        pieces_coalesced(m) ==> pieces_coalesced(combined(m, p)),
{
    lemma_merged_geometry(m, p);
    lemma_left_neighbour_unique(m, p);
    let mp = merged_piece(m, p);
    let c = combined(m, p);
    let has_left = exists|k: u64| is_left_neighbour(m, p, k);
    let left = choose|k: u64| is_left_neighbour(m, p, k);
    let right = (p.offset + p.length) as u64;
    let has_right = m.contains_key(right);
    assert(!m.contains_key(p.offset)) by {
        if m.contains_key(p.offset) {
            assert(piece_end(m[p.offset]) <= p.offset || piece_end(p) <= p.offset);
        }
    }
    // every other piece lies wholly before or wholly after the merged piece
    assert forall|k: u64| #[trigger] c.contains_key(k) && k != mp.offset implies (piece_end(c[k])
        <= mp.offset || piece_end(mp) <= k) && m.contains_key(k) && c[k] == m[k]
        && !neighbour_keys(m, p).contains(k) by {
        assert(m.contains_key(k));
        if piece_end(m[k]) == p.offset {
            assert(is_left_neighbour(m, p, k));
        }
        assert(piece_end(m[k]) <= p.offset || piece_end(p) <= k);
        if has_left {
            if k < left {
                assert(piece_end(m[k]) <= left);
            } else {
                assert(piece_end(m[left]) <= k);
            }
        }
        if has_right {
            if k < right {
                assert(piece_end(m[k]) <= right);
            } else {
                assert(piece_end(m[right]) <= k);
            }
        }
    }
    assert(pieces_valid(c));
    assert forall|a: u64, b: u64|
        #![trigger c[a], c[b]]
        c.contains_key(a) && c.contains_key(b) && a < b implies piece_end(c[a]) <= b by {
        if a != mp.offset && b != mp.offset {
            assert(piece_end(m[a]) <= b);
        }
    }
    if pieces_coalesced(m) {
        assert forall|a: u64, b: u64|
            #![trigger c[a], c[b]]
            c.contains_key(a) && c.contains_key(b) implies piece_end(c[a]) != b by {
            if a == mp.offset && b != mp.offset {
                if has_right {
                    assert(piece_end(m[right]) != b);
                }
            } else if a != mp.offset && b == mp.offset {
                if has_left {
                    assert(piece_end(m[a]) != left);
                } else if piece_end(m[a]) == p.offset {
                    assert(is_left_neighbour(m, p, a));
                }
            } else if a != mp.offset && b != mp.offset {
                assert(piece_end(m[a]) != b);
            } else {
                assert(piece_end(mp) > mp.offset);
            }
        }
    }
}

/// With disjoint pieces, `longest_piece(start)` finds a piece exactly when
/// `start` has been written, and the piece it finds holds `start`.
pub proof fn lemma_longest_piece_covers(m: Map<u64, Piece>, start: u64)
    requires
        pieces_wf(m),
    ensures
        (exists|k: u64| is_floor_key(m, start, k) && piece_end(m[k]) > start) <==> covered(
            m,
        ).contains(start as int),
        forall|k: u64|
            is_floor_key(m, start, k) && piece_end(m[k]) > start ==> piece_has(m[k], start as int),
{
    if covered(m).contains(start as int) {
        let k = choose|k: u64| #[trigger] m.contains_key(k) && piece_has(m[k], start as int);
        assert forall|k3: u64| #[trigger] m.contains_key(k3) && k3 <= start implies k3 <= k by {
            if k3 > k {
                assert(m[k3].offset == k3);
                assert(piece_end(m[k]) <= k3);
            }
        }
        assert(is_floor_key(m, start, k) && piece_end(m[k]) > start);
    }
    if exists|k: u64| is_floor_key(m, start, k) && piece_end(m[k]) > start {
        let k = choose|k: u64| is_floor_key(m, start, k) && piece_end(m[k]) > start;
        assert(m.contains_key(k) && piece_has(m[k], start as int));
    }
}

/// With well-formed, coalesced pieces, a file is complete exactly when its
/// pieces cover every byte of it and it is not empty.
pub proof fn lemma_complete_iff_covered(m: Map<u64, Piece>, len: u64)
    requires
        pieces_wf(m),
        pieces_coalesced(m),
        m.dom().finite(),
    ensures
        is_complete(m, len) <==> len > 0 && covered(m) == Set::new(|x: int| 0 <= x < len),
{
    let full = Set::new(|x: int| 0 <= x < len);
    if is_complete(m, len) {
        assert forall|k: u64| m.contains_key(k) implies k == 0 by {
            if k != 0 {
                assert(m.dom().remove(0).contains(k));
                assert(m.dom().remove(0).len() == 0);
            }
        }
        assert forall|x: int| covered(m).contains(x) <==> full.contains(x) by {
            if full.contains(x) {
                assert(m.contains_key(0) && piece_has(m[0], x));
            }
        }
        assert(covered(m) =~= full);
    }
    if len > 0 && covered(m) == full {
        assert(full.contains(0));
        let k0 = choose|k: u64| #[trigger] m.contains_key(k) && piece_has(m[k], 0);
        assert(k0 == 0);
        let e = piece_end(m[0]);
        assert(full.contains(e - 1));
        if e < len {
            assert(full.contains(e));
            let k2 = choose|k: u64| #[trigger] m.contains_key(k) && piece_has(m[k], e);
            assert(k2 != 0);
            assert(piece_end(m[0]) <= k2);
            assert(piece_end(m[0]) != k2);
        }
        assert forall|k: u64| m.contains_key(k) implies k == 0 by {
            if k != 0 {
                assert(m[k].offset == k);
                assert(piece_end(m[0]) <= k);
                assert(covered(m).contains(k as int)) by {
                    assert(piece_has(m[k], k as int));
                }
            }
        }
        assert(m.dom() =~= set![0u64]);
    }
}


/// The pieces after writing each of `ps` in turn, starting from `m`.
pub open spec fn combine_all(m: Map<u64, Piece>, ps: Seq<Piece>) -> Map<u64, Piece>
    decreases ps.len(),
{
    if ps.len() == 0 {
        m
    } else {
        combined(combine_all(m, ps.drop_last()), ps.last())
    }
}

/// The bytes of all of `ps`.
pub open spec fn ranges_union(ps: Seq<Piece>) -> Set<int>
    decreases ps.len(),
{
    if ps.len() == 0 {
        Set::empty()
    } else {
        ranges_union(ps.drop_last()).union(piece_range(ps.last()))
    }
}

/// The writes `ps`: each non-empty, ending within `u64`, and no two sharing
/// a byte.
pub open spec fn writes_apart(ps: Seq<Piece>) -> bool {
    &&& forall|i: int|
        #![trigger ps[i]]
        0 <= i < ps.len() ==> ps[i].length > 0 && piece_end(ps[i]) <= u64::MAX
    &&& forall|i: int, j: int, x: int|
        #![trigger piece_has(ps[i], x), piece_has(ps[j], x)]
        0 <= i < j < ps.len() ==> !(piece_has(ps[i], x) && piece_has(ps[j], x))
}

proof fn lemma_in_union(ps: Seq<Piece>, x: int)
    ensures
        ranges_union(ps).contains(x) <==> exists|i: int|
            0 <= i < ps.len() && #[trigger] piece_has(ps[i], x),
    decreases ps.len(),
{
    if ps.len() > 0 {
        lemma_in_union(ps.drop_last(), x);
        if exists|i: int| 0 <= i < ps.len() && #[trigger] piece_has(ps[i], x) {
            let i = choose|i: int| 0 <= i < ps.len() && #[trigger] piece_has(ps[i], x);
            if i < ps.len() - 1 {
                assert(ps.drop_last()[i] == ps[i]);
            } else {
                assert(piece_range(ps.last()).contains(x));
            }
        }
        if ranges_union(ps.drop_last()).contains(x) {
            let i = choose|i: int|
                0 <= i < ps.drop_last().len() && #[trigger] piece_has(ps.drop_last()[i], x);
            assert(ps.drop_last()[i] == ps[i]);
        }
        if piece_range(ps.last()).contains(x) {
            assert(piece_has(ps[ps.len() - 1], x));
        }
    }
}

proof fn lemma_combine_all_ok(ps: Seq<Piece>)
    requires
        writes_apart(ps),
    ensures
        pieces_wf(combine_all(Map::empty(), ps)),
        pieces_coalesced(combine_all(Map::empty(), ps)),
        combine_all(Map::empty(), ps).dom().finite(),
        covered(combine_all(Map::empty(), ps)) == ranges_union(ps),
    decreases ps.len(),
{
    let e = Map::<u64, Piece>::empty();
    if ps.len() == 0 {
        assert(covered(e) =~= Set::<int>::empty());
    } else {
        let front = ps.drop_last();
        let p = ps.last();
        assert forall|i: int| 0 <= i < front.len() implies #[trigger] front[i].length > 0
            && piece_end(front[i]) <= u64::MAX by {
            assert(front[i] == ps[i]);
        }
        assert forall|i: int, j: int, x: int|
            0 <= i < j < front.len() implies !(#[trigger] piece_has(front[i], x)
            && #[trigger] piece_has(front[j], x)) by {
            assert(front[i] == ps[i]);
            assert(front[j] == ps[j]);
        }
        lemma_combine_all_ok(front);
        let m = combine_all(e, front);
        assert(ps[ps.len() - 1] == p);
        assert(p.length > 0 && piece_end(p) <= u64::MAX);
        assert(disjoint_from(m, p)) by {
            assert forall|k: u64| m.contains_key(k) implies piece_end(m[k]) <= p.offset
                || piece_end(p) <= k by {
                if !(piece_end(m[k]) <= p.offset || piece_end(p) <= k) {
                    let x: int = if k >= p.offset {
                        k as int
                    } else {
                        p.offset as int
                    };
                    assert(m[k].offset == k && m[k].length > 0);
                    assert(piece_has(m[k], x));
                    assert(covered(m).contains(x));
                    lemma_in_union(front, x);
                    let i = choose|i: int| 0 <= i < front.len() && #[trigger] piece_has(front[i], x);
                    assert(front[i] == ps[i]);
                    assert(piece_has(ps[i], x) && piece_has(ps[ps.len() - 1], x));
                }
            }
        }
        lemma_combine_keeps_wf(m, p);
        lemma_combine_covers(m, p);
        let c = combined(m, p);
        assert(c.dom() =~= m.dom().difference(neighbour_keys(m, p)).insert(merged_piece(m, p).offset));
    }
}

/// Writing pieces that share no byte, one after another, into an empty file
/// of `len` bytes: the file is complete exactly when the pieces written cover
/// every byte of it (and it is not empty); the pieces stay well-formed and
/// cover exactly the bytes written.
pub proof fn lemma_writes_complete_the_file(ps: Seq<Piece>, len: u64)
    requires
        writes_apart(ps),
    ensures
        pieces_wf(combine_all(Map::empty(), ps)),
        covered(combine_all(Map::empty(), ps)) == ranges_union(ps),
        is_complete(combine_all(Map::empty(), ps), len) <==> len > 0 && ranges_union(ps)
            == Set::new(|x: int| 0 <= x < len),
{
    lemma_combine_all_ok(ps);
    lemma_complete_iff_covered(combine_all(Map::empty(), ps), len);
}

} // verus!
