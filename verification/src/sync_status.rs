//! The sync status of each provider, as the backend folds the provider's sync
//! commits into it and reports it to clients.
use std::collections::BTreeMap;
use vstd::prelude::*;

verus! {

/// Where a provider's sync stands.
#[derive(Debug, Clone, Copy, PartialEq, Eq, Structural)]
pub enum SyncState {
    /// No sync has been reported yet: the default.
    Idle,
    Syncing,
    Finished,
}

/// The sync status of one provider.
#[derive(Debug, Clone, Copy, PartialEq, Eq, Structural)]
pub struct ProviderSyncStatus {
    pub id: i64,
    pub state: SyncState,
    pub album: i64,
    pub artist: i64,
    pub song: i64,
}

impl Default for ProviderSyncStatus {
    fn default() -> (s: Self)
        ensures
            s == (ProviderSyncStatus { id: 0, state: SyncState::Idle, album: 0, artist: 0, song: 0 }),
    {
        ProviderSyncStatus { id: 0, state: SyncState::Idle, album: 0, artist: 0, song: 0 }
    }
}

/// What a provider reports while it syncs.
#[derive(Debug, Clone, Copy, PartialEq, Eq, Structural)]
pub enum SyncCommit {
    Start,
    End,
    AddAlbum(i64),
    AddArtist(i64),
    AddSong(i64),
}

/// A status after a commit: a start resets it (keeping the provider id) and
/// marks it syncing, an end marks it finished, and the other commits add to
/// their counts.
pub open spec fn merged(v: ProviderSyncStatus, m: SyncCommit) -> ProviderSyncStatus {
    match m {
        SyncCommit::Start => ProviderSyncStatus {
            id: v.id,
            state: SyncState::Syncing,
            album: 0,
            artist: 0,
            song: 0,
        },
        SyncCommit::End => ProviderSyncStatus { state: SyncState::Finished, ..v },
        SyncCommit::AddAlbum(n) => ProviderSyncStatus { album: (v.album + n) as i64, ..v },
        SyncCommit::AddArtist(n) => ProviderSyncStatus { artist: (v.artist + n) as i64, ..v },
        SyncCommit::AddSong(n) => ProviderSyncStatus { song: (v.song + n) as i64, ..v },
    }
}

/// The commit does not overflow a count.
pub open spec fn merge_fits(v: ProviderSyncStatus, m: SyncCommit) -> bool {
    match m {
        SyncCommit::AddAlbum(n) => i64::MIN <= v.album + n <= i64::MAX,
        SyncCommit::AddArtist(n) => i64::MIN <= v.artist + n <= i64::MAX,
        SyncCommit::AddSong(n) => i64::MIN <= v.song + n <= i64::MAX,
        _ => true,
    }
}

pub fn merge_sync_status(v: &mut ProviderSyncStatus, m: SyncCommit)
    requires
        merge_fits(*old(v), m),
    ensures
        *final(v) == merged(*old(v), m),
        m matches SyncCommit::AddAlbum(n) ==> final(v).album == old(v).album + n,
        m matches SyncCommit::AddArtist(n) ==> final(v).artist == old(v).artist + n,
        m matches SyncCommit::AddSong(n) ==> final(v).song == old(v).song + n,
        final(v).id == old(v).id,
{
    match m {
        SyncCommit::Start => {
            let id = v.id;
            *v = ProviderSyncStatus::default();
            v.id = id;
            v.state = SyncState::Syncing;
        },
        SyncCommit::End => {
            v.state = SyncState::Finished;
        },
        SyncCommit::AddAlbum(n) => {
            v.album = v.album + n;
        },
        SyncCommit::AddArtist(n) => {
            v.artist = v.artist + n;
        },
        SyncCommit::AddSong(n) => {
            v.song = v.song + n;
        },
    }
}

/// The backend's record of the sync status of every provider.
pub struct ProcessContext {
    sync_status: BTreeMap<i64, ProviderSyncStatus>,
}

/// The status of a provider that has none yet: the default, with its id.
pub open spec fn fresh_status(id: i64) -> ProviderSyncStatus {
    ProviderSyncStatus { id, state: SyncState::Idle, album: 0, artist: 0, song: 0 }
}

impl ProcessContext {
    pub closed spec fn statuses(&self) -> Map<i64, ProviderSyncStatus> {
        self.sync_status@
    }

    pub fn new() -> (c: Self)
        ensures
            c.statuses() == Map::<i64, ProviderSyncStatus>::empty(),
    {
        ProcessContext { sync_status: BTreeMap::new() }
    }

    /// The status of provider `id`, if it has reported any.
    pub fn status(&self, id: i64) -> (s: Option<ProviderSyncStatus>)
        ensures
            s == if self.statuses().contains_key(id) {
                Some(self.statuses()[id])
            } else {
                None
            },
    {
        broadcast use vstd::std_specs::btree::group_btree_axioms;
        match self.sync_status.get(&id) {
            Some(v) => Some(*v),
            None => None,
        }
    }

    /// Folds a sync commit of provider `id` into its status, starting from
    /// the fresh status when it has none; returns the new status, which the
    /// backend sends to clients.
    pub fn apply_sync_commit(&mut self, id: i64, commit: SyncCommit) -> (s: ProviderSyncStatus)
        requires
            merge_fits(
                if old(self).statuses().contains_key(id) {
                    old(self).statuses()[id]
                } else {
                    fresh_status(id)
                },
                commit,
            ),
        ensures
            s == merged(
                if old(self).statuses().contains_key(id) {
                    old(self).statuses()[id]
                } else {
                    fresh_status(id)
                },
                commit,
            ),
            final(self).statuses() == old(self).statuses().insert(id, s),
    {
        broadcast use vstd::std_specs::btree::group_btree_axioms;
        let mut v = match self.sync_status.get(&id) {
            Some(v) => *v,
            None => {
                let mut p = ProviderSyncStatus::default();
                p.id = id;
                p
            },
        };
        merge_sync_status(&mut v, commit);
        self.sync_status.insert(id, v);
        v
    }
}

/// A start wipes out whatever was counted before: the status after a start
/// does not depend on the status before it, beyond the provider id.
pub proof fn lemma_start_resets(a: ProviderSyncStatus, b: ProviderSyncStatus)
    requires
        a.id == b.id,
    ensures
        merged(a, SyncCommit::Start) == merged(b, SyncCommit::Start),
{
}

/// An add commit adds its amount to its own count and leaves the provider,
/// the state and the other counts as they were.
pub proof fn lemma_add_commit_adds(v: ProviderSyncStatus, m: SyncCommit)
    requires
        merge_fits(v, m),
    ensures
        m matches SyncCommit::AddAlbum(n) ==> merged(v, m) == (ProviderSyncStatus {
            album: (v.album + n) as i64,
            ..v
        }) && merged(v, m).album == v.album + n,
        m matches SyncCommit::AddArtist(n) ==> merged(v, m) == (ProviderSyncStatus {
            artist: (v.artist + n) as i64,
            ..v
        }) && merged(v, m).artist == v.artist + n,
        m matches SyncCommit::AddSong(n) ==> merged(v, m) == (ProviderSyncStatus {
            song: (v.song + n) as i64,
            ..v
        }) && merged(v, m).song == v.song + n,
{
}

/// The status after folding the commits `ms`, one after the other, into `v`.
pub open spec fn merged_all(v: ProviderSyncStatus, ms: Seq<SyncCommit>) -> ProviderSyncStatus
    decreases ms.len(),
{
    if ms.len() == 0 {
        v
    } else {
        merged(merged_all(v, ms.drop_last()), ms.last())
    }
}

/// The commit adds to a count.
pub open spec fn is_add(m: SyncCommit) -> bool {
    m is AddAlbum || m is AddArtist || m is AddSong
}

/// The sum of the amounts of the album, artist and song commits of `ms`.
pub open spec fn added_counts(ms: Seq<SyncCommit>) -> (int, int, int)
    decreases ms.len(),
{
    if ms.len() == 0 {
        (0, 0, 0)
    } else {
        let (a, r, s) = added_counts(ms.drop_last());
        match ms.last() {
            SyncCommit::AddAlbum(n) => (a + n, r, s),
            SyncCommit::AddArtist(n) => (a, r + n, s),
            SyncCommit::AddSong(n) => (a, r, s + n),
            _ => (a, r, s),
        }
    }
}

/// Every running total of the commits `ms` fits in an `i64`.
pub open spec fn running_totals_fit(ms: Seq<SyncCommit>) -> bool {
    forall|k: int|
        0 <= k <= ms.len() ==> {
            let (a, r, s) = #[trigger] added_counts(ms.take(k));
            &&& i64::MIN <= a <= i64::MAX
            &&& i64::MIN <= r <= i64::MAX
            &&& i64::MIN <= s <= i64::MAX
        }
}

/// After a start and then add commits only, the provider is syncing and
/// each count is the sum of the amounts its commits added, whatever the
/// status was before the start.
pub proof fn lemma_counts_after_start(v: ProviderSyncStatus, ms: Seq<SyncCommit>)
    requires
        forall|i: int| 0 <= i < ms.len() ==> is_add(#[trigger] ms[i]),
        running_totals_fit(ms),
    ensures
        merged_all(v, seq![SyncCommit::Start] + ms) == (ProviderSyncStatus {
            id: v.id,
            state: SyncState::Syncing,
            album: added_counts(ms).0 as i64,
            artist: added_counts(ms).1 as i64,
            song: added_counts(ms).2 as i64,
        }),
        merged_all(v, seq![SyncCommit::Start] + ms).album == added_counts(ms).0,
        merged_all(v, seq![SyncCommit::Start] + ms).artist == added_counts(ms).1,
        merged_all(v, seq![SyncCommit::Start] + ms).song == added_counts(ms).2,
    decreases ms.len(),
{
    let all = seq![SyncCommit::Start] + ms;
    assert(ms.take(ms.len() as int) =~= ms);
    assert(added_counts(ms.take(ms.len() as int)) == added_counts(ms));
    if ms.len() == 0 {
        assert(all.drop_last() =~= Seq::<SyncCommit>::empty());
        assert(all.last() == SyncCommit::Start);
        assert(merged_all(v, all.drop_last()) == v);
        assert(added_counts(ms) == (0int, 0int, 0int));
    } else {
        let init = ms.drop_last();
        assert forall|i: int| 0 <= i < init.len() implies is_add(#[trigger] init[i]) by {
            assert(init[i] == ms[i]);
        }
        assert forall|k: int| 0 <= k <= init.len() implies {
            let (a, r, s) = #[trigger] added_counts(init.take(k));
            &&& i64::MIN <= a <= i64::MAX
            &&& i64::MIN <= r <= i64::MAX
            &&& i64::MIN <= s <= i64::MAX
        } by {
            assert(init.take(k) =~= ms.take(k));
            assert(added_counts(ms.take(k)) == added_counts(init.take(k)));
        }
        lemma_counts_after_start(v, init);
        assert(all.drop_last() =~= seq![SyncCommit::Start] + init);
        assert(all.last() == ms.last());
        assert(ms.last() == ms[ms.len() - 1]);
        assert(init.take(init.len() as int) =~= init);
        assert(added_counts(init.take(init.len() as int)) == added_counts(init));
        let prev = merged_all(v, seq![SyncCommit::Start] + init);
        assert(merged_all(v, all) == merged(prev, ms.last()));
        assert(is_add(ms[ms.len() - 1]));
    }
}

} // verus!
