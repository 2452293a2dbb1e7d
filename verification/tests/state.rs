use qcm_backend::global::{context, reg_context, unreg_context, Global};
use qcm_backend::source_actor::{actor_start, actor_step, plan_chunk, ActorAction, ActorEvent, ActorState};
use qcm_backend::block_store::BLOCK_SIZE;
use qcm_backend::sync_status::{
    merge_sync_status, ProcessContext, ProviderSyncStatus, SyncCommit, SyncState,
};
use qcm_backend::task::{Task, TaskIds, TaskManager, TaskManagerEvent};
use std::sync::Arc;

#[test]
fn sync_commits_fold_into_the_status() {
    let mut v = ProviderSyncStatus::default();
    assert_eq!(v.state, SyncState::Idle);
    merge_sync_status(&mut v, SyncCommit::AddAlbum(3));
    merge_sync_status(&mut v, SyncCommit::AddSong(5));
    merge_sync_status(&mut v, SyncCommit::AddArtist(2));
    assert_eq!((v.album, v.song, v.artist), (3, 5, 2));
    merge_sync_status(&mut v, SyncCommit::End);
    assert_eq!(v.state, SyncState::Finished);
    merge_sync_status(&mut v, SyncCommit::Start);
    assert_eq!(
        v,
        ProviderSyncStatus { id: 0, state: SyncState::Syncing, album: 0, artist: 0, song: 0 }
    );
}

#[test]
fn process_context_keeps_one_status_per_provider() {
    let mut c = ProcessContext::new();
    assert_eq!(c.status(7), None);
    let s = c.apply_sync_commit(7, SyncCommit::AddSong(4));
    assert_eq!(s.id, 7);
    assert_eq!(s.song, 4);
    assert_eq!(s.state, SyncState::Idle);
    let s = c.apply_sync_commit(7, SyncCommit::Start);
    assert_eq!((s.id, s.song, s.state), (7, 0, SyncState::Syncing));
    assert_eq!(c.status(7), Some(s));
    assert_eq!(c.status(8), None);
}

#[test]
fn contexts_by_port() {
    let mut g: Global<&str> = Global::new();
    assert!(context(&g, 80).is_none());
    reg_context(&mut g, 80, Arc::new("a"));
    reg_context(&mut g, 81, Arc::new("b"));
    assert_eq!(**context(&g, 80).unwrap(), "a");
    reg_context(&mut g, 80, Arc::new("c"));
    assert_eq!(**context(&g, 80).unwrap(), "c");
    unreg_context(&mut g, 80);
    assert!(context(&g, 80).is_none());
    assert_eq!(**context(&g, 81).unwrap(), "b");
}

#[test]
fn chunk_within_one_block() {
    let p = plan_chunk(2, 100, 50);
    assert_eq!(p.steps.len(), 1);
    let s = p.steps[0];
    assert_eq!((s.block, s.offset_in_block, s.data_start, s.data_len), (2, 100, 0, 50));
    assert!(!s.finishes_block);
    assert_eq!((p.next_block, p.next_offset), (2, 150));
}

#[test]
fn chunk_across_block_boundaries() {
    let chunk = 2 * BLOCK_SIZE as usize + 10;
    let p = plan_chunk(0, BLOCK_SIZE - 5, chunk);
    let steps: Vec<_> = p
        .steps
        .iter()
        .map(|s| (s.block, s.offset_in_block, s.data_start, s.data_len, s.finishes_block))
        .collect();
    let b = BLOCK_SIZE as usize;
    assert_eq!(
        steps,
        vec![
            (0, BLOCK_SIZE - 5, 0, 5, true),
            (1, 0, 5, b, true),
            (2, 0, 5 + b, b, true),
            (3, 0, 5 + 2 * b, 5, false),
        ]
    );
    assert_eq!((p.next_block, p.next_offset), (3, 5));
}

#[test]
fn chunk_ending_on_a_block_boundary() {
    let p = plan_chunk(4, BLOCK_SIZE - 10, 10);
    assert_eq!(p.steps.len(), 1);
    assert!(p.steps[0].finishes_block);
    assert_eq!((p.next_block, p.next_offset), (5, 0));
    let p = plan_chunk(4, 0, 0);
    assert_eq!(p.steps.len(), 0);
    assert_eq!((p.next_block, p.next_offset), (4, 0));
}

#[test]
fn task_ids_and_table() {
    let mut ids = TaskIds::new();
    assert_eq!(ids.gen_id(), 0);
    assert_eq!(ids.gen_id(), 1);
    let mut m: TaskManager<u8, &str> = TaskManager::new();
    let add = |id: i64, s| TaskManagerEvent::Add(Task { id, handle: 0, sender: Some(s), name: None });
    assert_eq!(m.handle(add(1, "one")), None);
    assert_eq!(m.handle(add(2, "two")), None);
    assert_eq!(m.handle(TaskManagerEvent::Cancel { id: 1 }), Some("one"));
    // a cancel is sent once
    assert_eq!(m.handle(TaskManagerEvent::Cancel { id: 1 }), None);
    assert_eq!(m.handle(TaskManagerEvent::End { id: 2 }), None);
    assert_eq!(m.handle(TaskManagerEvent::Cancel { id: 2 }), None);
    assert_eq!(m.handle(TaskManagerEvent::Progress), None);
}

#[test]
fn download_actor_steps() {
    let (s, acts) = actor_start(2);
    assert_eq!(s, ActorState { current_block: 2, offset_in_block: 0, done: false });
    assert_eq!(acts, vec![ActorAction::StartBlock(2)]);
    let (s, acts) = actor_step(s, ActorEvent::Chunk(BLOCK_SIZE as usize + 5));
    assert_eq!(s, ActorState { current_block: 3, offset_in_block: 5, done: false });
    let p = plan_chunk(2, 0, BLOCK_SIZE as usize + 5);
    assert_eq!(
        acts,
        vec![
            ActorAction::Write(p.steps[0]),
            ActorAction::Finish { block: 2, size: BLOCK_SIZE },
            ActorAction::StartBlock(3),
            ActorAction::Write(p.steps[1]),
        ]
    );
    assert_eq!((p.steps[1].block, p.steps[1].data_start, p.steps[1].data_len), (3, BLOCK_SIZE as usize, 5));
    let (s, acts) = actor_step(s, ActorEvent::End);
    assert!(s.done);
    assert_eq!(acts, vec![ActorAction::Finish { block: 3, size: 5 }, ActorAction::FinishSource]);
    let (_, acts) = actor_step(ActorState { current_block: 0, offset_in_block: 0, done: false }, ActorEvent::End);
    assert_eq!(acts, vec![ActorAction::FinishSource]);
}
