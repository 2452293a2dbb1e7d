//! How a download actor cuts a chunk of the upstream body into block writes,
//! and what it does when a block fills up.
use vstd::prelude::*;

use crate::block_store::{
    block_dir_name, block_key, block_key_of, downloading_ext, BlockState, BlockStore, FinishBlock,
    BLOCK_SIZE,
};

verus! {

/// One write of a chunk: bytes `data_start..data_start + data_len` of the
/// chunk go to block `block` at `offset_in_block`; when `finishes_block` the
/// block is full afterwards and the next block is started.
#[derive(Clone, Copy, Debug, PartialEq, Eq)]
pub struct ChunkStep {
    pub block: u32,
    pub offset_in_block: u64,
    pub data_start: usize,
    pub data_len: usize,
    pub finishes_block: bool,
}

/// The writes of a chunk and the position after it.
pub struct ChunkPlan {
    pub steps: Vec<ChunkStep>,
    pub next_block: u32,
    pub next_offset: u64,
}

/// Byte `i` of a chunk that starts at `offset_in_block` of block
/// `current_block` belongs to block `current_block + (offset_in_block + i) /
/// BLOCK_SIZE`, at offset `(offset_in_block + i) % BLOCK_SIZE`.
pub open spec fn block_of(current_block: int, offset_in_block: int, i: int) -> int {
    current_block + (offset_in_block + i) / (BLOCK_SIZE as int)
}

pub open spec fn offset_of(offset_in_block: int, i: int) -> int {
    (offset_in_block + i) % (BLOCK_SIZE as int)
}

/// `steps` cut `chunk_len` bytes, starting at `offset_in_block` of block
/// `current_block`, into consecutive non-empty writes that each stay within
/// one block, each placed where its first byte belongs.
pub open spec fn plan_ok(
    steps: Seq<ChunkStep>,
    current_block: int,
    offset_in_block: int,
    chunk_len: int,
) -> bool {
    &&& (steps.len() == 0 <==> chunk_len == 0)
    &&& steps.len() > 0 ==> steps[0].data_start == 0
    &&& steps.len() > 0 ==> steps.last().data_start + steps.last().data_len == chunk_len
    &&& forall|j: int|
        0 <= j < steps.len() - 1 ==> #[trigger] steps[j + 1].data_start == steps[j].data_start
            + steps[j].data_len
    &&& forall|j: int|
        #![trigger steps[j]]
        0 <= j < steps.len() ==> {
            let s = steps[j];
            &&& s.data_len > 0
            &&& s.block == block_of(current_block, offset_in_block, s.data_start as int)
            &&& s.offset_in_block == offset_of(offset_in_block, s.data_start as int)
            &&& s.offset_in_block + s.data_len <= BLOCK_SIZE
            &&& s.finishes_block == (s.offset_in_block + s.data_len == BLOCK_SIZE)
        }
}

/// Each write takes as much of its block as the chunk still holds: it ends
/// where the chunk ends or where its block ends, whichever comes first.
pub open spec fn steps_maximal(steps: Seq<ChunkStep>, chunk_len: int) -> bool {
    forall|j: int|
        #![trigger steps[j]]
        0 <= j < steps.len() ==> steps[j].data_len == if chunk_len - steps[j].data_start
            < BLOCK_SIZE - steps[j].offset_in_block {
            chunk_len - steps[j].data_start
        } else {
            BLOCK_SIZE - steps[j].offset_in_block
        }
}

proof fn lemma_advance(q: int, off: int, take: int)
    requires
        0 <= off < BLOCK_SIZE,
        0 < take,
        off + take <= BLOCK_SIZE,
        q >= 0,
    ensures
        off + take < BLOCK_SIZE ==> (q * BLOCK_SIZE + off + take) / (BLOCK_SIZE as int) == q && (q
            * BLOCK_SIZE + off + take) % (BLOCK_SIZE as int) == off + take,
        off + take == BLOCK_SIZE ==> (q * BLOCK_SIZE + off + take) / (BLOCK_SIZE as int) == q + 1
            && (q * BLOCK_SIZE + off + take) % (BLOCK_SIZE as int) == 0,
{
    let bs = BLOCK_SIZE as int;
    if off + take < bs {
        vstd::arithmetic::div_mod::lemma_fundamental_div_mod_converse(
            q * bs + off + take,
            bs,
            q,
            off + take,
        );
    } else {
        assert(q * bs + off + take == (q + 1) * bs) by (nonlinear_arith)
            requires
                off + take == bs,
        ;
        vstd::arithmetic::div_mod::lemma_fundamental_div_mod_converse(
            q * bs + off + take,
            bs,
            q + 1,
            0,
        );
    }
}

/// Plans the block writes for a chunk of `chunk_len` bytes that continues at
/// `offset_in_block` of block `current_block`.
pub fn plan_chunk(current_block: u32, offset_in_block: u64, chunk_len: usize) -> (plan: ChunkPlan)
    requires
        offset_in_block < BLOCK_SIZE,
        block_of(current_block as int, offset_in_block as int, chunk_len as int) <= u32::MAX,
    ensures
        plan_ok(plan.steps@, current_block as int, offset_in_block as int, chunk_len as int),
        steps_maximal(plan.steps@, chunk_len as int),
        forall|j: int|
            0 <= j < plan.steps@.len() && (#[trigger] plan.steps@[j]).finishes_block
                ==> plan.steps@[j].block < u32::MAX,
        plan.next_block == block_of(current_block as int, offset_in_block as int, chunk_len as int),
        plan.next_offset == offset_of(offset_in_block as int, chunk_len as int),
{
    let ghost o = offset_in_block as int;
    let ghost cb = current_block as int;
    let ghost bs = BLOCK_SIZE as int;
    let mut steps: Vec<ChunkStep> = Vec::new();
    let mut start: usize = 0;
    let mut block = current_block;
    let mut off = offset_in_block;
    proof {
        vstd::arithmetic::div_mod::lemma_fundamental_div_mod_converse(o, bs, 0, o);
        assert(o + chunk_len >= o);
        vstd::arithmetic::div_mod::lemma_div_is_ordered(o, o + chunk_len, bs);
    }
    while start < chunk_len
        invariant
            start <= chunk_len,
            off < BLOCK_SIZE,
            off == offset_of(o, start as int),
            block == block_of(cb, o, start as int),
            o == offset_in_block,
            cb == current_block,
            bs == BLOCK_SIZE,
            block_of(cb, o, chunk_len as int) <= u32::MAX,
            steps@.len() == 0 <==> start == 0,
            steps_maximal(steps@, chunk_len as int),
            forall|j: int|
                0 <= j < steps@.len() && (#[trigger] steps@[j]).finishes_block ==> steps@[j].block
                    < u32::MAX,
            steps@.len() > 0 ==> steps@[0].data_start == 0,
            steps@.len() > 0 ==> steps@.last().data_start + steps@.last().data_len == start,
            forall|j: int|
                0 <= j < steps@.len() - 1 ==> #[trigger] steps@[j + 1].data_start
                    == steps@[j].data_start + steps@[j].data_len,
            forall|j: int|
                #![trigger steps@[j]]
                0 <= j < steps@.len() ==> {
                    let s = steps@[j];
                    &&& s.data_len > 0
                    &&& s.block == block_of(cb, o, s.data_start as int)
                    &&& s.offset_in_block == offset_of(o, s.data_start as int)
                    &&& s.offset_in_block + s.data_len <= BLOCK_SIZE
                    &&& s.finishes_block == (s.offset_in_block + s.data_len == BLOCK_SIZE)
                },
        decreases chunk_len - start,
    {
        let block_remaining = BLOCK_SIZE - off;
        let rem = chunk_len - start;
        let take: usize = if (rem as u64) < block_remaining {
            rem
        } else {
            block_remaining as usize
        };
        let finishes = off + take as u64 >= BLOCK_SIZE;
        let ghost q = (o + start) / bs;
        proof {
            vstd::arithmetic::div_mod::lemma_fundamental_div_mod(o + start, bs);
            assert(o + start == q * bs + off) by (nonlinear_arith)
                requires
                    o + start == bs * ((o + start) / bs) + (o + start) % bs,
                    q == (o + start) / bs,
                    off == (o + start) % bs,
            ;
            assert(q >= 0);
            lemma_advance(q, off as int, take as int);
            assert(o + start + take == q * bs + off + take);
            if finishes {
                assert(o + start + take <= o + chunk_len);
                vstd::arithmetic::div_mod::lemma_div_is_ordered(
                    o + start + take,
                    o + chunk_len,
                    bs,
                );
            }
        }
        let ghost old_steps = steps@;
        steps.push(
            ChunkStep {
                block,
                offset_in_block: off,
                data_start: start,
                data_len: take,
                finishes_block: finishes,
            },
        );
        proof {
            assert forall|j: int|
                0 <= j < steps@.len() - 1 implies #[trigger] steps@[j + 1].data_start
                == steps@[j].data_start + steps@[j].data_len by {
                if j < old_steps.len() - 1 {
                    assert(steps@[j + 1] == old_steps[j + 1]);
                    assert(steps@[j] == old_steps[j]);
                }
            }
        }
        start = start + take;
        if finishes {
            block = block + 1;
            off = 0;
        } else {
            off = off + take as u64;
        }
    }
    ChunkPlan { steps, next_block: block, next_offset: off }
}

/// Where a download actor stands: the block it writes, the offset in it,
/// and whether its download ended.
#[derive(Clone, Copy, Debug, PartialEq, Eq)]
pub struct ActorState {
    pub current_block: u32,
    pub offset_in_block: u64,
    pub done: bool,
}

/// What reaches a download actor: a chunk of the body of this many bytes,
/// or the end of the body (it ended, or failed).
#[derive(Clone, Copy, Debug, PartialEq, Eq)]
pub enum ActorEvent {
    Chunk(usize),
    End,
}

/// What a download actor does to the block table, in order.
#[derive(Clone, Copy, Debug, PartialEq, Eq)]
pub enum ActorAction {
    /// Create the file of this block and start fetching it.
    StartBlock(u32),
    /// Write these bytes of the chunk into their block.
    Write(ChunkStep),
    /// Finish this block, holding `size` bytes.
    Finish { block: u32, size: u64 },
    /// Record the source, and let it go.
    FinishSource,
}

/// The actions of one write: the write, and when it fills its block, the
/// block's finish and the start of the next one.
pub open spec fn step_actions(s: ChunkStep) -> Seq<ActorAction> {
    if s.finishes_block {
        seq![
            ActorAction::Write(s),
            ActorAction::Finish { block: s.block, size: BLOCK_SIZE },
            ActorAction::StartBlock((s.block + 1) as u32),
        ]
    } else {
        seq![ActorAction::Write(s)]
    }
}

/// The actions of the writes of a chunk, in order.
pub open spec fn steps_actions(steps: Seq<ChunkStep>) -> Seq<ActorAction>
    decreases steps.len(),
{
    if steps.len() == 0 {
        Seq::empty()
    } else {
        steps_actions(steps.drop_last()) + step_actions(steps.last())
    }
}

/// A download actor starts at block `start_block`: that block is started.
pub fn actor_start(start_block: u32) -> (r: (ActorState, Vec<ActorAction>))
    ensures
        r.0 == (ActorState { current_block: start_block, offset_in_block: 0, done: false }),
        r.1@ == seq![ActorAction::StartBlock(start_block)],
{
    let mut acts: Vec<ActorAction> = Vec::new();
    acts.push(ActorAction::StartBlock(start_block));
    proof {
        assert(acts@ =~= seq![ActorAction::StartBlock(start_block)]);
    }
    (ActorState { current_block: start_block, offset_in_block: 0, done: false }, acts)
}

/// One step of a download actor. A chunk is cut into the writes of
/// `plan_chunk`, each followed, when it fills its block, by the block's
/// finish and the start of the next block; the actor moves past the chunk.
/// At the end, a block with data is finished with the bytes it holds, and
/// the source is finished.
pub fn actor_step(state: ActorState, event: ActorEvent) -> (r: (ActorState, Vec<ActorAction>))
    requires
        !state.done,
        state.offset_in_block < BLOCK_SIZE,
        event matches ActorEvent::Chunk(n) ==> block_of(
            state.current_block as int,
            state.offset_in_block as int,
            n as int,
        ) <= u32::MAX,
    ensures
        match event {
            ActorEvent::Chunk(n) => {
                &&& r.0 == ActorState {
                    current_block: block_of(
                        state.current_block as int,
                        state.offset_in_block as int,
                        n as int,
                    ) as u32,
                    offset_in_block: offset_of(state.offset_in_block as int, n as int) as u64,
                    done: false,
                }
                &&& exists|steps: Seq<ChunkStep>|
                    {
                        &&& plan_ok(
                            steps,
                            state.current_block as int,
                            state.offset_in_block as int,
                            n as int,
                        )
                        &&& steps_maximal(steps, n as int)
                        &&& r.1@ == steps_actions(steps)
                    }
            },
            ActorEvent::End => {
                &&& r.0 == ActorState {
                    current_block: state.current_block,
                    offset_in_block: state.offset_in_block,
                    done: true,
                }
                &&& r.1@ == if state.offset_in_block > 0 {
                    seq![
                        ActorAction::Finish {
                            block: state.current_block,
                            size: state.offset_in_block,
                        },
                        ActorAction::FinishSource,
                    ]
                } else {
                    seq![ActorAction::FinishSource]
                }
            },
        },
{
    match event {
        ActorEvent::Chunk(n) => {
            let plan = plan_chunk(state.current_block, state.offset_in_block, n);
            let mut acts: Vec<ActorAction> = Vec::new();
            let mut i: usize = 0;
            while i < plan.steps.len()
                invariant
                    i <= plan.steps@.len(),
                    acts@ == steps_actions(plan.steps@.take(i as int)),
                    forall|j: int|
                        0 <= j < plan.steps@.len() && (#[trigger] plan.steps@[j]).finishes_block
                            ==> plan.steps@[j].block < u32::MAX,
                decreases plan.steps@.len() - i,
            {
                let s = plan.steps[i];
                let ghost before = acts@;
                acts.push(ActorAction::Write(s));
                if s.finishes_block {
                    acts.push(ActorAction::Finish { block: s.block, size: BLOCK_SIZE });
                    acts.push(ActorAction::StartBlock(s.block + 1));
                }
                proof {
                    assert(plan.steps@.take(i + 1).drop_last() =~= plan.steps@.take(i as int));
                    assert(plan.steps@.take(i + 1).last() == s);
                    assert(acts@ =~= before + step_actions(s));
                }
                i = i + 1;
            }
            proof {
                assert(plan.steps@.take(plan.steps@.len() as int) =~= plan.steps@);
            }
            (
                ActorState {
                    current_block: plan.next_block,
                    offset_in_block: plan.next_offset,
                    done: false,
                },
                acts,
            )
        },
        ActorEvent::End => {
            let mut acts: Vec<ActorAction> = Vec::new();
            if state.offset_in_block > 0 {
                acts.push(
                    ActorAction::Finish {
                        block: state.current_block,
                        size: state.offset_in_block,
                    },
                );
            }
            acts.push(ActorAction::FinishSource);
            proof {
                if state.offset_in_block > 0 {
                    assert(acts@ =~= seq![
                        ActorAction::Finish {
                            block: state.current_block,
                            size: state.offset_in_block,
                        },
                        ActorAction::FinishSource,
                    ]);
                } else {
                    assert(acts@ =~= seq![ActorAction::FinishSource]);
                }
            }
            (
                ActorState {
                    current_block: state.current_block,
                    offset_in_block: state.offset_in_block,
                    done: true,
                },
                acts,
            )
        },
    }
}

/// The blocks after `key` starts being fetched: unchanged when it already
/// is, else with nothing written of it yet.
pub open spec fn fetch_started(m: Map<Seq<char>, BlockState>, key: Seq<char>) -> Map<
    Seq<char>,
    BlockState,
> {
    if m.contains_key(key) && m[key] is Fetching {
        m
    } else {
        m.insert(key, BlockState::Fetching { written: 0 })
    }
}

/// What a download actor does when block `block` of `source_key` is full:
/// the block is finished as a block of
/// `BLOCK_SIZE` bytes, and the next block is started; its file is to be
/// created under the returned key.
pub fn finish_filled_block<H>(store: &mut BlockStore<H>, source_key: &str, block: u32) -> (r: (
    FinishBlock,
    String,
))
    requires
        block < u32::MAX,
    ensures
        ({
            let bkey = block_key_of(source_key@, block as nat);
            let next = block_key_of(source_key@, (block + 1) as nat);
            &&& r.0.rename_from.dir@ == block_dir_name(bkey)
            &&& r.0.rename_from.file@ == bkey
            &&& r.0.rename_from.extension matches Some(e) && e@ == downloading_ext()
            &&& r.0.rename_to.dir@ == block_dir_name(bkey)
            &&& r.0.rename_to.file@ == bkey
            &&& r.0.rename_to.extension is None
            &&& r.0.row.key@ == bkey
            &&& r.0.row.source_key@ == source_key@
            &&& r.0.row.block_index == block as i32
            &&& r.0.row.block_size == BLOCK_SIZE as i64
            &&& r.0.notify == (old(store).block(bkey) matches Some(BlockState::Fetching { .. }))
            &&& r.1@ == next
            &&& final(store).blocks() == fetch_started(
                old(store).blocks().insert(bkey, BlockState::Cached),
                next,
            )
        }),
        final(store).sources() == old(store).sources(),
        final(store).active_sources() == old(store).active_sources(),
        final(store).dir() == old(store).dir(),
{
    let bkey = block_key(source_key, block);
    let f = store.finish_block(bkey.as_str(), source_key, block as i32, BLOCK_SIZE as i64);
    let next = block_key(source_key, block + 1);
    store.begin_fetch(next.as_str());
    (f, next)
}

/// What a download actor does first: the block it starts at is started;
/// its file is to be created under the returned key.
pub fn start_first_block<H>(store: &mut BlockStore<H>, source_key: &str, block: u32) -> (k: String)
    ensures
        k@ == block_key_of(source_key@, block as nat),
        final(store).blocks() == fetch_started(old(store).blocks(), k@),
        final(store).sources() == old(store).sources(),
        final(store).active_sources() == old(store).active_sources(),
        final(store).dir() == old(store).dir(),
{
    let k = block_key(source_key, block);
    store.begin_fetch(k.as_str());
    k
}

/// What a download actor does when its download ends `offset_in_block`
/// bytes into block `block`: a block with data is finished as a block of
/// that many bytes; an empty one is left as it is.
pub fn finish_last_block<H>(
    store: &mut BlockStore<H>,
    source_key: &str,
    block: u32,
    offset_in_block: u64,
) -> (r: Option<FinishBlock>)
    requires
        offset_in_block < BLOCK_SIZE,
    ensures
        ({
            let bkey = block_key_of(source_key@, block as nat);
            if offset_in_block > 0 {
                &&& r matches Some(f) && {
                    &&& f.rename_from.dir@ == block_dir_name(bkey)
                    &&& f.rename_from.file@ == bkey
                    &&& f.rename_from.extension matches Some(e) && e@ == downloading_ext()
                    &&& f.rename_to.dir@ == block_dir_name(bkey)
                    &&& f.rename_to.file@ == bkey
                    &&& f.rename_to.extension is None
                    &&& f.row.key@ == bkey
                    &&& f.row.source_key@ == source_key@
                    &&& f.row.block_index == block as i32
                    &&& f.row.block_size == offset_in_block as i64
                    &&& f.notify == (old(store).block(bkey) matches Some(
                        BlockState::Fetching { .. },
                    ))
                }
                &&& final(store).blocks() == old(store).blocks().insert(bkey, BlockState::Cached)
            } else {
                &&& r is None
                &&& final(store).blocks() == old(store).blocks()
            }
        }),
        final(store).sources() == old(store).sources(),
        final(store).active_sources() == old(store).active_sources(),
        final(store).dir() == old(store).dir(),
{
    if offset_in_block > 0 {
        let bkey = block_key(source_key, block);
        Some(store.finish_block(bkey.as_str(), source_key, block as i32, offset_in_block as i64))
    } else {
        None
    }
}

} // verus!
