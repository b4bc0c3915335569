//! The engine's driver: a state machine that takes validator events and
//! mining results and answers with the commands to send to the validator
//! and to the mining pool. The caller performs the commands and hands back
//! what comes of them.
use vstd::prelude::*;
use crate::difficulty::{after_block, DifficultyState};
use crate::fork::{id_lt, lemma_id_order_total, prefers, same_id, should_switch};
use crate::pow::{check_nonce, solves, target_for, target_seq};

verus! {

/// A block as the validator reports it, with its consensus payload read out.
#[derive(Clone, Debug, PartialEq, Eq)]
pub struct Block {
    pub block_id: Vec<u8>,
    pub previous_id: Vec<u8>,
    pub signer_id: Vec<u8>,
    pub block_num: u64,
    pub nonce: u64,
    pub difficulty: u64,
    pub timestamp: u64,
}

/// One event from the validator, in arrival order.
#[derive(Clone, Debug, PartialEq, Eq)]
pub enum Update {
    PeerConnected { peer_id: Vec<u8> },
    PeerDisconnected { peer_id: Vec<u8> },
    PeerMessage { peer_id: Vec<u8>, payload: Vec<u8> },
    BlockNew { block: Block },
    BlockValid { block_id: Vec<u8> },
    BlockInvalid { block_id: Vec<u8> },
    BlockCommit { block_id: Vec<u8> },
    Shutdown,
}

/// What the engine asks for: a validator command, or starting or stopping
/// the mining pool.
#[derive(Clone, Debug, PartialEq, Eq)]
pub enum Command {
    InitializeBlock { previous_id: Vec<u8> },
    FinalizeBlock { nonce: u64, difficulty: u64 },
    CancelBlock,
    CheckBlock { block_id: Vec<u8> },
    CommitBlock { block_id: Vec<u8> },
    IgnoreBlock { block_id: Vec<u8> },
    FailBlock { block_id: Vec<u8> },
    StartMiner { header: Vec<u8>, target: Vec<u8>, seq: u64 },
    StopMiner,
}

/// A command with its byte strings as sequences.
pub ghost enum CommandView {
    InitializeBlock(Seq<u8>),
    FinalizeBlock(u64, u64),
    CancelBlock,
    CheckBlock(Seq<u8>),
    CommitBlock(Seq<u8>),
    IgnoreBlock(Seq<u8>),
    FailBlock(Seq<u8>),
    StartMiner(Seq<u8>, Seq<u8>, u64),
    StopMiner,
}

impl View for Command {
    type V = CommandView;

    open spec fn view(&self) -> CommandView {
        match self {
            Command::InitializeBlock { previous_id } => CommandView::InitializeBlock(previous_id@),
            Command::FinalizeBlock { nonce, difficulty } => CommandView::FinalizeBlock(*nonce, *difficulty),
            Command::CancelBlock => CommandView::CancelBlock,
            Command::CheckBlock { block_id } => CommandView::CheckBlock(block_id@),
            Command::CommitBlock { block_id } => CommandView::CommitBlock(block_id@),
            Command::IgnoreBlock { block_id } => CommandView::IgnoreBlock(block_id@),
            Command::FailBlock { block_id } => CommandView::FailBlock(block_id@),
            Command::StartMiner { header, target, seq } => CommandView::StartMiner(header@, target@, *seq),
            Command::StopMiner => CommandView::StopMiner,
        }
    }
}

/// The views of a list of commands.
pub open spec fn cmds(s: Seq<Command>) -> Seq<CommandView> {
    s.map_values(|c: Command| c@)
}

/// Whether a command goes to the validator, rather than to the mining pool.
pub open spec fn to_validator(c: CommandView) -> bool {
    !(c is StartMiner || c is StopMiner)
}

/// The driver's states.
#[derive(PartialEq, Eq, Structural, Clone, Copy, Debug)]
pub enum Phase {
    AwaitingHead,
    Mining,
    Finalizing,
    Stopped,
}

/// A block the engine has seen, with the cumulative work of its chain.
#[derive(Clone, Debug, PartialEq, Eq)]
pub struct Known {
    pub block_id: Vec<u8>,
    pub previous_id: Vec<u8>,
    pub block_num: u64,
    pub work: u64,
    pub timestamp: u64,
}

/// A known block with its identifiers as sequences.
pub ghost struct KnownView {
    pub block_id: Seq<u8>,
    pub previous_id: Seq<u8>,
    pub block_num: u64,
    pub work: u64,
    pub timestamp: u64,
}

impl View for Known {
    type V = KnownView;

    open spec fn view(&self) -> KnownView {
        KnownView {
            block_id: self.block_id@,
            previous_id: self.previous_id@,
            block_num: self.block_num,
            work: self.work,
            timestamp: self.timestamp,
        }
    }
}

impl Known {
    /// A copy of this record.
    pub fn duplicate(&self) -> (r: Known)
        ensures
            r@ == self@,
    {
        Known {
            block_id: self.block_id.clone(),
            previous_id: self.previous_id.clone(),
            block_num: self.block_num,
            work: self.work,
            timestamp: self.timestamp,
        }
    }
}

/// The block being built atop the chain head: the head it extends, its
/// sequence number among candidates, and its header summary once the
/// validator has one.
#[derive(Clone, Debug, PartialEq, Eq)]
pub struct Candidate {
    pub previous_id: Vec<u8>,
    pub seq: u64,
    pub summary: Option<Vec<u8>>,
}

/// Where `id` stands in `blocks`, if anywhere.
pub open spec fn index_of(blocks: Seq<Known>, id: Seq<u8>, i: int) -> bool {
    0 <= i < blocks.len() && blocks[i].block_id@ == id
}

/// Whether a block with identifier `id` is in `blocks`.
pub open spec fn known(blocks: Seq<Known>, id: Seq<u8>) -> bool {
    exists|i: int| index_of(blocks, id, i)
}

proof fn lemma_lookup(blocks: Seq<Known>, id: Seq<u8>, i: int)
    requires
        ids_unique(blocks),
        index_of(blocks, id, i),
    ensures
        lookup(blocks, id) == blocks[i]@,
{
    let j = choose|j: int| index_of(blocks, id, j);
    assert(index_of(blocks, id, j));
    assert(blocks[i].block_id@ == blocks[j].block_id@);
}

/// The position of the block `id` in `blocks`.
pub fn find(blocks: &Vec<Known>, id: &Vec<u8>) -> (r: Option<usize>)
    ensures
        r matches Some(i) ==> index_of(blocks@, id@, i as int),
        r is None ==> !known(blocks@, id@),
{
    let mut i: usize = 0;
    while i < blocks.len()
        invariant
            i <= blocks.len(),
            forall|j: int| 0 <= j < i ==> !#[trigger] index_of(blocks@, id@, j),
        decreases blocks.len() - i,
    {
        if same_id(&blocks[i].block_id, id) {
            return Some(i);
        }
        i = i + 1;
    }
    None
}

/// The engine: the chain head, the blocks seen, the candidate being built,
/// the mining pool's state and the difficulty estimator.
pub struct Engine {
    pub phase: Phase,
    /// The canonical block; meaningless while awaiting the first head.
    pub head: Known,
    /// Every block seen that extends a known block, each identifier once.
    pub blocks: Vec<Known>,
    pub candidate: Option<Candidate>,
    pub miner_active: bool,
    /// The engine's own finalized block, while its validation is awaited.
    pub pending: Option<Vec<u8>>,
    /// The block whose commit was requested last and is not yet confirmed.
    pub committing: Option<Known>,
    pub difficulty: DifficultyState,
    /// The sequence number the next candidate gets.
    pub next_seq: u64,
}

/// No identifier occurs twice in `blocks`.
pub open spec fn ids_unique(blocks: Seq<Known>) -> bool {
    forall|i: int, j: int|
        #![trigger blocks[i], blocks[j]]
        0 <= i < blocks.len() && 0 <= j < blocks.len() && blocks[i].block_id@ == blocks[j].block_id@ ==> i == j
}

/// The record of the block `id` in `blocks`.
pub open spec fn lookup(blocks: Seq<Known>, id: Seq<u8>) -> KnownView {
    blocks[choose|i: int| index_of(blocks, id, i)]@
}

/// The block a competing one must beat: the one being committed, else the head.
pub open spec fn reference(s: Engine) -> KnownView {
    match s.committing {
        Some(k) => k@,
        None => s.head@,
    }
}

/// The sequence number after `n`.
pub open spec fn next_seq_of(n: u64) -> u64 {
    if n < u64::MAX { (n + 1) as u64 } else { 0 }
}

/// `c` is a candidate just begun atop `prev`, numbered `seq`.
pub open spec fn fresh(c: Option<Candidate>, prev: Seq<u8>, seq: u64) -> bool {
    c matches Some(x) && x.previous_id@ == prev && x.seq == seq && x.summary is None
}

/// The commands that retire the candidate and the pool of `s`.
pub open spec fn drop_cmds(s: Engine) -> Seq<CommandView> {
    (if s.candidate is Some { seq![CommandView::CancelBlock] } else { seq![] })
        + (if s.miner_active { seq![CommandView::StopMiner] } else { seq![] })
}

/// `s` is mining a candidate whose header summary is not known yet.
pub open spec fn awaits_summary(s: Engine) -> bool {
    s.phase == Phase::Mining && (s.candidate matches Some(c) && c.summary is None)
}

/// `nonce` solves the header of the candidate `seq` that `s` is mining,
/// for the target of the current difficulty.
pub open spec fn solves_candidate(s: Engine, seq: u64, nonce: u64) -> bool {
    s.phase == Phase::Mining && (s.candidate matches Some(c) && c.seq == seq
        && (c.summary matches Some(h) && solves(h@, nonce, target_seq(s.difficulty.difficulty))))
}

/// `id` is the engine's own block whose validation `s` awaits.
pub open spec fn is_pending(s: Engine, id: Seq<u8>) -> bool {
    s.pending matches Some(p) && p@ == id
}

/// `s` takes the new block `b` in: it is running, has not seen `b`, has
/// seen its parent, and the chain's cumulative work stays within a `u64`.
pub open spec fn admits(s: Engine, b: Block) -> bool {
    &&& running(s.phase)
    &&& !known(s.blocks@, b.block_id@)
    &&& known(s.blocks@, b.previous_id@)
    &&& lookup(s.blocks@, b.previous_id@).work + b.difficulty <= u64::MAX
}

/// What a new block `b` does: one that `s` admits is recorded, with its
/// parent's cumulative work plus its own difficulty, and sent for a
/// validity check; any other is dropped.
pub open spec fn new_outcome(s: Engine, t: Engine, b: Block, out: Seq<CommandView>) -> bool {
    if admits(s, b) {
        &&& t.blocks@.len() == s.blocks@.len() + 1
        &&& t.blocks@.drop_last() == s.blocks@
        &&& t.blocks@.last()@ == (KnownView {
            block_id: b.block_id@,
            previous_id: b.previous_id@,
            block_num: b.block_num,
            work: (lookup(s.blocks@, b.previous_id@).work + b.difficulty) as u64,
            timestamp: b.timestamp,
        })
        &&& t == (Engine { blocks: t.blocks, ..s })
        &&& out == seq![CommandView::CheckBlock(b.block_id@)]
    } else {
        t == s && out.len() == 0
    }
}

/// The valid block `id` beats the block that `s` holds as reference.
pub open spec fn wins(s: Engine, id: Seq<u8>) -> bool {
    prefers(
        lookup(s.blocks@, id).work as int,
        id,
        reference(s).work as int,
        reference(s).block_id,
    )
}

/// `t` has begun a candidate atop the head of `s`, and otherwise equals `u`.
pub open spec fn resumed(s: Engine, t: Engine, u: Engine) -> bool {
    &&& fresh(t.candidate, s.head.block_id@, s.next_seq)
    &&& t == (Engine { candidate: t.candidate, next_seq: next_seq_of(s.next_seq), phase: Phase::Mining, ..u })
}

/// What a `BlockValid` for `id` does. A known block that beats the
/// reference is committed, retiring the candidate and the pool; one that
/// does not is ignored, and if it was the engine's own, mining resumes
/// atop the same head. Anything else is dropped.
pub open spec fn valid_outcome(s: Engine, t: Engine, id: Seq<u8>, out: Seq<CommandView>) -> bool {
    if !running(s.phase) || !known(s.blocks@, id) {
        t == s && out.len() == 0
    } else if wins(s, id) {
        &&& t.committing matches Some(c) && c@ == lookup(s.blocks@, id)
        &&& t == (Engine {
            candidate: None,
            miner_active: false,
            committing: t.committing,
            pending: if is_pending(s, id) { None } else { s.pending },
            ..s
        })
        &&& out == drop_cmds(s) + seq![CommandView::CommitBlock(id)]
    } else if is_pending(s, id) {
        &&& resumed(s, t, Engine { pending: None, ..s })
        &&& out == seq![CommandView::IgnoreBlock(id), CommandView::InitializeBlock(s.head.block_id@)]
    } else {
        t == s && out == seq![CommandView::IgnoreBlock(id)]
    }
}

/// What a `BlockInvalid` for `id` does: a known block is failed; if it was
/// the engine's own, mining resumes atop the same head, which is kept.
pub open spec fn invalid_outcome(s: Engine, t: Engine, id: Seq<u8>, out: Seq<CommandView>) -> bool {
    if !running(s.phase) || !known(s.blocks@, id) {
        t == s && out.len() == 0
    } else if is_pending(s, id) {
        &&& resumed(s, t, Engine { pending: None, ..s })
        &&& out == seq![CommandView::FailBlock(id), CommandView::InitializeBlock(s.head.block_id@)]
    } else {
        t == s && out == seq![CommandView::FailBlock(id)]
    }
}

/// `s` requested the commit of `id` and has not seen it confirmed.
pub open spec fn commit_awaited(s: Engine, id: Seq<u8>) -> bool {
    running(s.phase) && (s.committing matches Some(c) && c.block_id@ == id)
}

/// What a `BlockCommit` for `id` does: when it confirms the commit `s`
/// requested, that block becomes the head, the estimator records it, the
/// old candidate and pool are retired and a candidate begins atop the new
/// head. Any other commit is dropped.
pub open spec fn commit_outcome(s: Engine, t: Engine, id: Seq<u8>, out: Seq<CommandView>) -> bool {
    if commit_awaited(s, id) {
        &&& t.head@ == s.committing.unwrap()@
        &&& t.difficulty == after_block(s.difficulty, s.committing.unwrap().timestamp)
        &&& fresh(t.candidate, id, s.next_seq)
        &&& t == (Engine {
            phase: Phase::Mining,
            head: t.head,
            candidate: t.candidate,
            miner_active: false,
            pending: None,
            committing: None,
            difficulty: t.difficulty,
            next_seq: next_seq_of(s.next_seq),
            ..s
        })
        &&& out == drop_cmds(s) + seq![CommandView::InitializeBlock(id)]
    } else {
        t == s && out.len() == 0
    }
}

proof fn lemma_lookup_id(blocks: Seq<Known>, id: Seq<u8>)
    requires
        known(blocks, id),
    ensures
        lookup(blocks, id).block_id == id,
{
    let i = choose|i: int| index_of(blocks, id, i);
    assert(index_of(blocks, id, i));
}

/// What a `BlockValid` leaves of the chain: the blocks seen, the phase's
/// running, and a reference that is the block when it wins and unchanged
/// otherwise.
proof fn lemma_valid_effect(s: Engine, t: Engine, id: Seq<u8>, out: Seq<CommandView>)
    requires
        running(s.phase),
        known(s.blocks@, id),
        valid_outcome(s, t, id, out),
    ensures
        t.blocks == s.blocks,
        running(t.phase),
        wins(s, id) ==> reference(t) == lookup(s.blocks@, id),
        !wins(s, id) ==> reference(t) == reference(s),
{
}

/// Two valid blocks compete, the first with more cumulative work and
/// beating the engine's reference block. Whichever of them the validator
/// reports valid first, the block the engine ends up committing is the one
/// with more work.
pub proof fn lemma_engine_heavier_fork_wins(
    s: Engine,
    t: Engine,
    u: Engine,
    id1: Seq<u8>,
    id2: Seq<u8>,
    out1: Seq<CommandView>,
    out2: Seq<CommandView>,
)
    requires
        running(s.phase),
        known(s.blocks@, id1),
        known(s.blocks@, id2),
        lookup(s.blocks@, id1).work > lookup(s.blocks@, id2).work,
        prefers(lookup(s.blocks@, id1).work as int, id1, reference(s).work as int, reference(s).block_id),
        (valid_outcome(s, t, id1, out1) && valid_outcome(t, u, id2, out2))
            || (valid_outcome(s, t, id2, out1) && valid_outcome(t, u, id1, out2)),
    ensures
        reference(u) == lookup(s.blocks@, id1),
{
    lemma_lookup_id(s.blocks@, id1);
    lemma_lookup_id(s.blocks@, id2);
    if valid_outcome(s, t, id1, out1) && valid_outcome(t, u, id2, out2) {
        lemma_valid_effect(s, t, id1, out1);
        lemma_valid_effect(t, u, id2, out2);
    } else {
        lemma_valid_effect(s, t, id2, out1);
        lemma_valid_effect(t, u, id1, out2);
    }
}

/// Two valid blocks compete with equal cumulative work, each beating the
/// engine's reference block. Whichever of them the validator reports valid
/// first, the block the engine ends up committing is the one with the
/// lower identifier.
pub proof fn lemma_engine_tie_goes_to_lower_id(
    s: Engine,
    t: Engine,
    u: Engine,
    id1: Seq<u8>,
    id2: Seq<u8>,
    out1: Seq<CommandView>,
    out2: Seq<CommandView>,
)
    requires
        running(s.phase),
        known(s.blocks@, id1),
        known(s.blocks@, id2),
        id1 != id2,
        lookup(s.blocks@, id1).work == lookup(s.blocks@, id2).work,
        prefers(lookup(s.blocks@, id1).work as int, id1, reference(s).work as int, reference(s).block_id),
        prefers(lookup(s.blocks@, id2).work as int, id2, reference(s).work as int, reference(s).block_id),
        (valid_outcome(s, t, id1, out1) && valid_outcome(t, u, id2, out2))
            || (valid_outcome(s, t, id2, out1) && valid_outcome(t, u, id1, out2)),
    ensures
        reference(u) == (if id_lt(id1, id2) { lookup(s.blocks@, id1) } else { lookup(s.blocks@, id2) }),
{
    lemma_lookup_id(s.blocks@, id1);
    lemma_lookup_id(s.blocks@, id2);
    lemma_id_order_total(id1, id2);
    if valid_outcome(s, t, id1, out1) && valid_outcome(t, u, id2, out2) {
        lemma_valid_effect(s, t, id1, out1);
        lemma_valid_effect(t, u, id2, out2);
    } else {
        lemma_valid_effect(s, t, id2, out1);
        lemma_valid_effect(t, u, id1, out2);
    }
}

/// Whether the engine is running on a chain head.
pub open spec fn running(p: Phase) -> bool {
    p == Phase::Mining || p == Phase::Finalizing
}

impl Engine {
    /// The engine's invariant: at most one candidate, always atop the head;
    /// the pool runs only on a summarized candidate; a commit is requested
    /// only for a block with at least the head's work.
    pub open spec fn wf(&self) -> bool {
        &&& self.difficulty.wf()
        &&& ids_unique(self.blocks@)
        &&& self.candidate matches Some(c) ==> c.previous_id@ == self.head.block_id@ && self.phase == Phase::Mining
        &&& self.miner_active ==> (self.candidate matches Some(c) && c.summary is Some)
        &&& self.pending is Some ==> self.phase == Phase::Finalizing
        &&& self.committing matches Some(k) ==> k.work >= self.head.work && running(self.phase)
        &&& !running(self.phase) ==> self.pending is None && self.committing is None && self.candidate is None
    }

    /// An engine that waits for the validator's chain head.
    pub fn new(difficulty: DifficultyState) -> (r: Engine)
        requires
            difficulty.wf(),
        ensures
            r.wf(),
            r.phase == Phase::AwaitingHead,
            r.blocks@.len() == 0,
            r.candidate is None,
            !r.miner_active,
            r.difficulty == difficulty,
    {
        Engine {
            phase: Phase::AwaitingHead,
            head: Known { block_id: Vec::new(), previous_id: Vec::new(), block_num: 0, work: 0, timestamp: 0 },
            blocks: Vec::new(),
            candidate: None,
            miner_active: false,
            pending: None,
            committing: None,
            difficulty,
            next_seq: 0,
        }
    }

    /// Begins a candidate atop the chain head. While one exists (it extends
    /// the head), this does nothing and asks for nothing.
    pub fn begin(&mut self) -> (r: Vec<Command>)
        requires
            old(self).wf(),
            old(self).phase == Phase::Mining,
        ensures
            final(self).wf(),
            old(self).candidate is Some ==> *final(self) == *old(self) && r@.len() == 0,
            old(self).candidate is None ==> {
                &&& fresh(final(self).candidate, old(self).head.block_id@, old(self).next_seq)
                &&& final(self).next_seq == next_seq_of(old(self).next_seq)
                &&& *final(self) == (Engine { candidate: final(self).candidate, next_seq: final(self).next_seq, ..*old(self) })
                &&& cmds(r@) == seq![CommandView::InitializeBlock(old(self).head.block_id@)]
            },
    {
        if self.candidate.is_some() {
            return Vec::new();
        }
        let seq = self.next_seq;
        self.next_seq = if seq < u64::MAX { seq + 1 } else { 0 };
        self.candidate = Some(Candidate { previous_id: self.head.block_id.clone(), seq, summary: None });
        let r = vec![Command::InitializeBlock { previous_id: self.head.block_id.clone() }];
        proof {
            assert(cmds(r@) =~= seq![CommandView::InitializeBlock(old(self).head.block_id@)]);
        }
        r
    }

    /// Discards the candidate, if any, and stops the pool, if running.
    /// The validator is asked to cancel the block only where one was begun.
    pub fn cancel(&mut self) -> (r: Vec<Command>)
        requires
            old(self).wf(),
        ensures
            final(self).wf(),
            *final(self) == (Engine { candidate: None, miner_active: false, ..*old(self) }),
            cmds(r@) == drop_cmds(*old(self)),
    {
        let mut r: Vec<Command> = Vec::new();
        if self.candidate.is_some() {
            r.push(Command::CancelBlock);
        }
        if self.miner_active {
            r.push(Command::StopMiner);
        }
        self.candidate = None;
        self.miner_active = false;
        proof {
            assert(cmds(r@) =~= drop_cmds(*old(self)));
        }
        r
    }

    /// Takes the validator's chain head, of cumulative work `work`, and
    /// starts mining atop it. Only the first head counts.
    pub fn on_chain_head(&mut self, head: Block, work: u64) -> (r: Vec<Command>)
        requires
            old(self).wf(),
        ensures
            final(self).wf(),
            old(self).phase != Phase::AwaitingHead ==> *final(self) == *old(self) && r@.len() == 0,
            old(self).phase == Phase::AwaitingHead ==> {
                &&& final(self).phase == Phase::Mining
                &&& final(self).head@ == (KnownView {
                    block_id: head.block_id@,
                    previous_id: head.previous_id@,
                    block_num: head.block_num,
                    work,
                    timestamp: head.timestamp,
                })
                &&& final(self).blocks@.len() == 1
                &&& final(self).blocks@[0]@ == final(self).head@
                &&& fresh(final(self).candidate, head.block_id@, old(self).next_seq)
                &&& !final(self).miner_active
                &&& cmds(r@) == seq![CommandView::InitializeBlock(head.block_id@)]
            },
    {
        if self.phase != Phase::AwaitingHead {
            return Vec::new();
        }
        let k = Known {
            block_id: head.block_id,
            previous_id: head.previous_id,
            block_num: head.block_num,
            work,
            timestamp: head.timestamp,
        };
        let mut blocks: Vec<Known> = Vec::new();
        blocks.push(k.duplicate());
        self.blocks = blocks;
        self.head = k;
        self.phase = Phase::Mining;
        self.begin()
    }

    /// Takes the summary of the candidate's header, once the validator has
    /// one, and starts the pool on it with the current target.
    pub fn on_summary(&mut self, summary: Vec<u8>) -> (r: Vec<Command>)
        requires
            old(self).wf(),
        ensures
            final(self).wf(),
            !awaits_summary(*old(self)) ==> *final(self) == *old(self) && r@.len() == 0,
            awaits_summary(*old(self)) ==> {
                &&& final(self).candidate == Some(Candidate { summary: Some(summary), ..old(self).candidate.unwrap() })
                &&& final(self).miner_active
                &&& cmds(r@) == seq![CommandView::StartMiner(
                    summary@,
                    target_seq(old(self).difficulty.difficulty),
                    old(self).candidate.unwrap().seq,
                )]
                &&& *final(self) == (Engine { candidate: final(self).candidate, miner_active: true, ..*old(self) })
            },
    {
        if self.phase != Phase::Mining {
            return Vec::new();
        }
        match self.candidate.take() {
            Some(c) => {
                if c.summary.is_some() {
                    self.candidate = Some(c);
                    return Vec::new();
                }
                let target = target_for(self.difficulty.difficulty);
                let seq = c.seq;
                let r = vec![Command::StartMiner { header: summary.clone(), target, seq }];
                self.candidate = Some(Candidate { previous_id: c.previous_id, seq, summary: Some(summary) });
                self.miner_active = true;
                proof {
                    assert(cmds(r@) =~= seq![CommandView::StartMiner(summary@, target_seq(old(self).difficulty.difficulty), seq)]);
                }
                r
            },
            None => Vec::new(),
        }
    }

    /// Takes a nonce that the pool found for candidate `seq`. A nonce that
    /// solves the current candidate's header for the current target stops
    /// the pool and finalizes the block; any other is stale and dropped.
    pub fn on_mining_result(&mut self, seq: u64, nonce: u64) -> (r: Vec<Command>)
        requires
            old(self).wf(),
        ensures
            final(self).wf(),
            solves_candidate(*old(self), seq, nonce) ==> {
                &&& final(self).phase == Phase::Finalizing
                &&& *final(self) == (Engine { phase: Phase::Finalizing, candidate: None, miner_active: false, ..*old(self) })
                &&& cmds(r@) == (if old(self).miner_active { seq![CommandView::StopMiner] } else { seq![] })
                    + seq![CommandView::FinalizeBlock(nonce, old(self).difficulty.difficulty)]
            },
            !solves_candidate(*old(self), seq, nonce) ==> *final(self) == *old(self) && r@.len() == 0,
    {
        if self.phase != Phase::Mining {
            return Vec::new();
        }
        let found = match &self.candidate {
            Some(c) => {
                match &c.summary {
                    Some(h) => {
                        if c.seq == seq {
                            let target = target_for(self.difficulty.difficulty);
                            check_nonce(h, nonce, &target)
                        } else {
                            false
                        }
                    },
                    None => false,
                }
            },
            None => false,
        };
        if !found {
            return Vec::new();
        }
        let mut r: Vec<Command> = Vec::new();
        if self.miner_active {
            r.push(Command::StopMiner);
        }
        r.push(Command::FinalizeBlock { nonce, difficulty: self.difficulty.difficulty });
        self.candidate = None;
        self.miner_active = false;
        self.phase = Phase::Finalizing;
        proof {
            assert(cmds(r@) =~= (if old(self).miner_active { seq![CommandView::StopMiner] } else { seq![] })
                + seq![CommandView::FinalizeBlock(nonce, old(self).difficulty.difficulty)]);
        }
        r
    }

    /// Takes the identifier the validator gave the finalized block, whose
    /// validation is then awaited.
    pub fn on_finalized(&mut self, block_id: Vec<u8>)
        requires
            old(self).wf(),
        ensures
            final(self).wf(),
            old(self).phase == Phase::Finalizing && old(self).pending is None
                ==> *final(self) == (Engine { pending: Some(block_id), ..*old(self) }),
            !(old(self).phase == Phase::Finalizing && old(self).pending is None) ==> *final(self) == *old(self),
    {
        if self.phase == Phase::Finalizing && self.pending.is_none() {
            self.pending = Some(block_id);
        }
    }

    /// The validator could not finalize the block: mining resumes atop the
    /// same head.
    pub fn on_finalize_failed(&mut self) -> (r: Vec<Command>)
        requires
            old(self).wf(),
        ensures
            final(self).wf(),
            old(self).phase == Phase::Finalizing && old(self).pending is None ==> {
                &&& final(self).phase == Phase::Mining
                &&& fresh(final(self).candidate, old(self).head.block_id@, old(self).next_seq)
                &&& final(self).head == old(self).head
                &&& cmds(r@) == seq![CommandView::InitializeBlock(old(self).head.block_id@)]
            },
            !(old(self).phase == Phase::Finalizing && old(self).pending is None)
                ==> *final(self) == *old(self) && r@.len() == 0,
    {
        if self.phase == Phase::Finalizing && self.pending.is_none() {
            self.phase = Phase::Mining;
            self.begin()
        } else {
            Vec::new()
        }
    }

    /// Shuts the engine down: the pool is stopped and nothing more is asked
    /// of the validator, now or on any later event.
    fn on_shutdown(&mut self) -> (r: Vec<Command>)
        requires
            old(self).wf(),
        ensures
            final(self).wf(),
            *final(self) == (Engine {
                phase: Phase::Stopped,
                candidate: None,
                miner_active: false,
                pending: None,
                committing: None,
                ..*old(self)
            }),
            cmds(r@) == (if old(self).miner_active { seq![CommandView::StopMiner] } else { seq![] }),
    {
        let mut r: Vec<Command> = Vec::new();
        if self.miner_active {
            r.push(Command::StopMiner);
        }
        self.phase = Phase::Stopped;
        self.candidate = None;
        self.miner_active = false;
        self.pending = None;
        self.committing = None;
        proof {
            assert(cmds(r@) =~= (if old(self).miner_active { seq![CommandView::StopMiner] } else { seq![] }));
        }
        r
    }

    /// A new block: recorded and sent for a validity check when admitted.
    fn on_block_new(&mut self, block: Block) -> (r: Vec<Command>)
        requires
            old(self).wf(),
        ensures
            final(self).wf(),
            new_outcome(*old(self), *final(self), block, cmds(r@)),
    {
        if !(self.phase == Phase::Mining || self.phase == Phase::Finalizing) {
            return Vec::new();
        }
        if find(&self.blocks, &block.block_id).is_some() {
            return Vec::new();
        }
        let parent = match find(&self.blocks, &block.previous_id) {
            Some(i) => i,
            None => { return Vec::new(); },
        };
        proof {
            lemma_lookup(self.blocks@, block.previous_id@, parent as int);
        }
        let parent_work = self.blocks[parent].work;
        if parent_work > u64::MAX - block.difficulty {
            return Vec::new();
        }
        let r = vec![Command::CheckBlock { block_id: block.block_id.clone() }];
        let k = Known {
            block_id: block.block_id,
            previous_id: block.previous_id,
            block_num: block.block_num,
            work: parent_work + block.difficulty,
            timestamp: block.timestamp,
        };
        self.blocks.push(k);
        proof {
            assert(self.blocks@.drop_last() =~= old(self).blocks@);
            assert(cmds(r@) =~= seq![CommandView::CheckBlock(block.block_id@)]);
            assert forall|i: int, j: int|
                #![trigger self.blocks@[i], self.blocks@[j]]
                0 <= i < self.blocks@.len() && 0 <= j < self.blocks@.len()
                    && self.blocks@[i].block_id@ == self.blocks@[j].block_id@ implies i == j by {
                let n = old(self).blocks@.len() as int;
                if i < n && j == n {
                    assert(index_of(old(self).blocks@, block.block_id@, i));
                }
                if j < n && i == n {
                    assert(index_of(old(self).blocks@, block.block_id@, j));
                }
                if i < n && j < n {
                    assert(old(self).blocks@[i] == self.blocks@[i]);
                    assert(old(self).blocks@[j] == self.blocks@[j]);
                }
            }
        }
        r
    }

    /// The validator found a block valid: fork choice decides its fate.
    fn on_block_valid(&mut self, block_id: Vec<u8>) -> (r: Vec<Command>)
        requires
            old(self).wf(),
        ensures
            final(self).wf(),
            valid_outcome(*old(self), *final(self), block_id@, cmds(r@)),
    {
        if !(self.phase == Phase::Mining || self.phase == Phase::Finalizing) {
            return Vec::new();
        }
        let i = match find(&self.blocks, &block_id) {
            Some(i) => i,
            None => { return Vec::new(); },
        };
        proof {
            lemma_lookup(self.blocks@, block_id@, i as int);
        }
        let own = match &self.pending {
            Some(p) => same_id(p, &block_id),
            None => false,
        };
        let better = match &self.committing {
            Some(c) => should_switch(self.blocks[i].work, &block_id, c.work, &c.block_id),
            None => should_switch(self.blocks[i].work, &block_id, self.head.work, &self.head.block_id),
        };
        if better {
            let k = self.blocks[i].duplicate();
            let mut r = self.cancel();
            r.push(Command::CommitBlock { block_id: block_id.clone() });
            self.committing = Some(k);
            if own {
                self.pending = None;
            }
            proof {
                assert(cmds(r@) =~= drop_cmds(*old(self)) + seq![CommandView::CommitBlock(block_id@)]);
            }
            r
        } else if own {
            self.pending = None;
            self.phase = Phase::Mining;
            let mut r = vec![Command::IgnoreBlock { block_id }];
            let mut started = self.begin();
            proof {
                assert(cmds(started@)[0] == started@[0]@);
            }
            r.append(&mut started);
            proof {
                assert(cmds(r@) =~= seq![
                    CommandView::IgnoreBlock(block_id@),
                    CommandView::InitializeBlock(old(self).head.block_id@),
                ]);
            }
            r
        } else {
            let r = vec![Command::IgnoreBlock { block_id }];
            proof {
                assert(cmds(r@) =~= seq![CommandView::IgnoreBlock(block_id@)]);
            }
            r
        }
    }

    /// The validator found a block invalid: it is failed.
    fn on_block_invalid(&mut self, block_id: Vec<u8>) -> (r: Vec<Command>)
        requires
            old(self).wf(),
        ensures
            final(self).wf(),
            invalid_outcome(*old(self), *final(self), block_id@, cmds(r@)),
    {
        if !(self.phase == Phase::Mining || self.phase == Phase::Finalizing) {
            return Vec::new();
        }
        if find(&self.blocks, &block_id).is_none() {
            return Vec::new();
        }
        let own = match &self.pending {
            Some(p) => same_id(p, &block_id),
            None => false,
        };
        let mut r = vec![Command::FailBlock { block_id }];
        if own {
            self.pending = None;
            self.phase = Phase::Mining;
            let mut started = self.begin();
            proof {
                assert(cmds(started@).len() == 1);
                assert(started@.len() == 1);
                assert(cmds(started@)[0] == started@[0]@);
            }
            r.append(&mut started);
            proof {
                assert(cmds(r@) =~= seq![
                    CommandView::FailBlock(block_id@),
                    CommandView::InitializeBlock(old(self).head.block_id@),
                ]);
            }
        } else {
            proof {
                assert(cmds(r@) =~= seq![CommandView::FailBlock(block_id@)]);
            }
        }
        r
    }

    /// The validator committed a block: the head follows if it was awaited.
    fn on_block_commit(&mut self, block_id: Vec<u8>) -> (r: Vec<Command>)
        requires
            old(self).wf(),
        ensures
            final(self).wf(),
            commit_outcome(*old(self), *final(self), block_id@, cmds(r@)),
    {
        if !(self.phase == Phase::Mining || self.phase == Phase::Finalizing) {
            return Vec::new();
        }
        let awaited = match &self.committing {
            Some(c) => same_id(&c.block_id, &block_id),
            None => false,
        };
        if !awaited {
            return Vec::new();
        }
        let mut r = self.cancel();
        match self.committing.take() {
            Some(c) => {
                self.difficulty.record_block(c.timestamp);
                self.head = c;
            },
            None => {},
        }
        self.pending = None;
        self.phase = Phase::Mining;
        let mut started = self.begin();
        r.append(&mut started);
        proof {
            assert(cmds(r@) =~= drop_cmds(*old(self)) + seq![CommandView::InitializeBlock(block_id@)]);
        }
        r
    }

    /// Handles one validator event. Once stopped, the engine changes no more
    /// and asks for nothing; peer events change nothing; a shutdown stops
    /// the pool and sends nothing to the validator. Over every event the
    /// chain head's cumulative work never decreases.
    pub fn on_update(&mut self, update: Update) -> (r: Vec<Command>)
        requires
            old(self).wf(),
        ensures
            final(self).wf(),
            old(self).phase != Phase::AwaitingHead ==> final(self).head.work >= old(self).head.work,
            old(self).phase == Phase::Stopped ==> *final(self) == *old(self) && r@.len() == 0,
            update is Shutdown ==> {
                &&& final(self).phase == Phase::Stopped
                &&& !final(self).miner_active
                &&& final(self).candidate is None
                &&& final(self).head == old(self).head
                &&& forall|i: int| 0 <= i < r@.len() ==> !to_validator(#[trigger] cmds(r@)[i])
            },
            old(self).phase != Phase::Stopped ==> match update {
                Update::BlockNew { block } => new_outcome(*old(self), *final(self), block, cmds(r@)),
                Update::BlockValid { block_id } => valid_outcome(*old(self), *final(self), block_id@, cmds(r@)),
                Update::BlockInvalid { block_id } => invalid_outcome(*old(self), *final(self), block_id@, cmds(r@)),
                Update::BlockCommit { block_id } => commit_outcome(*old(self), *final(self), block_id@, cmds(r@)),
                Update::Shutdown => cmds(r@) == (if old(self).miner_active { seq![CommandView::StopMiner] } else { seq![] }),
                _ => *final(self) == *old(self) && r@.len() == 0,
            },
    {
        if self.phase == Phase::Stopped {
            return Vec::new();
        }
        match update {
            Update::BlockNew { block } => self.on_block_new(block),
            Update::BlockValid { block_id } => self.on_block_valid(block_id),
            Update::BlockInvalid { block_id } => self.on_block_invalid(block_id),
            Update::BlockCommit { block_id } => self.on_block_commit(block_id),
            Update::Shutdown => {
                let r = self.on_shutdown();
                proof {
                    assert(cmds(r@).len() == r@.len());
                    assert forall|i: int| 0 <= i < r@.len() implies !to_validator(#[trigger] cmds(r@)[i]) by {
                        assert(cmds(r@)[i] == CommandView::StopMiner);
                    }
                }
                r
            },
            _ => Vec::new(),
        }
    }
}

} // verus!
