use pow_engine::difficulty::DifficultyState;
use pow_engine::engine::{Block, Command, Engine, Phase, Update};
use pow_engine::pow::target_for;

fn block(id: u8, prev: u8, num: u64, difficulty: u64, timestamp: u64) -> Block {
    Block {
        block_id: vec![id],
        previous_id: vec![prev],
        signer_id: vec![0xee],
        block_num: num,
        nonce: 0,
        difficulty,
        timestamp,
    }
}

/// An engine mining atop a head at height 5 with cumulative work 50, its
/// pool running on candidate 0.
fn mining_at_five(difficulty: u64) -> Engine {
    let mut e = Engine::new(DifficultyState::new(difficulty, 100, 60, 4, 0));
    let out = e.on_chain_head(block(5, 4, 5, 10, 500), 50);
    assert_eq!(out, vec![Command::InitializeBlock { previous_id: vec![5] }]);
    assert_eq!(e.phase, Phase::Mining);
    let out = e.on_summary(vec![1, 2, 3]);
    assert_eq!(
        out,
        vec![Command::StartMiner { header: vec![1, 2, 3], target: target_for(difficulty), seq: 0 }]
    );
    assert!(e.miner_active);
    e
}

#[test]
fn head_switch_to_heavier_block() {
    let mut e = mining_at_five(10);
    let out = e.on_update(Update::BlockNew { block: block(6, 5, 6, 10, 560) });
    assert_eq!(out, vec![Command::CheckBlock { block_id: vec![6] }]);
    let out = e.on_update(Update::BlockValid { block_id: vec![6] });
    assert_eq!(out, vec![Command::CancelBlock, Command::StopMiner, Command::CommitBlock { block_id: vec![6] }]);
    assert!(e.candidate.is_none());
    assert!(!e.miner_active);
    let out = e.on_update(Update::BlockCommit { block_id: vec![6] });
    assert_eq!(out, vec![Command::InitializeBlock { previous_id: vec![6] }]);
    assert_eq!(e.head.block_id, vec![6]);
    assert_eq!(e.head.block_num, 6);
    assert_eq!(e.head.work, 60);
    assert_eq!(e.phase, Phase::Mining);
    assert_eq!(e.candidate.as_ref().unwrap().previous_id, vec![6]);
}

#[test]
fn own_block_invalid_resumes_on_same_head() {
    let mut e = mining_at_five(1);
    let out = e.on_mining_result(0, 77);
    assert_eq!(out, vec![Command::StopMiner, Command::FinalizeBlock { nonce: 77, difficulty: 1 }]);
    assert_eq!(e.phase, Phase::Finalizing);
    e.on_finalized(vec![0x66]);
    let out = e.on_update(Update::BlockNew { block: block(0x66, 5, 6, 1, 560) });
    assert_eq!(out, vec![Command::CheckBlock { block_id: vec![0x66] }]);
    let out = e.on_update(Update::BlockInvalid { block_id: vec![0x66] });
    assert_eq!(
        out,
        vec![Command::FailBlock { block_id: vec![0x66] }, Command::InitializeBlock { previous_id: vec![5] }]
    );
    assert_eq!(e.head.block_id, vec![5]);
    assert_eq!(e.head.block_num, 5);
    assert_eq!(e.phase, Phase::Mining);
    assert!(e.pending.is_none());
    assert_eq!(e.candidate.as_ref().unwrap().previous_id, vec![5]);
}

#[test]
fn own_block_valid_becomes_head() {
    let mut e = mining_at_five(1);
    e.on_mining_result(0, 1);
    e.on_finalized(vec![0x66]);
    e.on_update(Update::BlockNew { block: block(0x66, 5, 6, 1, 560) });
    let out = e.on_update(Update::BlockValid { block_id: vec![0x66] });
    assert_eq!(out, vec![Command::CommitBlock { block_id: vec![0x66] }]);
    let out = e.on_update(Update::BlockCommit { block_id: vec![0x66] });
    assert_eq!(out, vec![Command::InitializeBlock { previous_id: vec![0x66] }]);
    assert_eq!(e.head.work, 51);
    assert_eq!(e.difficulty.since_retarget, 1);
}

#[test]
fn stale_or_wrong_mining_result_is_dropped() {
    let mut e = mining_at_five(u64::MAX);
    assert_eq!(e.on_mining_result(9, 1), vec![]);
    // The hardest target: a digest of zero is all but impossible.
    assert_eq!(e.on_mining_result(0, 1), vec![]);
    assert_eq!(e.phase, Phase::Mining);
}

fn resolve(order: &[(u8, u64)]) -> Engine {
    let mut e = mining_at_five(10);
    for (id, d) in order {
        e.on_update(Update::BlockNew { block: block(*id, 5, 6, *d, 560) });
    }
    for (id, _) in order {
        e.on_update(Update::BlockValid { block_id: vec![*id] });
    }
    for (id, _) in order {
        e.on_update(Update::BlockCommit { block_id: vec![*id] });
    }
    e
}

#[test]
fn heavier_fork_wins_in_either_order() {
    let a = resolve(&[(0xa1, 30), (0xa2, 20)]);
    let b = resolve(&[(0xa2, 20), (0xa1, 30)]);
    assert_eq!(a.head.block_id, vec![0xa1]);
    assert_eq!(b.head.block_id, vec![0xa1]);
    assert_eq!(a.head.work, 80);
    assert_eq!(b.head.work, 80);
}

#[test]
fn lighter_fork_is_ignored() {
    let mut e = mining_at_five(10);
    e.on_update(Update::BlockNew { block: block(0xa1, 5, 6, 30, 560) });
    e.on_update(Update::BlockValid { block_id: vec![0xa1] });
    e.on_update(Update::BlockCommit { block_id: vec![0xa1] });
    e.on_update(Update::BlockNew { block: block(0xa2, 5, 6, 20, 560) });
    let out = e.on_update(Update::BlockValid { block_id: vec![0xa2] });
    assert_eq!(out, vec![Command::IgnoreBlock { block_id: vec![0xa2] }]);
    assert_eq!(e.head.block_id, vec![0xa1]);
}

#[test]
fn equal_work_tie_goes_to_lower_id_in_either_order() {
    let a = resolve(&[(0xb2, 20), (0xb1, 20)]);
    let b = resolve(&[(0xb1, 20), (0xb2, 20)]);
    assert_eq!(a.head.block_id, vec![0xb1]);
    assert_eq!(b.head.block_id, vec![0xb1]);
}

#[test]
fn second_begin_is_a_no_op() {
    let mut e = mining_at_five(10);
    let before = e.candidate.clone();
    assert_eq!(e.begin(), vec![]);
    assert_eq!(e.candidate, before);
    assert_eq!(e.next_seq, 1);
}

#[test]
fn shutdown_stops_pool_and_silences_engine() {
    let mut e = mining_at_five(10);
    let out = e.on_update(Update::Shutdown);
    assert_eq!(out, vec![Command::StopMiner]);
    assert_eq!(e.phase, Phase::Stopped);
    assert!(!e.miner_active);
    assert!(e.candidate.is_none());
    assert_eq!(e.on_update(Update::BlockNew { block: block(6, 5, 6, 10, 560) }), vec![]);
    assert_eq!(e.on_update(Update::Shutdown), vec![]);
    assert_eq!(e.on_summary(vec![1]), vec![]);
    assert_eq!(e.on_mining_result(0, 1), vec![]);
    assert_eq!(e.on_finalize_failed(), vec![]);
}

#[test]
fn unknown_blocks_are_dropped() {
    let mut e = mining_at_five(10);
    assert_eq!(e.on_update(Update::BlockNew { block: block(7, 0x99, 7, 10, 600) }), vec![]);
    assert_eq!(e.on_update(Update::BlockValid { block_id: vec![0x42] }), vec![]);
    assert_eq!(e.on_update(Update::BlockInvalid { block_id: vec![0x42] }), vec![]);
    assert_eq!(e.on_update(Update::BlockCommit { block_id: vec![5] }), vec![]);
    assert_eq!(e.head.block_id, vec![5]);
    assert_eq!(e.blocks.len(), 1);
}

#[test]
fn peer_events_change_nothing() {
    let mut e = mining_at_five(10);
    assert_eq!(e.on_update(Update::PeerConnected { peer_id: vec![1] }), vec![]);
    assert_eq!(e.on_update(Update::PeerMessage { peer_id: vec![1], payload: vec![2] }), vec![]);
    assert_eq!(e.on_update(Update::PeerDisconnected { peer_id: vec![1] }), vec![]);
    assert!(e.miner_active);
}

#[test]
fn finalize_failure_resumes_mining() {
    let mut e = mining_at_five(1);
    e.on_mining_result(0, 3);
    let out = e.on_finalize_failed();
    assert_eq!(out, vec![Command::InitializeBlock { previous_id: vec![5] }]);
    assert_eq!(e.phase, Phase::Mining);
}

#[test]
fn events_before_head_are_dropped() {
    let mut e = Engine::new(DifficultyState::new(10, 100, 60, 4, 0));
    assert_eq!(e.on_update(Update::BlockNew { block: block(6, 5, 6, 10, 560) }), vec![]);
    assert_eq!(e.phase, Phase::AwaitingHead);
    let out = e.on_update(Update::Shutdown);
    assert_eq!(out, vec![]);
    assert_eq!(e.phase, Phase::Stopped);
}

#[test]
fn cancel_discards_candidate_and_pool() {
    let mut e = mining_at_five(10);
    assert_eq!(e.cancel(), vec![Command::CancelBlock, Command::StopMiner]);
    assert!(e.candidate.is_none());
    assert!(!e.miner_active);
    assert_eq!(e.cancel(), vec![]);
    assert_eq!(e.begin(), vec![Command::InitializeBlock { previous_id: vec![5] }]);
    assert_eq!(e.candidate.as_ref().unwrap().seq, 1);
}
