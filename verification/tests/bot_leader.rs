use keeper::bot::leader::{FixedLeaderPolicy, HostMirrorLeaderPolicy, LeaderPolicy};
use keeper::decoder::leader_lock::{HeartbeatOutcome, KeeperLeaderLock};
use keeper::decoder::Pubkey32;

const ALICE: Pubkey32 = [0xa1; 32];
const BOB: Pubkey32 = [0xb0; 32];
const TAKEOVER: u64 = 75;

#[test]
fn host_mirror_leader_returns_true_for_holder() {
    let mut policy = HostMirrorLeaderPolicy::new(
        ALICE,
        KeeperLeaderLock::held_by(ALICE, 100, TAKEOVER),
    );
    assert!(policy.should_submit(110));
    assert_eq!(policy.snapshot().last_heartbeat_slot, 110);
}

#[test]
fn host_mirror_leader_rejects_non_holder_when_fresh() {
    let mut policy = HostMirrorLeaderPolicy::new(
        BOB,
        KeeperLeaderLock::held_by(ALICE, 100, TAKEOVER),
    );
    assert!(!policy.should_submit(110));
}

#[test]
fn host_mirror_leader_takes_over_when_stale() {
    let mut policy = HostMirrorLeaderPolicy::new(
        BOB,
        KeeperLeaderLock::held_by(ALICE, 100, TAKEOVER),
    );
    assert!(policy.should_submit(100 + TAKEOVER + 1));
    assert_eq!(policy.snapshot().current_leader_pubkey(), Some(BOB));
}

#[test]
fn record_outcome_updates_mirror_on_rejection() {
    let mut policy = HostMirrorLeaderPolicy::new(
        ALICE,
        KeeperLeaderLock::fresh(0, TAKEOVER),
    );
    assert!(policy.should_submit(50));
    policy.record_outcome(HeartbeatOutcome::RejectedHeldByOther {
        current_leader: BOB,
        slots_until_stale: 60,
    });
    let snap = policy.snapshot();
    assert_eq!(snap.current_leader_pubkey(), Some(BOB));
    assert!(snap.has_leader);
}

#[test]
fn reconcile_replaces_mirror() {
    let mut policy = HostMirrorLeaderPolicy::new(
        ALICE,
        KeeperLeaderLock::fresh(0, TAKEOVER),
    );
    let chain = KeeperLeaderLock::held_by(BOB, 999, TAKEOVER);
    policy.reconcile(chain);
    assert_eq!(policy.snapshot(), chain);
}

#[test]
fn fixed_leader_policy_returns_configured_value() {
    let mut always = FixedLeaderPolicy::always_leader();
    assert!(always.should_submit(0));
    assert!(always.should_submit(u64::MAX));
    let mut standby = FixedLeaderPolicy::always_standby();
    assert!(!standby.should_submit(0));
    assert!(!standby.should_submit(u64::MAX));
}
