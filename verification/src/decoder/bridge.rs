//! The encoders and the lock decoder over primitive arguments, for callers
//! that cannot pass records: a browser, a foreign-function interface.
use vstd::prelude::*;

use crate::decoder::ix;
use crate::decoder::ix::{
    ClosePositionArgs, KeeperLeaderAcquireArgs, KeeperLeaderHeartbeatArgs, KeeperLeaderReleaseArgs,
    OpenPositionArgs, PriceEnvelopeArgs, KEEPER_LEADER_LOCK_SEED,
};
use crate::decoder::leader_lock::{KeeperLeaderLock, KEEPER_LEADER_LOCK_BODY_LEN};
use crate::decoder::{Pubkey32, ANCHOR_DISCRIMINATOR_LEN};
use crate::text;
use crate::wire;
use crate::wire::{WireDecode, WireEncode, WireError};

verus! {

/// The discriminator of the instruction `name`.
pub fn instruction_discriminator(name: &str) -> (r: Vec<u8>)
    ensures
        r@ == ix::discriminator_spec(ix::ANCHOR_INSTRUCTION_NAMESPACE@, name@),
{
    vstd::slice::slice_to_vec(ix::instruction_discriminator(name).as_slice())
}

/// The discriminator of the account type `name`.
pub fn account_discriminator(name: &str) -> (r: Vec<u8>)
    ensures
        r@ == ix::discriminator_spec(ix::ANCHOR_ACCOUNT_NAMESPACE@, name@),
{
    vstd::slice::slice_to_vec(ix::account_discriminator(name).as_slice())
}

/// Encodes the instruction `open_position`.
pub fn encode_open_position(
    envelope_p_now: u64,
    envelope_slot: u64,
    envelope_expected_min: u64,
    envelope_expected_max: u64,
    direction_is_long: bool,
    gross_amount: u64,
    position_id: u64,
) -> (r: Vec<u8>)
    ensures
        r@ == ix::instruction_bytes(
            "open_position"@,
            &(OpenPositionArgs {
                envelope: PriceEnvelopeArgs {
                    p_now: envelope_p_now,
                    slot: envelope_slot,
                    expected_min: envelope_expected_min,
                    expected_max: envelope_expected_max,
                },
                direction_is_long,
                gross_amount,
                position_id,
            }),
        ),
{
    ix::encode_open_position(
        &OpenPositionArgs {
            envelope: PriceEnvelopeArgs {
                p_now: envelope_p_now,
                slot: envelope_slot,
                expected_min: envelope_expected_min,
                expected_max: envelope_expected_max,
            },
            direction_is_long,
            gross_amount,
            position_id,
        },
    )
}

/// Encodes the instruction `close_position`.
pub fn encode_close_position(
    envelope_p_now: u64,
    envelope_slot: u64,
    envelope_expected_min: u64,
    envelope_expected_max: u64,
    long_bucket_count: u32,
    short_bucket_count: u32,
) -> (r: Vec<u8>)
    ensures
        r@ == ix::instruction_bytes(
            "close_position"@,
            &(ClosePositionArgs {
                envelope: PriceEnvelopeArgs {
                    p_now: envelope_p_now,
                    slot: envelope_slot,
                    expected_min: envelope_expected_min,
                    expected_max: envelope_expected_max,
                },
                long_bucket_count,
                short_bucket_count,
            }),
        ),
{
    ix::encode_close_position(
        &ClosePositionArgs {
            envelope: PriceEnvelopeArgs {
                p_now: envelope_p_now,
                slot: envelope_slot,
                expected_min: envelope_expected_min,
                expected_max: envelope_expected_max,
            },
            long_bucket_count,
            short_bucket_count,
        },
    )
}

/// Encodes the instruction `keeper_leader_heartbeat`.
pub fn encode_keeper_leader_heartbeat(observed_slot: u64) -> (r: Vec<u8>)
    ensures
        r@ == ix::instruction_bytes(
            "keeper_leader_heartbeat"@,
            &(KeeperLeaderHeartbeatArgs { observed_slot }),
        ),
{
    ix::encode_keeper_leader_heartbeat(&KeeperLeaderHeartbeatArgs { observed_slot })
}

/// Encodes the instruction `keeper_leader_acquire`.
pub fn encode_keeper_leader_acquire(observed_slot: u64) -> (r: Vec<u8>)
    ensures
        r@ == ix::instruction_bytes(
            "keeper_leader_acquire"@,
            &(KeeperLeaderAcquireArgs { observed_slot }),
        ),
{
    ix::encode_keeper_leader_acquire(&KeeperLeaderAcquireArgs { observed_slot })
}

/// Encodes the instruction `keeper_leader_release`.
pub fn encode_keeper_leader_release() -> (r: Vec<u8>)
    ensures
        r@ == ix::instruction_bytes("keeper_leader_release"@, &(KeeperLeaderReleaseArgs {  })),
{
    ix::encode_keeper_leader_release(&KeeperLeaderReleaseArgs {  })
}

/// A decoded leader lock, read field by field.
pub struct KeeperLeaderLockView {
    has_leader: bool,
    current_leader: Pubkey32,
    last_heartbeat_slot: u64,
    takeover_threshold_slots: u64,
}

impl KeeperLeaderLockView {
    /// The lock.
    pub closed spec fn lock(&self) -> KeeperLeaderLock {
        KeeperLeaderLock {
            has_leader: self.has_leader,
            current_leader: self.current_leader,
            last_heartbeat_slot: self.last_heartbeat_slot,
            takeover_threshold_slots: self.takeover_threshold_slots,
        }
    }

    /// Whether the lock records a leader.
    pub fn has_leader(&self) -> (r: bool)
        ensures
            r == self.lock().has_leader,
    {
        self.has_leader
    }

    /// The 32 bytes of the leader's address.
    pub fn current_leader(&self) -> (r: Vec<u8>)
        ensures
            r@ == self.lock().current_leader@,
    {
        vstd::slice::slice_to_vec(self.current_leader.as_slice())
    }

    /// Slot of the last heartbeat.
    pub fn last_heartbeat_slot(&self) -> (r: u64)
        ensures
            r == self.lock().last_heartbeat_slot,
    {
        self.last_heartbeat_slot
    }

    /// The takeover threshold in slots.
    pub fn takeover_threshold_slots(&self) -> (r: u64)
        ensures
            r == self.lock().takeover_threshold_slots,
    {
        self.takeover_threshold_slots
    }
}

/// The layout of a lock within a payload: all of 49 bytes, or the 49 bytes
/// behind the discriminator of a payload that is long enough for both.
pub open spec fn lock_body(bytes: Seq<u8>) -> Option<Seq<u8>> {
    if bytes.len() == KEEPER_LEADER_LOCK_BODY_LEN {
        Some(bytes)
    } else if bytes.len() >= ANCHOR_DISCRIMINATOR_LEN + KEEPER_LEADER_LOCK_BODY_LEN {
        Some(
            bytes.subrange(
                ANCHOR_DISCRIMINATOR_LEN as int,
                ANCHOR_DISCRIMINATOR_LEN + KEEPER_LEADER_LOCK_BODY_LEN,
            ),
        )
    } else {
        None
    }
}

/// The complaint about a payload that holds no lock.
pub open spec fn short_payload_text(len: nat) -> Seq<char> {
    "keeper-leader-lock payload too short: got "@ + text::decimal(len) + " bytes, need "@
        + text::decimal(KEEPER_LEADER_LOCK_BODY_LEN as nat) + " or "@ + text::decimal(
        (ANCHOR_DISCRIMINATOR_LEN + KEEPER_LEADER_LOCK_BODY_LEN) as nat,
    )
}

/// Decodes a leader lock from its 49 bytes, or from account data with the
/// discriminator in front and any padding behind.
pub fn decode_keeper_leader_lock(bytes: &[u8]) -> (r: Result<KeeperLeaderLockView, String>)
    ensures
        match lock_body(bytes@) {
            Some(body) => match r {
                Ok(view) => view.lock().wire() == body && body[0] <= 1,
                Err(reason) => body[0] > 1 && reason@ == WireError::InvalidBool(body[0]).text(),
            },
            None => r matches Err(reason) && reason@ == short_payload_text(bytes@.len()),
        },
{
    let len: usize = bytes.len();
    if len == KEEPER_LEADER_LOCK_BODY_LEN {
        read_lock(bytes)
    } else if len >= ANCHOR_DISCRIMINATOR_LEN + KEEPER_LEADER_LOCK_BODY_LEN {
        read_lock(
            vstd::slice::slice_subrange(
                bytes,
                ANCHOR_DISCRIMINATOR_LEN,
                ANCHOR_DISCRIMINATOR_LEN + KEEPER_LEADER_LOCK_BODY_LEN,
            ),
        )
    } else {
        let mut out = String::from_str("keeper-leader-lock payload too short: got ");
        text::push_decimal(&mut out, len as u128);
        out.append(" bytes, need ");
        text::push_decimal(&mut out, KEEPER_LEADER_LOCK_BODY_LEN as u128);
        out.append(" or ");
        text::push_decimal(
            &mut out,
            (ANCHOR_DISCRIMINATOR_LEN + KEEPER_LEADER_LOCK_BODY_LEN) as u128,
        );
        Err(out)
    }
}

/// Reads a lock from exactly 49 bytes.
fn read_lock(body: &[u8]) -> (r: Result<KeeperLeaderLockView, String>)
    requires
        body@.len() == KEEPER_LEADER_LOCK_BODY_LEN,
    ensures
        match r {
            Ok(view) => view.lock().wire() == body@ && body@[0] <= 1,
            Err(reason) => body@[0] > 1 && reason@ == WireError::InvalidBool(body@[0]).text(),
        },
{
    match KeeperLeaderLock::try_from_slice(body) {
        Ok(lock) => {
            let view = KeeperLeaderLockView {
                has_leader: lock.has_leader,
                current_leader: lock.current_leader,
                last_heartbeat_slot: lock.last_heartbeat_slot,
                takeover_threshold_slots: lock.takeover_threshold_slots,
            };
            proof {
                assert(view.lock() == lock);
            }
            Ok(view)
        },
        Err(e) => Err(e.to_string()),
    }
}

/// The seed prefix of the lock's address.
pub fn keeper_leader_lock_seed_prefix() -> (r: Vec<u8>)
    ensures
        r@ == KEEPER_LEADER_LOCK_SEED@,
{
    vstd::slice::slice_to_vec(KEEPER_LEADER_LOCK_SEED.as_slice())
}

/// A lock decodes from its bare layout and from its account data alike,
/// whatever discriminator stands before it and whatever padding behind it.
pub proof fn law_lock_payload_forms_agree(
    lock: KeeperLeaderLock,
    discriminator: Seq<u8>,
    padding: Seq<u8>,
)
    requires
        discriminator.len() == ANCHOR_DISCRIMINATOR_LEN,
    ensures
        lock_body(lock.wire()) == Some(lock.wire()),
        lock_body(discriminator + lock.wire() + padding) == Some(lock.wire()),
{
    crate::decoder::leader_lock::lemma_lock_len(lock);
    assert((discriminator + lock.wire() + padding).subrange(8, 57) =~= lock.wire());
}

/// A payload of any other length than that of a lock, and shorter than a lock
/// behind a discriminator, holds none.
pub proof fn law_short_payloads_hold_no_lock(bytes: Seq<u8>)
    ensures
        lock_body(bytes) is None <==> bytes.len() != 49 && bytes.len() < 57,
        lock_body(bytes) matches Some(body) ==> body.len() == 49,
{
}

} // verus!
