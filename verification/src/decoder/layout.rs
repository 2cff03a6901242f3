//! Where each field of an account stands, byte by byte.
//!
//! The program that writes the accounts lays their fields out in the order of
//! their declaration, without gaps, and integers with the least significant
//! byte first. Here stand the positions themselves, counted from the start of
//! the record; in the data of an account the record starts after the
//! discriminator.
use vstd::prelude::*;

use crate::decoder;
use crate::decoder::accounts::{
    entries_wire, lemma_entries_len, OnchainDistEntry, OnchainDistributionLedger,
    OnchainDormantBucket, OnchainMarket, OnchainPosition, OnchainSubPool,
};
use crate::decoder::ix;
use crate::decoder::ix::{
    ClosePositionArgs, KeeperLeaderAcquireArgs, KeeperLeaderHeartbeatArgs, KeeperLeaderReleaseArgs,
    OpenPositionArgs, PriceEnvelopeArgs,
};
use crate::decoder::leader_lock::KeeperLeaderLock;
use crate::decoder::AccountDecodeError;
use crate::wire;
use crate::wire::{WireDecode, WireEncode};

verus! {

/// The unsigned number in the `n` bytes from `at` on, least significant first.
pub open spec fn number(bytes: Seq<u8>, at: int, n: nat) -> int
    decreases n,
{
    if n == 0 {
        0
    } else {
        bytes[at] + 256 * number(bytes, at + 1, (n - 1) as nat)
    }
}

/// The signed number in the eight bytes from `at` on.
pub open spec fn signed(bytes: Seq<u8>, at: int) -> int {
    if number(bytes, at, 8) >= 0x8000_0000_0000_0000 {
        number(bytes, at, 8) - 0x1_0000_0000_0000_0000
    } else {
        number(bytes, at, 8)
    }
}

/// The truth value in the byte at `at`.
pub open spec fn flag(bytes: Seq<u8>, at: int) -> bool {
    bytes[at] == 1
}

/// A number read off a byte string is that of the bytes it stands in.
pub proof fn lemma_number(bytes: Seq<u8>, at: int, n: nat)
    requires
        0 <= at,
        at + n <= bytes.len(),
    ensures
        number(bytes, at, n) == wire::le_value(bytes.subrange(at, at + n)),
    decreases n,
{
    if n > 0 {
        lemma_number(bytes, at + 1, (n - 1) as nat);
        assert(bytes.subrange(at, at + n).drop_first() =~= bytes.subrange(at + 1, at + n));
    }
}

/// Where a field stands whose predecessors take `at` bytes.
proof fn lemma_field(fields: Seq<Seq<u8>>, i: int, at: int)
    requires
        0 <= i < fields.len(),
        wire::concat(fields.take(i)).len() == at,
    ensures
        at + fields[i].len() <= wire::concat(fields).len(),
        wire::concat(fields).subrange(at, at + fields[i].len()) == fields[i],
        wire::concat(fields.take(i + 1)).len() == at + fields[i].len(),
    decreases fields.len(),
{
    assert(fields.take(i + 1).drop_last() =~= fields.take(i));
    if i == fields.len() - 1 {
        assert(fields.take(i + 1) =~= fields);
        assert(wire::concat(fields).subrange(at, at + fields[i].len()) =~= fields[i]);
    } else {
        let most = fields.drop_last();
        assert(most.take(i) =~= fields.take(i));
        assert(most.take(i + 1) =~= fields.take(i + 1));
        lemma_field(most, i, at);
        assert(wire::concat(fields) == wire::concat(most) + fields.last());
        assert(wire::concat(fields).subrange(at, at + fields[i].len()) =~= wire::concat(
            most,
        ).subrange(at, at + fields[i].len()));
    }
}

/// Before the first field there are no bytes.
proof fn lemma_start(fields: Seq<Seq<u8>>)
    ensures
        wire::concat(fields.take(0)).len() == 0,
{
    assert(fields.take(0) =~= Seq::<Seq<u8>>::empty());
}

/// Where a number stands.
proof fn lemma_le(fields: Seq<Seq<u8>>, i: int, at: int, x: nat, n: nat)
    requires
        0 <= i < fields.len(),
        0 <= at,
        wire::concat(fields.take(i)).len() == at,
        fields[i] == wire::le_bytes(x, n),
        x < wire::byte_range(n),
    ensures
        at + n <= wire::concat(fields).len(),
        number(wire::concat(fields), at, n) == x,
        wire::concat(fields.take(i + 1)).len() == at + n,
{
    wire::lemma_le_bytes_len(x, n);
    lemma_field(fields, i, at);
    lemma_number(wire::concat(fields), at, n);
    wire::lemma_le_value_of_le_bytes(x, n);
}

/// Where a `u16` stands.
proof fn lemma_u16(fields: Seq<Seq<u8>>, i: int, at: int, x: u16)
    requires
        0 <= i < fields.len(),
        0 <= at,
        wire::concat(fields.take(i)).len() == at,
        fields[i] == wire::u16_wire(x),
    ensures
        number(wire::concat(fields), at, 2) == x,
        wire::concat(fields.take(i + 1)).len() == at + 2,
{
    wire::lemma_byte_ranges();
    lemma_le(fields, i, at, x as nat, 2);
}

/// Where a `u32` stands.
proof fn lemma_u32(fields: Seq<Seq<u8>>, i: int, at: int, x: u32)
    requires
        0 <= i < fields.len(),
        0 <= at,
        wire::concat(fields.take(i)).len() == at,
        fields[i] == wire::u32_wire(x),
    ensures
        number(wire::concat(fields), at, 4) == x,
        wire::concat(fields.take(i + 1)).len() == at + 4,
{
    wire::lemma_byte_ranges();
    lemma_le(fields, i, at, x as nat, 4);
}

/// Where a `u64` stands.
proof fn lemma_u64(fields: Seq<Seq<u8>>, i: int, at: int, x: u64)
    requires
        0 <= i < fields.len(),
        0 <= at,
        wire::concat(fields.take(i)).len() == at,
        fields[i] == wire::u64_wire(x),
    ensures
        number(wire::concat(fields), at, 8) == x,
        wire::concat(fields.take(i + 1)).len() == at + 8,
{
    wire::lemma_byte_ranges();
    lemma_le(fields, i, at, x as nat, 8);
}

/// Where a `u128` stands.
proof fn lemma_u128(fields: Seq<Seq<u8>>, i: int, at: int, x: u128)
    requires
        0 <= i < fields.len(),
        0 <= at,
        wire::concat(fields.take(i)).len() == at,
        fields[i] == wire::u128_wire(x),
    ensures
        number(wire::concat(fields), at, 16) == x,
        wire::concat(fields.take(i + 1)).len() == at + 16,
{
    wire::lemma_byte_ranges();
    lemma_le(fields, i, at, x as nat, 16);
}

/// Where an `i64` stands.
proof fn lemma_i64(fields: Seq<Seq<u8>>, i: int, at: int, x: i64)
    requires
        0 <= i < fields.len(),
        0 <= at,
        wire::concat(fields.take(i)).len() == at,
        fields[i] == wire::i64_wire(x),
    ensures
        signed(wire::concat(fields), at) == x,
        wire::concat(fields.take(i + 1)).len() == at + 8,
{
    wire::lemma_byte_ranges();
    lemma_le(fields, i, at, wire::i64_pattern(x), 8);
}

/// Where a `u8` stands.
proof fn lemma_u8(fields: Seq<Seq<u8>>, i: int, at: int, x: u8)
    requires
        0 <= i < fields.len(),
        0 <= at,
        wire::concat(fields.take(i)).len() == at,
        fields[i] == wire::u8_wire(x),
    ensures
        wire::concat(fields)[at] == x,
        wire::concat(fields.take(i + 1)).len() == at + 1,
{
    lemma_field(fields, i, at);
    assert(wire::concat(fields).subrange(at, at + 1)[0] == wire::concat(fields)[at]);
}

/// Where a `bool` stands.
proof fn lemma_bool(fields: Seq<Seq<u8>>, i: int, at: int, x: bool)
    requires
        0 <= i < fields.len(),
        0 <= at,
        wire::concat(fields.take(i)).len() == at,
        fields[i] == wire::bool_wire(x),
    ensures
        wire::concat(fields)[at] <= 1,
        flag(wire::concat(fields), at) == x,
        wire::concat(fields.take(i + 1)).len() == at + 1,
{
    lemma_field(fields, i, at);
    assert(wire::concat(fields).subrange(at, at + 1)[0] == wire::concat(fields)[at]);
}

/// Where bytes stand.
proof fn lemma_bytes(fields: Seq<Seq<u8>>, i: int, at: int, x: Seq<u8>)
    requires
        0 <= i < fields.len(),
        0 <= at,
        wire::concat(fields.take(i)).len() == at,
        fields[i] == x,
    ensures
        wire::concat(fields).subrange(at, at + x.len()) == x,
        wire::concat(fields.take(i + 1)).len() == at + x.len(),
{
    lemma_field(fields, i, at);
}

/// Where each field of a `SubPool` record stands.
#[verifier::spinoff_prover]
#[verifier::rlimit(60)]
pub proof fn law_sub_pool_layout(sub_pool: OnchainSubPool)
    ensures
        sub_pool.wire().len() == 244,
        sub_pool.wire().subrange(0, 32) == sub_pool.market@,
        number(sub_pool.wire(), 32, 4) == sub_pool.sub_pool_id,
        number(sub_pool.wire(), 36, 16) == sub_pool.long_pool_equity,
        number(sub_pool.wire(), 52, 16) == sub_pool.short_pool_equity,
        number(sub_pool.wire(), 68, 16) == sub_pool.long_active_shares,
        number(sub_pool.wire(), 84, 16) == sub_pool.short_active_shares,
        number(sub_pool.wire(), 100, 16) == sub_pool.long_recovery_shares,
        number(sub_pool.wire(), 116, 16) == sub_pool.short_recovery_shares,
        number(sub_pool.wire(), 132, 16) == sub_pool.long_active_notional,
        number(sub_pool.wire(), 148, 16) == sub_pool.short_active_notional,
        number(sub_pool.wire(), 164, 8) == sub_pool.long_active_generation,
        number(sub_pool.wire(), 172, 8) == sub_pool.short_active_generation,
        number(sub_pool.wire(), 180, 8) == sub_pool.last_price,
        number(sub_pool.wire(), 188, 8) == sub_pool.last_sync_slot,
        number(sub_pool.wire(), 196, 16) == sub_pool.long_dust,
        number(sub_pool.wire(), 212, 16) == sub_pool.short_dust,
        number(sub_pool.wire(), 228, 4) == sub_pool.long_dormant_bucket_count,
        number(sub_pool.wire(), 232, 4) == sub_pool.short_dormant_bucket_count,
        sub_pool.wire()[236] == sub_pool.bump,
        sub_pool.wire().subrange(237, 244) == sub_pool._pad@,
{
    let f = sub_pool.fields();
    lemma_start(f);
    lemma_bytes(f, 0, 0, sub_pool.market@);
    lemma_u32(f, 1, 32, sub_pool.sub_pool_id);
    lemma_u128(f, 2, 36, sub_pool.long_pool_equity);
    lemma_u128(f, 3, 52, sub_pool.short_pool_equity);
    lemma_u128(f, 4, 68, sub_pool.long_active_shares);
    lemma_u128(f, 5, 84, sub_pool.short_active_shares);
    lemma_u128(f, 6, 100, sub_pool.long_recovery_shares);
    lemma_u128(f, 7, 116, sub_pool.short_recovery_shares);
    lemma_u128(f, 8, 132, sub_pool.long_active_notional);
    lemma_u128(f, 9, 148, sub_pool.short_active_notional);
    lemma_u64(f, 10, 164, sub_pool.long_active_generation);
    lemma_u64(f, 11, 172, sub_pool.short_active_generation);
    lemma_u64(f, 12, 180, sub_pool.last_price);
    lemma_u64(f, 13, 188, sub_pool.last_sync_slot);
    lemma_u128(f, 14, 196, sub_pool.long_dust);
    lemma_u128(f, 15, 212, sub_pool.short_dust);
    lemma_u32(f, 16, 228, sub_pool.long_dormant_bucket_count);
    lemma_u32(f, 17, 232, sub_pool.short_dormant_bucket_count);
    lemma_u8(f, 18, 236, sub_pool.bump);
    lemma_bytes(f, 19, 237, sub_pool._pad@);
    assert(f.take(20) =~= f);
}

/// Where each field of a `DormantBucket` record stands.
#[verifier::spinoff_prover]
#[verifier::rlimit(60)]
pub proof fn law_bucket_layout(bucket: OnchainDormantBucket)
    ensures
        bucket.wire().len() == 120,
        bucket.wire().subrange(0, 32) == bucket.sub_pool@,
        flag(bucket.wire(), 32) == bucket.direction_is_long,
        signed(bucket.wire(), 33) == bucket.zero_price_tick,
        number(bucket.wire(), 41, 8) == bucket.anchor_price,
        number(bucket.wire(), 49, 16) == bucket.total_recovery_shares,
        number(bucket.wire(), 65, 16) == bucket.total_recovery_notional,
        number(bucket.wire(), 81, 16) == bucket.accrued_value,
        number(bucket.wire(), 97, 8) == bucket.position_count,
        number(bucket.wire(), 105, 8) == bucket.last_applied_index,
        bucket.wire()[113] == bucket.bump,
        bucket.wire().subrange(114, 120) == bucket._pad@,
{
    let f = bucket.fields();
    lemma_start(f);
    lemma_bytes(f, 0, 0, bucket.sub_pool@);
    lemma_bool(f, 1, 32, bucket.direction_is_long);
    lemma_i64(f, 2, 33, bucket.zero_price_tick);
    lemma_u64(f, 3, 41, bucket.anchor_price);
    lemma_u128(f, 4, 49, bucket.total_recovery_shares);
    lemma_u128(f, 5, 65, bucket.total_recovery_notional);
    lemma_u128(f, 6, 81, bucket.accrued_value);
    lemma_u64(f, 7, 97, bucket.position_count);
    lemma_u64(f, 8, 105, bucket.last_applied_index);
    lemma_u8(f, 9, 113, bucket.bump);
    lemma_bytes(f, 10, 114, bucket._pad@);
    assert(f.take(11) =~= f);
}

/// Where each field of a `DistEntry` record stands.
#[verifier::spinoff_prover]
#[verifier::rlimit(60)]
pub proof fn law_entry_layout(entry: OnchainDistEntry)
    ensures
        entry.wire().len() == 64,
        number(entry.wire(), 0, 8) == entry.event_index,
        number(entry.wire(), 8, 8) == entry.p_at_event,
        number(entry.wire(), 16, 16) == entry.total_outstanding_at_event,
        number(entry.wire(), 32, 16) == entry.total_alloc_input,
        number(entry.wire(), 48, 16) == entry.allocated_sum_observed,
{
    let f = entry.fields();
    lemma_start(f);
    lemma_u64(f, 0, 0, entry.event_index);
    lemma_u64(f, 1, 8, entry.p_at_event);
    lemma_u128(f, 2, 16, entry.total_outstanding_at_event);
    lemma_u128(f, 3, 32, entry.total_alloc_input);
    lemma_u128(f, 4, 48, entry.allocated_sum_observed);
    assert(f.take(5) =~= f);
}

/// Where each field of a `Market` record stands.
#[verifier::spinoff_prover]
#[verifier::rlimit(60)]
pub proof fn law_market_layout(market: OnchainMarket)
    ensures
        market.wire().len() == 364,
        market.wire().subrange(0, 32) == market.global_config@,
        market.wire().subrange(32, 48) == market.symbol@,
        market.wire().subrange(48, 80) == market.collateral_mint@,
        market.wire().subrange(80, 112) == market.vault@,
        market.wire().subrange(112, 144) == market.fee_vault@,
        market.wire().subrange(144, 176) == market.oracle_price_feed@,
        market.wire().subrange(176, 208) == market.oracle_program_id@,
        number(market.wire(), 208, 4) == market.leverage_bps,
        number(market.wire(), 212, 8) == market.min_margin,
        number(market.wire(), 220, 8) == market.max_margin_per_position,
        number(market.wire(), 228, 16) == market.max_total_principal,
        number(market.wire(), 244, 16) == market.max_total_notional,
        number(market.wire(), 260, 16) == market.current_total_principal,
        number(market.wire(), 276, 16) == market.current_total_notional,
        number(market.wire(), 292, 2) == market.open_fee_bps,
        signed(market.wire(), 294) == market.max_oracle_age_seconds,
        number(market.wire(), 302, 8) == market.max_oracle_age_slots,
        number(market.wire(), 310, 2) == market.max_confidence_bps,
        number(market.wire(), 312, 4) == market.max_price_move_bps_per_sync,
        number(market.wire(), 316, 8) == market.price_tick,
        number(market.wire(), 324, 4) == market.tick_aggregation_factor,
        number(market.wire(), 328, 4) == market.max_dormant_bucket_count_per_direction,
        number(market.wire(), 332, 4) == market.dilution_safety_bps,
        number(market.wire(), 336, 8) == market.max_idle_slots,
        flag(market.wire(), 344) == market.paused,
        flag(market.wire(), 345) == market.frozen_new_position,
        number(market.wire(), 346, 2) == market.schema_version,
        number(market.wire(), 348, 4) == market.sub_pool_count,
        market.wire()[352] == market.dormant_distribute_mode,
        number(market.wire(), 353, 4) == market.max_pending_apply_per_tx,
        number(market.wire(), 357, 4) == market.max_distribution_ledger_size,
        market.wire()[361] == market.bump,
        market.wire().subrange(362, 364) == market._pad@,
{
    let f = market.fields();
    lemma_start(f);
    lemma_bytes(f, 0, 0, market.global_config@);
    lemma_bytes(f, 1, 32, market.symbol@);
    lemma_bytes(f, 2, 48, market.collateral_mint@);
    lemma_bytes(f, 3, 80, market.vault@);
    lemma_bytes(f, 4, 112, market.fee_vault@);
    lemma_bytes(f, 5, 144, market.oracle_price_feed@);
    lemma_bytes(f, 6, 176, market.oracle_program_id@);
    lemma_u32(f, 7, 208, market.leverage_bps);
    lemma_u64(f, 8, 212, market.min_margin);
    lemma_u64(f, 9, 220, market.max_margin_per_position);
    lemma_u128(f, 10, 228, market.max_total_principal);
    lemma_u128(f, 11, 244, market.max_total_notional);
    lemma_u128(f, 12, 260, market.current_total_principal);
    lemma_u128(f, 13, 276, market.current_total_notional);
    lemma_u16(f, 14, 292, market.open_fee_bps);
    lemma_i64(f, 15, 294, market.max_oracle_age_seconds);
    lemma_u64(f, 16, 302, market.max_oracle_age_slots);
    lemma_u16(f, 17, 310, market.max_confidence_bps);
    lemma_u32(f, 18, 312, market.max_price_move_bps_per_sync);
    lemma_u64(f, 19, 316, market.price_tick);
    lemma_u32(f, 20, 324, market.tick_aggregation_factor);
    lemma_u32(f, 21, 328, market.max_dormant_bucket_count_per_direction);
    lemma_u32(f, 22, 332, market.dilution_safety_bps);
    lemma_u64(f, 23, 336, market.max_idle_slots);
    lemma_bool(f, 24, 344, market.paused);
    lemma_bool(f, 25, 345, market.frozen_new_position);
    lemma_u16(f, 26, 346, market.schema_version);
    lemma_u32(f, 27, 348, market.sub_pool_count);
    lemma_u8(f, 28, 352, market.dormant_distribute_mode);
    lemma_u32(f, 29, 353, market.max_pending_apply_per_tx);
    lemma_u32(f, 30, 357, market.max_distribution_ledger_size);
    lemma_u8(f, 31, 361, market.bump);
    lemma_bytes(f, 32, 362, market._pad@);
    assert(f.take(33) =~= f);
}

/// Where each field of a `Position` record stands.
#[verifier::spinoff_prover]
#[verifier::rlimit(60)]
pub proof fn law_position_layout(position: OnchainPosition)
    ensures
        position.wire().len() == 239,
        position.wire().subrange(0, 32) == position.owner@,
        position.wire().subrange(32, 64) == position.market@,
        position.wire().subrange(64, 96) == position.sub_pool@,
        number(position.wire(), 96, 8) == position.position_id,
        flag(position.wire(), 104) == position.direction_is_long,
        position.wire()[105] == position.status,
        number(position.wire(), 106, 8) == position.principal,
        number(position.wire(), 114, 4) == position.leverage_bps,
        number(position.wire(), 118, 16) == position.notional,
        number(position.wire(), 134, 16) == position.active_shares,
        number(position.wire(), 150, 16) == position.recovery_shares,
        signed(position.wire(), 166) == position.recovery_bucket_tick,
        flag(position.wire(), 174) == position.has_recovery_bucket,
        number(position.wire(), 175, 8) == position.zero_price,
        number(position.wire(), 183, 8) == position.entry_price,
        number(position.wire(), 191, 8) == position.last_sync_slot,
        number(position.wire(), 199, 8) == position.active_generation,
        signed(position.wire(), 207) == position.opened_at,
        signed(position.wire(), 215) == position.updated_at,
        signed(position.wire(), 223) == position.closed_at,
        number(position.wire(), 231, 2) == position.schema_version,
        position.wire()[233] == position.bump,
        position.wire().subrange(234, 239) == position._pad@,
{
    let f = position.fields();
    lemma_start(f);
    lemma_bytes(f, 0, 0, position.owner@);
    lemma_bytes(f, 1, 32, position.market@);
    lemma_bytes(f, 2, 64, position.sub_pool@);
    lemma_u64(f, 3, 96, position.position_id);
    lemma_bool(f, 4, 104, position.direction_is_long);
    lemma_u8(f, 5, 105, position.status);
    lemma_u64(f, 6, 106, position.principal);
    lemma_u32(f, 7, 114, position.leverage_bps);
    lemma_u128(f, 8, 118, position.notional);
    lemma_u128(f, 9, 134, position.active_shares);
    lemma_u128(f, 10, 150, position.recovery_shares);
    lemma_i64(f, 11, 166, position.recovery_bucket_tick);
    lemma_bool(f, 12, 174, position.has_recovery_bucket);
    lemma_u64(f, 13, 175, position.zero_price);
    lemma_u64(f, 14, 183, position.entry_price);
    lemma_u64(f, 15, 191, position.last_sync_slot);
    lemma_u64(f, 16, 199, position.active_generation);
    lemma_i64(f, 17, 207, position.opened_at);
    lemma_i64(f, 18, 215, position.updated_at);
    lemma_i64(f, 19, 223, position.closed_at);
    lemma_u16(f, 20, 231, position.schema_version);
    lemma_u8(f, 21, 233, position.bump);
    lemma_bytes(f, 22, 234, position._pad@);
    assert(f.take(23) =~= f);
}

/// Where each field of a `KeeperLeaderLock` record stands.
#[verifier::spinoff_prover]
#[verifier::rlimit(60)]
pub proof fn law_lock_layout(lock: KeeperLeaderLock)
    ensures
        lock.wire().len() == 49,
        flag(lock.wire(), 0) == lock.has_leader,
        lock.wire().subrange(1, 33) == lock.current_leader@,
        number(lock.wire(), 33, 8) == lock.last_heartbeat_slot,
        number(lock.wire(), 41, 8) == lock.takeover_threshold_slots,
{
    let f = lock.fields();
    lemma_start(f);
    lemma_bool(f, 0, 0, lock.has_leader);
    lemma_bytes(f, 1, 1, lock.current_leader@);
    lemma_u64(f, 2, 33, lock.last_heartbeat_slot);
    lemma_u64(f, 3, 41, lock.takeover_threshold_slots);
    assert(f.take(4) =~= f);
}

/// Where each field of a `DistributionLedger` record stands: the length of
/// the list before the list, and each entry after the one before it.
#[verifier::spinoff_prover]
#[verifier::rlimit(60)]
pub proof fn law_ledger_layout(ledger: OnchainDistributionLedger)
    requires
        ledger.entries@.len() <= u32::MAX,
    ensures
        ledger.wire().len() == 101 + 64 * ledger.entries@.len(),
        ledger.wire().subrange(0, 32) == ledger.sub_pool@,
        flag(ledger.wire(), 32) == ledger.direction_is_long,
        number(ledger.wire(), 33, 4) == ledger.max_entries,
        number(ledger.wire(), 37, 8) == ledger.gc_offset,
        number(ledger.wire(), 45, 8) == ledger.next_event_index,
        number(ledger.wire(), 53, 16) == ledger.accrued_value_total,
        number(ledger.wire(), 69, 16) == ledger.pending_distribution_total,
        number(ledger.wire(), 85, 4) == ledger.entry_count,
        number(ledger.wire(), 89, 4) == ledger.entries@.len(),
        forall|k: int|
            #![trigger ledger.entries@[k]]
            0 <= k < ledger.entries@.len() ==> ledger.wire().subrange(93 + 64 * k, 157 + 64 * k)
                == ledger.entries@[k].wire(),
        ledger.wire()[ledger.wire().len() - 8] == ledger.bump,
        ledger.wire().subrange(
            ledger.wire().len() - 7,
            ledger.wire().len() as int,
        ) == ledger._pad@,
{
    let f = ledger.fields();
    let n = ledger.entries@.len() as int;
    let list = entries_wire(ledger.entries@);
    lemma_start(f);
    lemma_bytes(f, 0, 0, ledger.sub_pool@);
    lemma_bool(f, 1, 32, ledger.direction_is_long);
    lemma_u32(f, 2, 33, ledger.max_entries);
    lemma_u64(f, 3, 37, ledger.gc_offset);
    lemma_u64(f, 4, 45, ledger.next_event_index);
    lemma_u128(f, 5, 53, ledger.accrued_value_total);
    lemma_u128(f, 6, 69, ledger.pending_distribution_total);
    lemma_u32(f, 7, 85, ledger.entry_count);
    lemma_u32(f, 8, 89, ledger.entries@.len() as u32);
    lemma_entries_len(ledger.entries@);
    lemma_bytes(f, 9, 93, list);
    lemma_u8(f, 10, 93 + 64 * n, ledger.bump);
    lemma_bytes(f, 11, 94 + 64 * n, ledger._pad@);
    assert(f.take(12) =~= f);
    assert forall|k: int|
        #![trigger ledger.entries@[k]]
        0 <= k < n implies ledger.wire().subrange(93 + 64 * k, 157 + 64 * k)
        == ledger.entries@[k].wire() by {
        lemma_entry_place(ledger.entries@, k);
        assert(ledger.wire().subrange(93 + 64 * k, 157 + 64 * k) =~= list.subrange(
            64 * k,
            64 * k + 64,
        ));
    }
}

/// Where an entry of a list stands.
proof fn lemma_entry_place(entries: Seq<OnchainDistEntry>, k: int)
    requires
        0 <= k < entries.len(),
    ensures
        entries_wire(entries).len() == 64 * entries.len(),
        entries_wire(entries).subrange(64 * k, 64 * k + 64) == entries[k].wire(),
    decreases entries.len(),
{
    let most = entries.drop_last();
    lemma_entries_len(entries);
    lemma_entries_len(most);
    law_entry_layout(entries.last());
    if k < entries.len() - 1 {
        lemma_entry_place(most, k);
        assert(entries_wire(entries).subrange(64 * k, 64 * k + 64) =~= entries_wire(
            most,
        ).subrange(64 * k, 64 * k + 64));
    } else {
        assert(entries_wire(entries).subrange(64 * k, 64 * k + 64) =~= entries[k].wire());
    }
}

/// Where each field of a price envelope stands.
pub proof fn law_price_envelope_layout(args: PriceEnvelopeArgs)
    ensures
        args.wire().len() == 32,
        number(args.wire(), 0, 8) == args.p_now,
        number(args.wire(), 8, 8) == args.slot,
        number(args.wire(), 16, 8) == args.expected_min,
        number(args.wire(), 24, 8) == args.expected_max,
{
    let f = args.fields();
    lemma_start(f);
    lemma_u64(f, 0, 0, args.p_now);
    lemma_u64(f, 1, 8, args.slot);
    lemma_u64(f, 2, 16, args.expected_min);
    lemma_u64(f, 3, 24, args.expected_max);
    assert(f.take(4) =~= f);
}

/// Where each argument of `open_position` stands.
pub proof fn law_open_position_layout(args: OpenPositionArgs)
    ensures
        args.wire().len() == 49,
        args.wire().subrange(0, 32) == args.envelope.wire(),
        flag(args.wire(), 32) == args.direction_is_long,
        number(args.wire(), 33, 8) == args.gross_amount,
        number(args.wire(), 41, 8) == args.position_id,
{
    let f = args.fields();
    law_price_envelope_layout(args.envelope);
    lemma_start(f);
    lemma_bytes(f, 0, 0, args.envelope.wire());
    lemma_bool(f, 1, 32, args.direction_is_long);
    lemma_u64(f, 2, 33, args.gross_amount);
    lemma_u64(f, 3, 41, args.position_id);
    assert(f.take(4) =~= f);
}

/// Where each argument of `close_position` stands.
pub proof fn law_close_position_layout(args: ClosePositionArgs)
    ensures
        args.wire().len() == 40,
        args.wire().subrange(0, 32) == args.envelope.wire(),
        number(args.wire(), 32, 4) == args.long_bucket_count,
        number(args.wire(), 36, 4) == args.short_bucket_count,
{
    let f = args.fields();
    law_price_envelope_layout(args.envelope);
    lemma_start(f);
    lemma_bytes(f, 0, 0, args.envelope.wire());
    lemma_u32(f, 1, 32, args.long_bucket_count);
    lemma_u32(f, 2, 36, args.short_bucket_count);
    assert(f.take(3) =~= f);
}

/// The instructions for the lock carry the slot that the keeper has seen, and
/// nothing else; a release carries nothing.
pub proof fn law_lock_arguments_layout(
    beat: KeeperLeaderHeartbeatArgs,
    acquire: KeeperLeaderAcquireArgs,
    release: KeeperLeaderReleaseArgs,
)
    ensures
        beat.wire().len() == 8,
        number(beat.wire(), 0, 8) == beat.observed_slot,
        acquire.wire().len() == 8,
        number(acquire.wire(), 0, 8) == acquire.observed_slot,
        release.wire().len() == 0,
{
    let f = beat.fields();
    lemma_start(f);
    lemma_u64(f, 0, 0, beat.observed_slot);
    assert(f.take(1) =~= f);
    let g = acquire.fields();
    lemma_start(g);
    lemma_u64(g, 0, 0, acquire.observed_slot);
    assert(g.take(1) =~= g);
}

/// The data of an instruction is its discriminator, which is the start of the
/// digest of its name, and then its arguments.
pub proof fn law_instruction_data_layout<T: WireEncode>(name: Seq<char>, args: T, digest: [u8; 32])
    requires
        digest@ == ix::sha256_digest(
            vstd::utf8::encode_utf8("global:"@) + vstd::utf8::encode_utf8(name),
        ),
    ensures
        ix::instruction_bytes(name, &args).len() == 8 + args.wire().len(),
        forall|i: int|
            0 <= i < 8 ==> #[trigger] ix::instruction_bytes(name, &args)[i] == digest@[i],
        forall|i: int|
            8 <= i < 8 + args.wire().len() ==> #[trigger] ix::instruction_bytes(name, &args)[i]
                == args.wire()[i - 8],
{
}

/// A record is read off the bytes after the discriminator: what is decoded
/// has exactly these bytes as its layout, so each field is what stands at
/// its position.
pub proof fn law_decoded_record_is_the_body<T: WireDecode>(
    data: Seq<u8>,
    r: Result<T, AccountDecodeError>,
)
    requires
        decoder::decodes(data, r),
        r is Ok,
    ensures
        data.len() >= 8,
        forall|i: int|
            8 <= i < data.len() ==> #[trigger] data[i] == r->Ok_0.wire()[i - 8],
        r->Ok_0.wire().len() == data.len() - 8,
{
    assert forall|i: int| 8 <= i < data.len() implies #[trigger] data[i] == r->Ok_0.wire()[i
        - 8] by {
        assert(data.skip(8)[i - 8] == data[i]);
    }
}

} // verus!
