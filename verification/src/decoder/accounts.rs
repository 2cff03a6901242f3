//! The on-chain accounts and their layouts.
use vstd::prelude::*;

use crate::decoder::Pubkey32;
use crate::wire;
use crate::wire::{Reader, WireDecode, WireEncode, WireError};

verus! {

/// The on-chain `SubPool` account.
/// 
/// The field order is the layout: it changes only together with the
/// market's `schema_version`.
#[derive(Debug, Clone, Copy, PartialEq, Eq)]
pub struct OnchainSubPool {
    /// Parent `Market` PDA pubkey.
    pub market: Pubkey32,
    /// Sub pool id within the market.
    pub sub_pool_id: u32,
    /// Long-side directional pool equity (collateral minor units).
    pub long_pool_equity: u128,
    /// Short-side directional pool equity.
    pub short_pool_equity: u128,
    /// Long-side active shares.
    pub long_active_shares: u128,
    /// Short-side active shares.
    pub short_active_shares: u128,
    /// Long-side recovery shares.
    pub long_recovery_shares: u128,
    /// Short-side recovery shares.
    pub short_recovery_shares: u128,
    /// Long-side active notional.
    pub long_active_notional: u128,
    /// Short-side active notional.
    pub short_active_notional: u128,
    /// Long-side active generation tag.
    pub long_active_generation: u64,
    /// Short-side active generation tag.
    pub short_active_generation: u64,
    /// Most recent oracle price written by `sync_pool` (PRICE_SCALE).
    pub last_price: u64,
    /// Slot of the most recent `sync_pool`.
    pub last_sync_slot: u64,
    /// Long-side dust accumulator.
    pub long_dust: u128,
    /// Short-side dust accumulator.
    pub short_dust: u128,
    /// Long-side dormant bucket count cap accounting.
    pub long_dormant_bucket_count: u32,
    /// Short-side dormant bucket count cap accounting.
    pub short_dormant_bucket_count: u32,
    /// PDA bump.
    pub bump: u8,
    /// Padding to 8-byte align next account.
    pub _pad: [u8; 7],
}

impl OnchainSubPool {
    /// The layouts of the fields, in declaration order.
    pub open spec fn fields(&self) -> Seq<Seq<u8>> {
        Seq::empty()
            .push(self.market@)
            .push(wire::u32_wire(self.sub_pool_id))
            .push(wire::u128_wire(self.long_pool_equity))
            .push(wire::u128_wire(self.short_pool_equity))
            .push(wire::u128_wire(self.long_active_shares))
            .push(wire::u128_wire(self.short_active_shares))
            .push(wire::u128_wire(self.long_recovery_shares))
            .push(wire::u128_wire(self.short_recovery_shares))
            .push(wire::u128_wire(self.long_active_notional))
            .push(wire::u128_wire(self.short_active_notional))
            .push(wire::u64_wire(self.long_active_generation))
            .push(wire::u64_wire(self.short_active_generation))
            .push(wire::u64_wire(self.last_price))
            .push(wire::u64_wire(self.last_sync_slot))
            .push(wire::u128_wire(self.long_dust))
            .push(wire::u128_wire(self.short_dust))
            .push(wire::u32_wire(self.long_dormant_bucket_count))
            .push(wire::u32_wire(self.short_dormant_bucket_count))
            .push(wire::u8_wire(self.bump))
            .push(self._pad@)
    }
}

impl WireEncode for OnchainSubPool {
    open spec fn wire(&self) -> Seq<u8> {
        wire::concat(self.fields())
    }

    open spec fn fits(&self) -> bool {
        true
    }

    fn serialize(&self, out: &mut Vec<u8>) -> (r: Result<(), WireError>) {
        broadcast use crate::wire::group_wire;

        let mut body: Vec<u8> = Vec::new();
        wire::put_bytes(&mut body, self.market.as_slice());
        wire::put_u32(&mut body, self.sub_pool_id);
        wire::put_u128(&mut body, self.long_pool_equity);
        wire::put_u128(&mut body, self.short_pool_equity);
        wire::put_u128(&mut body, self.long_active_shares);
        wire::put_u128(&mut body, self.short_active_shares);
        wire::put_u128(&mut body, self.long_recovery_shares);
        wire::put_u128(&mut body, self.short_recovery_shares);
        wire::put_u128(&mut body, self.long_active_notional);
        wire::put_u128(&mut body, self.short_active_notional);
        wire::put_u64(&mut body, self.long_active_generation);
        wire::put_u64(&mut body, self.short_active_generation);
        wire::put_u64(&mut body, self.last_price);
        wire::put_u64(&mut body, self.last_sync_slot);
        wire::put_u128(&mut body, self.long_dust);
        wire::put_u128(&mut body, self.short_dust);
        wire::put_u32(&mut body, self.long_dormant_bucket_count);
        wire::put_u32(&mut body, self.short_dormant_bucket_count);
        wire::put_u8(&mut body, self.bump);
        wire::put_bytes(&mut body, self._pad.as_slice());
        out.append(&mut body);
        Ok(())
    }
}

impl WireDecode for OnchainSubPool {
    open spec fn fault(bytes: Seq<u8>) -> Option<WireError> {
        if bytes.len() < 244 {
            Some(WireError::UnexpectedLength)
        } else if bytes.len() > 244 {
            Some(WireError::NotAllBytesRead)
        } else {
            None
        }
    }

    open spec fn same(&self, other: &Self) -> bool {
        *self == *other
    }

    #[verifier::spinoff_prover]
    #[verifier::rlimit(40)]
    fn try_from_slice(bytes: &[u8]) -> (r: Result<Self, WireError>) {
        broadcast use crate::wire::group_wire;

        proof {
            assert(bytes@.len() < 244 ==> Self::fault(bytes@) == Some(WireError::UnexpectedLength));
        }
        let mut r = Reader::new(bytes);
        let market: Pubkey32 = r.read_array::<32>()?;
        let sub_pool_id: u32 = r.read_u32()?;
        let long_pool_equity: u128 = r.read_u128()?;
        let short_pool_equity: u128 = r.read_u128()?;
        let long_active_shares: u128 = r.read_u128()?;
        let short_active_shares: u128 = r.read_u128()?;
        let long_recovery_shares: u128 = r.read_u128()?;
        let short_recovery_shares: u128 = r.read_u128()?;
        let long_active_notional: u128 = r.read_u128()?;
        let short_active_notional: u128 = r.read_u128()?;
        let long_active_generation: u64 = r.read_u64()?;
        let short_active_generation: u64 = r.read_u64()?;
        let last_price: u64 = r.read_u64()?;
        let last_sync_slot: u64 = r.read_u64()?;
        let long_dust: u128 = r.read_u128()?;
        let short_dust: u128 = r.read_u128()?;
        let long_dormant_bucket_count: u32 = r.read_u32()?;
        let short_dormant_bucket_count: u32 = r.read_u32()?;
        let bump: u8 = r.read_u8()?;
        let _pad: [u8; 7] = r.read_array::<7>()?;
        r.finish()?;
        Ok(OnchainSubPool {
            market,
            sub_pool_id,
            long_pool_equity,
            short_pool_equity,
            long_active_shares,
            short_active_shares,
            long_recovery_shares,
            short_recovery_shares,
            long_active_notional,
            short_active_notional,
            long_active_generation,
            short_active_generation,
            last_price,
            last_sync_slot,
            long_dust,
            short_dust,
            long_dormant_bucket_count,
            short_dormant_bucket_count,
            bump,
            _pad,
        })
    }

    proof fn lemma_wire_is_faultless(&self) {
        broadcast use crate::wire::group_wire;

        assert(self.wire().len() == 244);
    }

    #[verifier::spinoff_prover]
    #[verifier::rlimit(60)]
    proof fn lemma_wire_is_injective(&self, other: &Self) {
        broadcast use crate::wire::lemma_le_bytes_len;

        let a = self.fields();
        let b = other.fields();
        wire::lemma_concat_injective(a, b);
        wire::lemma_array_at(a, b, 0, self.market, other.market);
        wire::lemma_u32_at(a, b, 1, self.sub_pool_id, other.sub_pool_id);
        wire::lemma_u128_at(a, b, 2, self.long_pool_equity, other.long_pool_equity);
        wire::lemma_u128_at(a, b, 3, self.short_pool_equity, other.short_pool_equity);
        wire::lemma_u128_at(a, b, 4, self.long_active_shares, other.long_active_shares);
        wire::lemma_u128_at(a, b, 5, self.short_active_shares, other.short_active_shares);
        wire::lemma_u128_at(a, b, 6, self.long_recovery_shares, other.long_recovery_shares);
        wire::lemma_u128_at(a, b, 7, self.short_recovery_shares, other.short_recovery_shares);
        wire::lemma_u128_at(a, b, 8, self.long_active_notional, other.long_active_notional);
        wire::lemma_u128_at(a, b, 9, self.short_active_notional, other.short_active_notional);
        wire::lemma_u64_at(a, b, 10, self.long_active_generation, other.long_active_generation);
        wire::lemma_u64_at(a, b, 11, self.short_active_generation, other.short_active_generation);
        wire::lemma_u64_at(a, b, 12, self.last_price, other.last_price);
        wire::lemma_u64_at(a, b, 13, self.last_sync_slot, other.last_sync_slot);
        wire::lemma_u128_at(a, b, 14, self.long_dust, other.long_dust);
        wire::lemma_u128_at(a, b, 15, self.short_dust, other.short_dust);
        wire::lemma_u32_at(
            a,
            b,
            16,
            self.long_dormant_bucket_count,
            other.long_dormant_bucket_count,
        );
        wire::lemma_u32_at(
            a,
            b,
            17,
            self.short_dormant_bucket_count,
            other.short_dormant_bucket_count,
        );
        wire::lemma_u8_at(a, b, 18, self.bump, other.bump);
        wire::lemma_array_at(a, b, 19, self._pad, other._pad);
    }
}

/// The on-chain `DormantBucket` account.
#[derive(Debug, Clone, Copy, PartialEq, Eq)]
pub struct OnchainDormantBucket {
    /// Parent `SubPool` PDA pubkey.
    pub sub_pool: Pubkey32,
    /// True iff this bucket holds long-side recovery shares.
    pub direction_is_long: bool,
    /// Tick index this bucket aggregates.
    pub zero_price_tick: i64,
    /// Anchor price this bucket was opened at.
    pub anchor_price: u64,
    /// Total recovery shares held by this bucket.
    pub total_recovery_shares: u128,
    /// Total recovery notional held by this bucket.
    pub total_recovery_notional: u128,
    /// Funds attributed to this bucket; redeemable by claim.
    pub accrued_value: u128,
    /// Number of distinct dormant positions in this bucket.
    pub position_count: u64,
    /// Index of the last `DistEntry` applied to this bucket.
    pub last_applied_index: u64,
    /// PDA bump.
    pub bump: u8,
    /// Padding.
    pub _pad: [u8; 6],
}

impl OnchainDormantBucket {
    /// The layouts of the fields, in declaration order.
    pub open spec fn fields(&self) -> Seq<Seq<u8>> {
        Seq::empty()
            .push(self.sub_pool@)
            .push(wire::bool_wire(self.direction_is_long))
            .push(wire::i64_wire(self.zero_price_tick))
            .push(wire::u64_wire(self.anchor_price))
            .push(wire::u128_wire(self.total_recovery_shares))
            .push(wire::u128_wire(self.total_recovery_notional))
            .push(wire::u128_wire(self.accrued_value))
            .push(wire::u64_wire(self.position_count))
            .push(wire::u64_wire(self.last_applied_index))
            .push(wire::u8_wire(self.bump))
            .push(self._pad@)
    }
}

impl WireEncode for OnchainDormantBucket {
    open spec fn wire(&self) -> Seq<u8> {
        wire::concat(self.fields())
    }

    open spec fn fits(&self) -> bool {
        true
    }

    fn serialize(&self, out: &mut Vec<u8>) -> (r: Result<(), WireError>) {
        broadcast use crate::wire::group_wire;

        let mut body: Vec<u8> = Vec::new();
        wire::put_bytes(&mut body, self.sub_pool.as_slice());
        wire::put_bool(&mut body, self.direction_is_long);
        wire::put_i64(&mut body, self.zero_price_tick);
        wire::put_u64(&mut body, self.anchor_price);
        wire::put_u128(&mut body, self.total_recovery_shares);
        wire::put_u128(&mut body, self.total_recovery_notional);
        wire::put_u128(&mut body, self.accrued_value);
        wire::put_u64(&mut body, self.position_count);
        wire::put_u64(&mut body, self.last_applied_index);
        wire::put_u8(&mut body, self.bump);
        wire::put_bytes(&mut body, self._pad.as_slice());
        out.append(&mut body);
        Ok(())
    }
}

impl WireDecode for OnchainDormantBucket {
    open spec fn fault(bytes: Seq<u8>) -> Option<WireError> {
        if bytes.len() > 32 && bytes[32] > 1 {
            Some(WireError::InvalidBool(bytes[32]))
        } else if bytes.len() < 120 {
            Some(WireError::UnexpectedLength)
        } else if bytes.len() > 120 {
            Some(WireError::NotAllBytesRead)
        } else {
            None
        }
    }

    open spec fn same(&self, other: &Self) -> bool {
        *self == *other
    }

    #[verifier::spinoff_prover]
    #[verifier::rlimit(40)]
    fn try_from_slice(bytes: &[u8]) -> (r: Result<Self, WireError>) {
        broadcast use crate::wire::group_wire;

        let mut r = Reader::new(bytes);
        let sub_pool: Pubkey32 = r.read_array::<32>()?;
        let direction_is_long: bool = r.read_bool()?;
        let zero_price_tick: i64 = r.read_i64()?;
        let anchor_price: u64 = r.read_u64()?;
        let total_recovery_shares: u128 = r.read_u128()?;
        let total_recovery_notional: u128 = r.read_u128()?;
        let accrued_value: u128 = r.read_u128()?;
        let position_count: u64 = r.read_u64()?;
        let last_applied_index: u64 = r.read_u64()?;
        let bump: u8 = r.read_u8()?;
        let _pad: [u8; 6] = r.read_array::<6>()?;
        r.finish()?;
        Ok(OnchainDormantBucket {
            sub_pool,
            direction_is_long,
            zero_price_tick,
            anchor_price,
            total_recovery_shares,
            total_recovery_notional,
            accrued_value,
            position_count,
            last_applied_index,
            bump,
            _pad,
        })
    }

    proof fn lemma_wire_is_faultless(&self) {
        broadcast use crate::wire::group_wire;

        assert(self.wire().len() == 120);
        assert(self.wire()[32] == wire::bool_wire(self.direction_is_long)[0]);
    }

    #[verifier::spinoff_prover]
    #[verifier::rlimit(60)]
    proof fn lemma_wire_is_injective(&self, other: &Self) {
        broadcast use crate::wire::lemma_le_bytes_len;

        let a = self.fields();
        let b = other.fields();
        wire::lemma_concat_injective(a, b);
        wire::lemma_array_at(a, b, 0, self.sub_pool, other.sub_pool);
        wire::lemma_bool_at(a, b, 1, self.direction_is_long, other.direction_is_long);
        wire::lemma_i64_at(a, b, 2, self.zero_price_tick, other.zero_price_tick);
        wire::lemma_u64_at(a, b, 3, self.anchor_price, other.anchor_price);
        wire::lemma_u128_at(a, b, 4, self.total_recovery_shares, other.total_recovery_shares);
        wire::lemma_u128_at(a, b, 5, self.total_recovery_notional, other.total_recovery_notional);
        wire::lemma_u128_at(a, b, 6, self.accrued_value, other.accrued_value);
        wire::lemma_u64_at(a, b, 7, self.position_count, other.position_count);
        wire::lemma_u64_at(a, b, 8, self.last_applied_index, other.last_applied_index);
        wire::lemma_u8_at(a, b, 9, self.bump, other.bump);
        wire::lemma_array_at(a, b, 10, self._pad, other._pad);
    }
}

/// One entry of a distribution ledger.
#[derive(Debug, Clone, Copy, PartialEq, Eq)]
pub struct OnchainDistEntry {
    /// Absolute event index.
    pub event_index: u64,
    /// Pool price stamped on this entry.
    pub p_at_event: u64,
    /// Total outstanding shares in the affected direction at the
    /// time the entry was appended.
    pub total_outstanding_at_event: u128,
    /// Total amount the engine routed to this direction's dormant
    /// share class (input).
    pub total_alloc_input: u128,
    /// Cumulative amount actually allocated to buckets so far.
    pub allocated_sum_observed: u128,
}

impl OnchainDistEntry {
    /// The layouts of the fields, in declaration order.
    pub open spec fn fields(&self) -> Seq<Seq<u8>> {
        Seq::empty()
            .push(wire::u64_wire(self.event_index))
            .push(wire::u64_wire(self.p_at_event))
            .push(wire::u128_wire(self.total_outstanding_at_event))
            .push(wire::u128_wire(self.total_alloc_input))
            .push(wire::u128_wire(self.allocated_sum_observed))
    }
}

impl WireEncode for OnchainDistEntry {
    open spec fn wire(&self) -> Seq<u8> {
        wire::concat(self.fields())
    }

    open spec fn fits(&self) -> bool {
        true
    }

    fn serialize(&self, out: &mut Vec<u8>) -> (r: Result<(), WireError>) {
        broadcast use crate::wire::group_wire;

        let mut body: Vec<u8> = Vec::new();
        wire::put_u64(&mut body, self.event_index);
        wire::put_u64(&mut body, self.p_at_event);
        wire::put_u128(&mut body, self.total_outstanding_at_event);
        wire::put_u128(&mut body, self.total_alloc_input);
        wire::put_u128(&mut body, self.allocated_sum_observed);
        out.append(&mut body);
        Ok(())
    }
}

impl WireDecode for OnchainDistEntry {
    open spec fn fault(bytes: Seq<u8>) -> Option<WireError> {
        if bytes.len() < 64 {
            Some(WireError::UnexpectedLength)
        } else if bytes.len() > 64 {
            Some(WireError::NotAllBytesRead)
        } else {
            None
        }
    }

    open spec fn same(&self, other: &Self) -> bool {
        *self == *other
    }

    #[verifier::spinoff_prover]
    #[verifier::rlimit(40)]
    fn try_from_slice(bytes: &[u8]) -> (r: Result<Self, WireError>) {
        broadcast use crate::wire::group_wire;

        proof {
            assert(bytes@.len() < 64 ==> Self::fault(bytes@) == Some(WireError::UnexpectedLength));
        }
        let mut r = Reader::new(bytes);
        let event_index: u64 = r.read_u64()?;
        let p_at_event: u64 = r.read_u64()?;
        let total_outstanding_at_event: u128 = r.read_u128()?;
        let total_alloc_input: u128 = r.read_u128()?;
        let allocated_sum_observed: u128 = r.read_u128()?;
        r.finish()?;
        Ok(OnchainDistEntry {
            event_index,
            p_at_event,
            total_outstanding_at_event,
            total_alloc_input,
            allocated_sum_observed,
        })
    }

    proof fn lemma_wire_is_faultless(&self) {
        broadcast use crate::wire::group_wire;

        assert(self.wire().len() == 64);
    }

    #[verifier::spinoff_prover]
    #[verifier::rlimit(60)]
    proof fn lemma_wire_is_injective(&self, other: &Self) {
        broadcast use crate::wire::lemma_le_bytes_len;

        let a = self.fields();
        let b = other.fields();
        wire::lemma_concat_injective(a, b);
        wire::lemma_u64_at(a, b, 0, self.event_index, other.event_index);
        wire::lemma_u64_at(a, b, 1, self.p_at_event, other.p_at_event);
        wire::lemma_u128_at(
            a,
            b,
            2,
            self.total_outstanding_at_event,
            other.total_outstanding_at_event,
        );
        wire::lemma_u128_at(a, b, 3, self.total_alloc_input, other.total_alloc_input);
        wire::lemma_u128_at(a, b, 4, self.allocated_sum_observed, other.allocated_sum_observed);
    }
}

/// The on-chain `Market` account.
/// 
/// Every field is decoded, also those that the keeper does not read, so
/// that a change of the layout shows as a decoding failure.
#[derive(Debug, Clone, Copy, PartialEq, Eq)]
pub struct OnchainMarket {
    /// Parent `GlobalConfig` PDA.
    pub global_config: Pubkey32,
    /// Symbol bytes.
    pub symbol: [u8; 16],
    /// Collateral mint pubkey.
    pub collateral_mint: Pubkey32,
    /// Vault token account pubkey.
    pub vault: Pubkey32,
    /// Fee vault token account pubkey.
    pub fee_vault: Pubkey32,
    /// Oracle price feed pubkey.
    pub oracle_price_feed: Pubkey32,
    /// Oracle program id.
    pub oracle_program_id: Pubkey32,
    /// Leverage in basis points.
    pub leverage_bps: u32,
    /// Minimum margin per position.
    pub min_margin: u64,
    /// Max margin per position.
    pub max_margin_per_position: u64,
    /// Max total principal market-wide.
    pub max_total_principal: u128,
    /// Max total notional market-wide.
    pub max_total_notional: u128,
    /// Currently outstanding total principal.
    pub current_total_principal: u128,
    /// Currently outstanding total notional.
    pub current_total_notional: u128,
    /// Open fee in basis points.
    pub open_fee_bps: u16,
    /// Max oracle age (seconds).
    pub max_oracle_age_seconds: i64,
    /// Max oracle age (slots).
    pub max_oracle_age_slots: u64,
    /// Max oracle confidence in basis points.
    pub max_confidence_bps: u16,
    /// Max single-step price move in basis points per `sync_pool`.
    pub max_price_move_bps_per_sync: u32,
    /// Price tick (PRICE_SCALE units).
    pub price_tick: u64,
    /// Tick aggregation factor.
    pub tick_aggregation_factor: u32,
    /// Max dormant bucket count per direction.
    pub max_dormant_bucket_count_per_direction: u32,
    /// Dilution safety basis points.
    pub dilution_safety_bps: u32,
    /// Max idle slots.
    pub max_idle_slots: u64,
    /// Pause flag.
    pub paused: bool,
    /// Freeze-new-position flag.
    pub frozen_new_position: bool,
    /// Schema version.
    pub schema_version: u16,
    /// Number of sub pools.
    pub sub_pool_count: u32,
    /// Distribute mode (0=eager, 1=lazy).
    pub dormant_distribute_mode: u8,
    /// Max pending entries applied per `pre_sync_dormant_bucket` tx.
    pub max_pending_apply_per_tx: u32,
    /// Hard cap on per-direction distribution ledger ring size.
    pub max_distribution_ledger_size: u32,
    /// PDA bump.
    pub bump: u8,
    /// Padding.
    pub _pad: [u8; 2],
}

impl OnchainMarket {
    /// The layouts of the fields, in declaration order.
    pub open spec fn fields(&self) -> Seq<Seq<u8>> {
        Seq::empty()
            .push(self.global_config@)
            .push(self.symbol@)
            .push(self.collateral_mint@)
            .push(self.vault@)
            .push(self.fee_vault@)
            .push(self.oracle_price_feed@)
            .push(self.oracle_program_id@)
            .push(wire::u32_wire(self.leverage_bps))
            .push(wire::u64_wire(self.min_margin))
            .push(wire::u64_wire(self.max_margin_per_position))
            .push(wire::u128_wire(self.max_total_principal))
            .push(wire::u128_wire(self.max_total_notional))
            .push(wire::u128_wire(self.current_total_principal))
            .push(wire::u128_wire(self.current_total_notional))
            .push(wire::u16_wire(self.open_fee_bps))
            .push(wire::i64_wire(self.max_oracle_age_seconds))
            .push(wire::u64_wire(self.max_oracle_age_slots))
            .push(wire::u16_wire(self.max_confidence_bps))
            .push(wire::u32_wire(self.max_price_move_bps_per_sync))
            .push(wire::u64_wire(self.price_tick))
            .push(wire::u32_wire(self.tick_aggregation_factor))
            .push(wire::u32_wire(self.max_dormant_bucket_count_per_direction))
            .push(wire::u32_wire(self.dilution_safety_bps))
            .push(wire::u64_wire(self.max_idle_slots))
            .push(wire::bool_wire(self.paused))
            .push(wire::bool_wire(self.frozen_new_position))
            .push(wire::u16_wire(self.schema_version))
            .push(wire::u32_wire(self.sub_pool_count))
            .push(wire::u8_wire(self.dormant_distribute_mode))
            .push(wire::u32_wire(self.max_pending_apply_per_tx))
            .push(wire::u32_wire(self.max_distribution_ledger_size))
            .push(wire::u8_wire(self.bump))
            .push(self._pad@)
    }
}

impl WireEncode for OnchainMarket {
    open spec fn wire(&self) -> Seq<u8> {
        wire::concat(self.fields())
    }

    open spec fn fits(&self) -> bool {
        true
    }

    fn serialize(&self, out: &mut Vec<u8>) -> (r: Result<(), WireError>) {
        broadcast use crate::wire::group_wire;

        let mut body: Vec<u8> = Vec::new();
        wire::put_bytes(&mut body, self.global_config.as_slice());
        wire::put_bytes(&mut body, self.symbol.as_slice());
        wire::put_bytes(&mut body, self.collateral_mint.as_slice());
        wire::put_bytes(&mut body, self.vault.as_slice());
        wire::put_bytes(&mut body, self.fee_vault.as_slice());
        wire::put_bytes(&mut body, self.oracle_price_feed.as_slice());
        wire::put_bytes(&mut body, self.oracle_program_id.as_slice());
        wire::put_u32(&mut body, self.leverage_bps);
        wire::put_u64(&mut body, self.min_margin);
        wire::put_u64(&mut body, self.max_margin_per_position);
        wire::put_u128(&mut body, self.max_total_principal);
        wire::put_u128(&mut body, self.max_total_notional);
        wire::put_u128(&mut body, self.current_total_principal);
        wire::put_u128(&mut body, self.current_total_notional);
        wire::put_u16(&mut body, self.open_fee_bps);
        wire::put_i64(&mut body, self.max_oracle_age_seconds);
        wire::put_u64(&mut body, self.max_oracle_age_slots);
        wire::put_u16(&mut body, self.max_confidence_bps);
        wire::put_u32(&mut body, self.max_price_move_bps_per_sync);
        wire::put_u64(&mut body, self.price_tick);
        wire::put_u32(&mut body, self.tick_aggregation_factor);
        wire::put_u32(&mut body, self.max_dormant_bucket_count_per_direction);
        wire::put_u32(&mut body, self.dilution_safety_bps);
        wire::put_u64(&mut body, self.max_idle_slots);
        wire::put_bool(&mut body, self.paused);
        wire::put_bool(&mut body, self.frozen_new_position);
        wire::put_u16(&mut body, self.schema_version);
        wire::put_u32(&mut body, self.sub_pool_count);
        wire::put_u8(&mut body, self.dormant_distribute_mode);
        wire::put_u32(&mut body, self.max_pending_apply_per_tx);
        wire::put_u32(&mut body, self.max_distribution_ledger_size);
        wire::put_u8(&mut body, self.bump);
        wire::put_bytes(&mut body, self._pad.as_slice());
        out.append(&mut body);
        Ok(())
    }
}

impl WireDecode for OnchainMarket {
    open spec fn fault(bytes: Seq<u8>) -> Option<WireError> {
        if bytes.len() > 344 && bytes[344] > 1 {
            Some(WireError::InvalidBool(bytes[344]))
        } else if bytes.len() > 345 && bytes[345] > 1 {
            Some(WireError::InvalidBool(bytes[345]))
        } else if bytes.len() < 364 {
            Some(WireError::UnexpectedLength)
        } else if bytes.len() > 364 {
            Some(WireError::NotAllBytesRead)
        } else {
            None
        }
    }

    open spec fn same(&self, other: &Self) -> bool {
        *self == *other
    }

    #[verifier::spinoff_prover]
    #[verifier::rlimit(40)]
    fn try_from_slice(bytes: &[u8]) -> (r: Result<Self, WireError>) {
        broadcast use crate::wire::group_wire;

        let mut r = Reader::new(bytes);
        let global_config: Pubkey32 = r.read_array::<32>()?;
        let symbol: [u8; 16] = r.read_array::<16>()?;
        let collateral_mint: Pubkey32 = r.read_array::<32>()?;
        let vault: Pubkey32 = r.read_array::<32>()?;
        let fee_vault: Pubkey32 = r.read_array::<32>()?;
        let oracle_price_feed: Pubkey32 = r.read_array::<32>()?;
        let oracle_program_id: Pubkey32 = r.read_array::<32>()?;
        let leverage_bps: u32 = r.read_u32()?;
        let min_margin: u64 = r.read_u64()?;
        let max_margin_per_position: u64 = r.read_u64()?;
        let max_total_principal: u128 = r.read_u128()?;
        let max_total_notional: u128 = r.read_u128()?;
        let current_total_principal: u128 = r.read_u128()?;
        let current_total_notional: u128 = r.read_u128()?;
        let open_fee_bps: u16 = r.read_u16()?;
        let max_oracle_age_seconds: i64 = r.read_i64()?;
        let max_oracle_age_slots: u64 = r.read_u64()?;
        let max_confidence_bps: u16 = r.read_u16()?;
        let max_price_move_bps_per_sync: u32 = r.read_u32()?;
        let price_tick: u64 = r.read_u64()?;
        let tick_aggregation_factor: u32 = r.read_u32()?;
        let max_dormant_bucket_count_per_direction: u32 = r.read_u32()?;
        let dilution_safety_bps: u32 = r.read_u32()?;
        let max_idle_slots: u64 = r.read_u64()?;
        let paused: bool = r.read_bool()?;
        let frozen_new_position: bool = r.read_bool()?;
        let schema_version: u16 = r.read_u16()?;
        let sub_pool_count: u32 = r.read_u32()?;
        let dormant_distribute_mode: u8 = r.read_u8()?;
        let max_pending_apply_per_tx: u32 = r.read_u32()?;
        let max_distribution_ledger_size: u32 = r.read_u32()?;
        let bump: u8 = r.read_u8()?;
        let _pad: [u8; 2] = r.read_array::<2>()?;
        r.finish()?;
        Ok(OnchainMarket {
            global_config,
            symbol,
            collateral_mint,
            vault,
            fee_vault,
            oracle_price_feed,
            oracle_program_id,
            leverage_bps,
            min_margin,
            max_margin_per_position,
            max_total_principal,
            max_total_notional,
            current_total_principal,
            current_total_notional,
            open_fee_bps,
            max_oracle_age_seconds,
            max_oracle_age_slots,
            max_confidence_bps,
            max_price_move_bps_per_sync,
            price_tick,
            tick_aggregation_factor,
            max_dormant_bucket_count_per_direction,
            dilution_safety_bps,
            max_idle_slots,
            paused,
            frozen_new_position,
            schema_version,
            sub_pool_count,
            dormant_distribute_mode,
            max_pending_apply_per_tx,
            max_distribution_ledger_size,
            bump,
            _pad,
        })
    }

    proof fn lemma_wire_is_faultless(&self) {
        broadcast use crate::wire::group_wire;

        assert(self.wire().len() == 364);
        assert(self.wire()[344] == wire::bool_wire(self.paused)[0]);
        assert(self.wire()[345] == wire::bool_wire(self.frozen_new_position)[0]);
    }

    #[verifier::spinoff_prover]
    #[verifier::rlimit(60)]
    proof fn lemma_wire_is_injective(&self, other: &Self) {
        broadcast use crate::wire::lemma_le_bytes_len;

        let a = self.fields();
        let b = other.fields();
        wire::lemma_concat_injective(a, b);
        wire::lemma_array_at(a, b, 0, self.global_config, other.global_config);
        wire::lemma_array_at(a, b, 1, self.symbol, other.symbol);
        wire::lemma_array_at(a, b, 2, self.collateral_mint, other.collateral_mint);
        wire::lemma_array_at(a, b, 3, self.vault, other.vault);
        wire::lemma_array_at(a, b, 4, self.fee_vault, other.fee_vault);
        wire::lemma_array_at(a, b, 5, self.oracle_price_feed, other.oracle_price_feed);
        wire::lemma_array_at(a, b, 6, self.oracle_program_id, other.oracle_program_id);
        wire::lemma_u32_at(a, b, 7, self.leverage_bps, other.leverage_bps);
        wire::lemma_u64_at(a, b, 8, self.min_margin, other.min_margin);
        wire::lemma_u64_at(a, b, 9, self.max_margin_per_position, other.max_margin_per_position);
        wire::lemma_u128_at(a, b, 10, self.max_total_principal, other.max_total_principal);
        wire::lemma_u128_at(a, b, 11, self.max_total_notional, other.max_total_notional);
        wire::lemma_u128_at(a, b, 12, self.current_total_principal, other.current_total_principal);
        wire::lemma_u128_at(a, b, 13, self.current_total_notional, other.current_total_notional);
        wire::lemma_u16_at(a, b, 14, self.open_fee_bps, other.open_fee_bps);
        wire::lemma_i64_at(a, b, 15, self.max_oracle_age_seconds, other.max_oracle_age_seconds);
        wire::lemma_u64_at(a, b, 16, self.max_oracle_age_slots, other.max_oracle_age_slots);
        wire::lemma_u16_at(a, b, 17, self.max_confidence_bps, other.max_confidence_bps);
        wire::lemma_u32_at(
            a,
            b,
            18,
            self.max_price_move_bps_per_sync,
            other.max_price_move_bps_per_sync,
        );
        wire::lemma_u64_at(a, b, 19, self.price_tick, other.price_tick);
        wire::lemma_u32_at(a, b, 20, self.tick_aggregation_factor, other.tick_aggregation_factor);
        wire::lemma_u32_at(
            a,
            b,
            21,
            self.max_dormant_bucket_count_per_direction,
            other.max_dormant_bucket_count_per_direction,
        );
        wire::lemma_u32_at(a, b, 22, self.dilution_safety_bps, other.dilution_safety_bps);
        wire::lemma_u64_at(a, b, 23, self.max_idle_slots, other.max_idle_slots);
        wire::lemma_bool_at(a, b, 24, self.paused, other.paused);
        wire::lemma_bool_at(a, b, 25, self.frozen_new_position, other.frozen_new_position);
        wire::lemma_u16_at(a, b, 26, self.schema_version, other.schema_version);
        wire::lemma_u32_at(a, b, 27, self.sub_pool_count, other.sub_pool_count);
        wire::lemma_u8_at(a, b, 28, self.dormant_distribute_mode, other.dormant_distribute_mode);
        wire::lemma_u32_at(a, b, 29, self.max_pending_apply_per_tx, other.max_pending_apply_per_tx);
        wire::lemma_u32_at(
            a,
            b,
            30,
            self.max_distribution_ledger_size,
            other.max_distribution_ledger_size,
        );
        wire::lemma_u8_at(a, b, 31, self.bump, other.bump);
        wire::lemma_array_at(a, b, 32, self._pad, other._pad);
    }
}

/// The on-chain `Position` account.
#[derive(Debug, Clone, Copy, PartialEq, Eq)]
pub struct OnchainPosition {
    /// Owner wallet.
    pub owner: Pubkey32,
    /// Owning `Market` account.
    pub market: Pubkey32,
    /// Owning `SubPool` account.
    pub sub_pool: Pubkey32,
    /// Per-market monotonic position id.
    pub position_id: u64,
    /// Direction flag — true == Long, false == Short.
    pub direction_is_long: bool,
    /// Lifecycle status: 0 = Open, 1 = Dormant, 2 = Closed.
    pub status: u8,
    /// Principal collateral committed by the trader (microUSDC).
    pub principal: u64,
    /// Leverage in basis points.
    pub leverage_bps: u32,
    /// Position notional (microUSDC).
    pub notional: u128,
    /// Active equity shares — claim against the live pool.
    pub active_shares: u128,
    /// Recovery equity shares — claim against the dormant bucket
    /// the position was rotated into (if any).
    pub recovery_shares: u128,
    /// Bucket tick the position last rotated into. Meaningful
    /// only when `has_recovery_bucket == true`.
    pub recovery_bucket_tick: i64,
    /// Whether `recovery_shares` and `recovery_bucket_tick` are
    /// live. Becomes false again once the dormant bucket
    /// distributes / closes.
    pub has_recovery_bucket: bool,
    /// Locked-loss reference price.
    pub zero_price: u64,
    /// Mid-price at open (PRICE_SCALE units).
    pub entry_price: u64,
    /// Slot of the most recent `sync_pool` that affected this position.
    pub last_sync_slot: u64,
    /// Generation number of the active pool the position belongs
    /// to (rotates monotonically).
    pub active_generation: u64,
    /// UNIX seconds at `open_position`.
    pub opened_at: i64,
    /// UNIX seconds at the most recent state-changing tx.
    pub updated_at: i64,
    /// UNIX seconds at `close_position`. Zero while open.
    pub closed_at: i64,
    /// Schema version this position was opened against.
    pub schema_version: u16,
    /// PDA bump.
    pub bump: u8,
    /// Padding.
    pub _pad: [u8; 5],
}

impl OnchainPosition {
    /// The layouts of the fields, in declaration order.
    pub open spec fn fields(&self) -> Seq<Seq<u8>> {
        Seq::empty()
            .push(self.owner@)
            .push(self.market@)
            .push(self.sub_pool@)
            .push(wire::u64_wire(self.position_id))
            .push(wire::bool_wire(self.direction_is_long))
            .push(wire::u8_wire(self.status))
            .push(wire::u64_wire(self.principal))
            .push(wire::u32_wire(self.leverage_bps))
            .push(wire::u128_wire(self.notional))
            .push(wire::u128_wire(self.active_shares))
            .push(wire::u128_wire(self.recovery_shares))
            .push(wire::i64_wire(self.recovery_bucket_tick))
            .push(wire::bool_wire(self.has_recovery_bucket))
            .push(wire::u64_wire(self.zero_price))
            .push(wire::u64_wire(self.entry_price))
            .push(wire::u64_wire(self.last_sync_slot))
            .push(wire::u64_wire(self.active_generation))
            .push(wire::i64_wire(self.opened_at))
            .push(wire::i64_wire(self.updated_at))
            .push(wire::i64_wire(self.closed_at))
            .push(wire::u16_wire(self.schema_version))
            .push(wire::u8_wire(self.bump))
            .push(self._pad@)
    }
}

impl WireEncode for OnchainPosition {
    open spec fn wire(&self) -> Seq<u8> {
        wire::concat(self.fields())
    }

    open spec fn fits(&self) -> bool {
        true
    }

    fn serialize(&self, out: &mut Vec<u8>) -> (r: Result<(), WireError>) {
        broadcast use crate::wire::group_wire;

        let mut body: Vec<u8> = Vec::new();
        wire::put_bytes(&mut body, self.owner.as_slice());
        wire::put_bytes(&mut body, self.market.as_slice());
        wire::put_bytes(&mut body, self.sub_pool.as_slice());
        wire::put_u64(&mut body, self.position_id);
        wire::put_bool(&mut body, self.direction_is_long);
        wire::put_u8(&mut body, self.status);
        wire::put_u64(&mut body, self.principal);
        wire::put_u32(&mut body, self.leverage_bps);
        wire::put_u128(&mut body, self.notional);
        wire::put_u128(&mut body, self.active_shares);
        wire::put_u128(&mut body, self.recovery_shares);
        wire::put_i64(&mut body, self.recovery_bucket_tick);
        wire::put_bool(&mut body, self.has_recovery_bucket);
        wire::put_u64(&mut body, self.zero_price);
        wire::put_u64(&mut body, self.entry_price);
        wire::put_u64(&mut body, self.last_sync_slot);
        wire::put_u64(&mut body, self.active_generation);
        wire::put_i64(&mut body, self.opened_at);
        wire::put_i64(&mut body, self.updated_at);
        wire::put_i64(&mut body, self.closed_at);
        wire::put_u16(&mut body, self.schema_version);
        wire::put_u8(&mut body, self.bump);
        wire::put_bytes(&mut body, self._pad.as_slice());
        out.append(&mut body);
        Ok(())
    }
}

impl WireDecode for OnchainPosition {
    open spec fn fault(bytes: Seq<u8>) -> Option<WireError> {
        if bytes.len() > 104 && bytes[104] > 1 {
            Some(WireError::InvalidBool(bytes[104]))
        } else if bytes.len() > 174 && bytes[174] > 1 {
            Some(WireError::InvalidBool(bytes[174]))
        } else if bytes.len() < 239 {
            Some(WireError::UnexpectedLength)
        } else if bytes.len() > 239 {
            Some(WireError::NotAllBytesRead)
        } else {
            None
        }
    }

    open spec fn same(&self, other: &Self) -> bool {
        *self == *other
    }

    #[verifier::spinoff_prover]
    #[verifier::rlimit(40)]
    fn try_from_slice(bytes: &[u8]) -> (r: Result<Self, WireError>) {
        broadcast use crate::wire::group_wire;

        let mut r = Reader::new(bytes);
        let owner: Pubkey32 = r.read_array::<32>()?;
        let market: Pubkey32 = r.read_array::<32>()?;
        let sub_pool: Pubkey32 = r.read_array::<32>()?;
        let position_id: u64 = r.read_u64()?;
        let direction_is_long: bool = r.read_bool()?;
        let status: u8 = r.read_u8()?;
        let principal: u64 = r.read_u64()?;
        let leverage_bps: u32 = r.read_u32()?;
        let notional: u128 = r.read_u128()?;
        let active_shares: u128 = r.read_u128()?;
        let recovery_shares: u128 = r.read_u128()?;
        let recovery_bucket_tick: i64 = r.read_i64()?;
        let has_recovery_bucket: bool = r.read_bool()?;
        let zero_price: u64 = r.read_u64()?;
        let entry_price: u64 = r.read_u64()?;
        let last_sync_slot: u64 = r.read_u64()?;
        let active_generation: u64 = r.read_u64()?;
        let opened_at: i64 = r.read_i64()?;
        let updated_at: i64 = r.read_i64()?;
        let closed_at: i64 = r.read_i64()?;
        let schema_version: u16 = r.read_u16()?;
        let bump: u8 = r.read_u8()?;
        let _pad: [u8; 5] = r.read_array::<5>()?;
        r.finish()?;
        Ok(OnchainPosition {
            owner,
            market,
            sub_pool,
            position_id,
            direction_is_long,
            status,
            principal,
            leverage_bps,
            notional,
            active_shares,
            recovery_shares,
            recovery_bucket_tick,
            has_recovery_bucket,
            zero_price,
            entry_price,
            last_sync_slot,
            active_generation,
            opened_at,
            updated_at,
            closed_at,
            schema_version,
            bump,
            _pad,
        })
    }

    proof fn lemma_wire_is_faultless(&self) {
        broadcast use crate::wire::group_wire;

        assert(self.wire().len() == 239);
        assert(self.wire()[104] == wire::bool_wire(self.direction_is_long)[0]);
        assert(self.wire()[174] == wire::bool_wire(self.has_recovery_bucket)[0]);
    }

    #[verifier::spinoff_prover]
    #[verifier::rlimit(60)]
    proof fn lemma_wire_is_injective(&self, other: &Self) {
        broadcast use crate::wire::lemma_le_bytes_len;

        let a = self.fields();
        let b = other.fields();
        wire::lemma_concat_injective(a, b);
        wire::lemma_array_at(a, b, 0, self.owner, other.owner);
        wire::lemma_array_at(a, b, 1, self.market, other.market);
        wire::lemma_array_at(a, b, 2, self.sub_pool, other.sub_pool);
        wire::lemma_u64_at(a, b, 3, self.position_id, other.position_id);
        wire::lemma_bool_at(a, b, 4, self.direction_is_long, other.direction_is_long);
        wire::lemma_u8_at(a, b, 5, self.status, other.status);
        wire::lemma_u64_at(a, b, 6, self.principal, other.principal);
        wire::lemma_u32_at(a, b, 7, self.leverage_bps, other.leverage_bps);
        wire::lemma_u128_at(a, b, 8, self.notional, other.notional);
        wire::lemma_u128_at(a, b, 9, self.active_shares, other.active_shares);
        wire::lemma_u128_at(a, b, 10, self.recovery_shares, other.recovery_shares);
        wire::lemma_i64_at(a, b, 11, self.recovery_bucket_tick, other.recovery_bucket_tick);
        wire::lemma_bool_at(a, b, 12, self.has_recovery_bucket, other.has_recovery_bucket);
        wire::lemma_u64_at(a, b, 13, self.zero_price, other.zero_price);
        wire::lemma_u64_at(a, b, 14, self.entry_price, other.entry_price);
        wire::lemma_u64_at(a, b, 15, self.last_sync_slot, other.last_sync_slot);
        wire::lemma_u64_at(a, b, 16, self.active_generation, other.active_generation);
        wire::lemma_i64_at(a, b, 17, self.opened_at, other.opened_at);
        wire::lemma_i64_at(a, b, 18, self.updated_at, other.updated_at);
        wire::lemma_i64_at(a, b, 19, self.closed_at, other.closed_at);
        wire::lemma_u16_at(a, b, 20, self.schema_version, other.schema_version);
        wire::lemma_u8_at(a, b, 21, self.bump, other.bump);
        wire::lemma_array_at(a, b, 22, self._pad, other._pad);
    }
}
/// The on-chain `DistributionLedger` account.
///
/// The layout of `entries` carries its own length; `entry_count` is the
/// logical count and may differ from it.
#[derive(Debug, PartialEq, Eq)]
pub struct OnchainDistributionLedger {
    /// Parent `SubPool` PDA pubkey.
    pub sub_pool: Pubkey32,
    /// Ledger direction.
    pub direction_is_long: bool,
    /// Hard cap on `entries.len()`.
    pub max_entries: u32,
    /// Number of collected events at the front of the logical ring.
    pub gc_offset: u64,
    /// Absolute index of the next event to be appended.
    pub next_event_index: u64,
    /// Cached `accrued_value` sum across this direction's buckets.
    pub accrued_value_total: u128,
    /// Lazy-mode in-flight allocations.
    pub pending_distribution_total: u128,
    /// Live entry count.
    pub entry_count: u32,
    /// Live entries.
    pub entries: Vec<OnchainDistEntry>,
    /// PDA bump.
    pub bump: u8,
    /// Padding.
    pub _pad: [u8; 7],
}

/// The contents of a distribution ledger.
#[verifier::ext_equal]
pub struct LedgerModel {
    /// Parent `SubPool` PDA pubkey.
    pub sub_pool: Pubkey32,
    /// Ledger direction.
    pub direction_is_long: bool,
    /// Hard cap on the number of entries.
    pub max_entries: u32,
    /// Number of collected events at the front of the logical ring.
    pub gc_offset: u64,
    /// Absolute index of the next event to be appended.
    pub next_event_index: u64,
    /// Cached `accrued_value` sum across this direction's buckets.
    pub accrued_value_total: u128,
    /// Lazy-mode in-flight allocations.
    pub pending_distribution_total: u128,
    /// Live entry count.
    pub entry_count: u32,
    /// Live entries.
    pub entries: Seq<OnchainDistEntry>,
    /// PDA bump.
    pub bump: u8,
    /// Padding.
    pub _pad: [u8; 7],
}

impl View for OnchainDistributionLedger {
    type V = LedgerModel;

    open spec fn view(&self) -> LedgerModel {
        LedgerModel {
            sub_pool: self.sub_pool,
            direction_is_long: self.direction_is_long,
            max_entries: self.max_entries,
            gc_offset: self.gc_offset,
            next_event_index: self.next_event_index,
            accrued_value_total: self.accrued_value_total,
            pending_distribution_total: self.pending_distribution_total,
            entry_count: self.entry_count,
            entries: self.entries@,
            bump: self.bump,
            _pad: self._pad,
        }
    }
}

impl Clone for OnchainDistributionLedger {
    fn clone(&self) -> (r: Self)
        ensures
            r@ == self@,
    {
        OnchainDistributionLedger {
            sub_pool: self.sub_pool,
            direction_is_long: self.direction_is_long,
            max_entries: self.max_entries,
            gc_offset: self.gc_offset,
            next_event_index: self.next_event_index,
            accrued_value_total: self.accrued_value_total,
            pending_distribution_total: self.pending_distribution_total,
            entry_count: self.entry_count,
            entries: vstd::slice::slice_to_vec(self.entries.as_slice()),
            bump: self.bump,
            _pad: self._pad,
        }
    }
}

/// The layouts of a list of entries, one after the other.
pub open spec fn entries_wire(entries: Seq<OnchainDistEntry>) -> Seq<u8>
    decreases entries.len(),
{
    if entries.len() == 0 {
        Seq::empty()
    } else {
        entries_wire(entries.drop_last()) + entries.last().wire()
    }
}

/// An entry takes 64 bytes.
proof fn lemma_entry_len(entry: OnchainDistEntry)
    ensures
        entry.wire().len() == 64,
{
    broadcast use crate::wire::group_wire;

}

/// A list of entries takes 64 bytes for each.
pub proof fn lemma_entries_len(entries: Seq<OnchainDistEntry>)
    ensures
        entries_wire(entries).len() == 64 * entries.len(),
    decreases entries.len(),
{
    if entries.len() > 0 {
        lemma_entries_len(entries.drop_last());
        lemma_entry_len(entries.last());
    }
}

/// Two equally long lists of entries with equal layouts are equal.
proof fn lemma_entries_injective(a: Seq<OnchainDistEntry>, b: Seq<OnchainDistEntry>)
    requires
        a.len() == b.len(),
        entries_wire(a) == entries_wire(b),
    ensures
        a == b,
    decreases a.len(),
{
    if a.len() > 0 {
        let pa = entries_wire(a.drop_last());
        let pb = entries_wire(b.drop_last());
        lemma_entries_len(a.drop_last());
        lemma_entries_len(b.drop_last());
        assert(pa =~= entries_wire(a).take(pa.len() as int));
        assert(pb =~= entries_wire(b).take(pb.len() as int));
        assert(a.last().wire() =~= entries_wire(a).skip(pa.len() as int));
        assert(b.last().wire() =~= entries_wire(b).skip(pb.len() as int));
        lemma_entries_injective(a.drop_last(), b.drop_last());
        a.last().lemma_wire_is_injective(&b.last());
        assert(a =~= a.drop_last().push(a.last()));
        assert(b =~= b.drop_last().push(b.last()));
    } else {
        assert(a =~= b);
    }
}

impl OnchainDistributionLedger {
    /// The layouts of the fields up to the length of the list.
    pub open spec fn head(&self, count: u32) -> Seq<Seq<u8>> {
        Seq::empty()
            .push(self.sub_pool@)
            .push(wire::bool_wire(self.direction_is_long))
            .push(wire::u32_wire(self.max_entries))
            .push(wire::u64_wire(self.gc_offset))
            .push(wire::u64_wire(self.next_event_index))
            .push(wire::u128_wire(self.accrued_value_total))
            .push(wire::u128_wire(self.pending_distribution_total))
            .push(wire::u32_wire(self.entry_count))
            .push(wire::u32_wire(count))
    }

    /// The layouts of the fields, in declaration order; the list with its length before it.
    pub open spec fn fields(&self) -> Seq<Seq<u8>> {
        self.head(self.entries@.len() as u32)
            .push(entries_wire(self.entries@))
            .push(wire::u8_wire(self.bump))
            .push(self._pad@)
    }

    /// The length prefix stands at offset 89.
    proof fn lemma_count_position(&self, count: u32, tail: Seq<u8>)
        ensures
            wire::concat(self.head(count)).len() == 93,
            wire::concat(self.head(count))[32] <= 1,
            wire::le_value((wire::concat(self.head(count)) + tail).subrange(89, 93)) == count,
    {
        broadcast use crate::wire::group_wire;

        let whole = wire::concat(self.head(count)) + tail;
        assert(wire::concat(self.head(count)).len() == 93);
        assert(wire::concat(self.head(count))[32] == wire::bool_wire(self.direction_is_long)[0]);
        assert(whole.subrange(89, 93) =~= wire::u32_wire(count));
        wire::lemma_byte_ranges();
        wire::lemma_le_value_of_le_bytes(count as nat, 4);
    }

    /// The layout is the head, the list, and the last two fields.
    proof fn lemma_wire_shape(&self)
        ensures
            self.wire() == wire::concat(self.head(self.entries@.len() as u32)) + (entries_wire(
                self.entries@,
            ) + wire::u8_wire(self.bump) + self._pad@),
            self.wire().len() == 101 + 64 * self.entries@.len(),
    {
        broadcast use crate::wire::group_wire;

        lemma_entries_len(self.entries@);
        self.lemma_count_position(self.entries@.len() as u32, Seq::empty());
        assert(self.wire() =~= wire::concat(self.head(self.entries@.len() as u32)) + (entries_wire(
            self.entries@,
        ) + wire::u8_wire(self.bump) + self._pad@));
    }
}

impl WireEncode for OnchainDistributionLedger {
    open spec fn wire(&self) -> Seq<u8> {
        wire::concat(self.fields())
    }

    open spec fn fits(&self) -> bool {
        self.entries@.len() <= u32::MAX
    }

    fn serialize(&self, out: &mut Vec<u8>) -> (r: Result<(), WireError>) {
        broadcast use crate::wire::group_wire;

        if self.entries.len() as u64 > u32::MAX as u64 {
            return Err(WireError::ListTooLong);
        }
        let mut body: Vec<u8> = Vec::new();
        wire::put_bytes(&mut body, self.sub_pool.as_slice());
        wire::put_bool(&mut body, self.direction_is_long);
        wire::put_u32(&mut body, self.max_entries);
        wire::put_u64(&mut body, self.gc_offset);
        wire::put_u64(&mut body, self.next_event_index);
        wire::put_u128(&mut body, self.accrued_value_total);
        wire::put_u128(&mut body, self.pending_distribution_total);
        wire::put_u32(&mut body, self.entry_count);
        wire::put_u32(&mut body, self.entries.len() as u32);
        let ghost head = body@;
        let mut i: usize = 0;
        proof {
            assert(body@ =~= head + entries_wire(self.entries@.take(0)));
        }
        while i < self.entries.len()
            invariant
                i <= self.entries.len(),
                body@ == head + entries_wire(self.entries@.take(i as int)),
            decreases self.entries.len() - i,
        {
            let _ = self.entries[i].serialize(&mut body);
            i = i + 1;
            proof {
                let next = self.entries@.take(i as int);
                assert(next.drop_last() =~= self.entries@.take(i - 1));
                assert(body@ =~= head + entries_wire(next));
            }
        }
        proof {
            assert(self.entries@.take(self.entries@.len() as int) =~= self.entries@);
        }
        wire::put_u8(&mut body, self.bump);
        wire::put_bytes(&mut body, self._pad.as_slice());
        out.append(&mut body);
        Ok(())
    }
}

impl WireDecode for OnchainDistributionLedger {
    open spec fn fault(bytes: Seq<u8>) -> Option<WireError> {
        let count = wire::le_value(bytes.subrange(89, 93));
        if bytes.len() > 32 && bytes[32] > 1 {
            Some(WireError::InvalidBool(bytes[32]))
        } else if bytes.len() < 93 || bytes.len() < 101 + 64 * count {
            Some(WireError::UnexpectedLength)
        } else if bytes.len() > 101 + 64 * count {
            Some(WireError::NotAllBytesRead)
        } else {
            None
        }
    }

    open spec fn same(&self, other: &Self) -> bool {
        self@ == other@
    }

    #[verifier::spinoff_prover]
    #[verifier::rlimit(60)]
    fn try_from_slice(bytes: &[u8]) -> (r: Result<Self, WireError>) {
        broadcast use crate::wire::group_wire;

        let mut r = Reader::new(bytes);
        let sub_pool: Pubkey32 = r.read_array::<32>()?;
        let direction_is_long: bool = r.read_bool()?;
        let max_entries: u32 = r.read_u32()?;
        let gc_offset: u64 = r.read_u64()?;
        let next_event_index: u64 = r.read_u64()?;
        let accrued_value_total: u128 = r.read_u128()?;
        let pending_distribution_total: u128 = r.read_u128()?;
        let entry_count: u32 = r.read_u32()?;
        let count: u32 = r.read_u32()?;
        let ghost read_so_far = r.fields();
        let mut v = OnchainDistributionLedger {
            sub_pool,
            direction_is_long,
            max_entries,
            gc_offset,
            next_event_index,
            accrued_value_total,
            pending_distribution_total,
            entry_count,
            entries: Vec::new(),
            bump: 0,
            _pad: [0u8; 7],
        };
        proof {
            assert(read_so_far == v.head(count));
            assert(bytes@ =~= bytes@.take(93) + bytes@.skip(93));
            v.lemma_count_position(count, bytes@.skip(93));
        }
        let raw: &[u8] = r.read_slice(count as u64 * 64)?;
        let mut i: usize = 0;
        proof {
            assert(raw@.take(0) =~= entries_wire(v.entries@));
        }
        while i < count as usize
            invariant
                i <= count,
                raw@.len() == count * 64,
                raw.len() == count * 64,
                v.entries@.len() == i,
                entries_wire(v.entries@) == raw@.take(64 * i as int),
                v.head(count) == read_so_far,
            decreases count - i,
        {
            let chunk: &[u8] = vstd::slice::slice_subrange(raw, 64 * i, 64 * i + 64);
            let entry = match OnchainDistEntry::try_from_slice(chunk) {
                Ok(e) => e,
                Err(e) => {
                    return Err(e);
                },
            };
            let ghost before = v.entries@;
            v.entries.push(entry);
            i = i + 1;
            proof {
                assert(v.entries@.drop_last() =~= before);
                assert(raw@.take(64 * i as int) =~= raw@.take(64 * i - 64) + chunk@);
            }
        }
        proof {
            assert(raw@.take(64 * i as int) =~= raw@);
        }
        v.bump = r.read_u8()?;
        v._pad = r.read_array::<7>()?;
        r.finish()?;
        proof {
            lemma_entries_len(v.entries@);
            assert(v.head(count) == read_so_far);
        }
        Ok(v)
    }

    proof fn lemma_wire_is_faultless(&self) {
        let tail = entries_wire(self.entries@) + wire::u8_wire(self.bump) + self._pad@;
        self.lemma_wire_shape();
        self.lemma_count_position(self.entries@.len() as u32, tail);
    }

    #[verifier::spinoff_prover]
    #[verifier::rlimit(60)]
    proof fn lemma_wire_is_injective(&self, other: &Self) {
        broadcast use crate::wire::lemma_le_bytes_len;

        let a = self.fields();
        let b = other.fields();
        self.lemma_wire_shape();
        other.lemma_wire_shape();
        lemma_entries_len(self.entries@);
        lemma_entries_len(other.entries@);
        wire::lemma_concat_injective(a, b);
        wire::lemma_array_at(a, b, 0, self.sub_pool, other.sub_pool);
        wire::lemma_bool_at(a, b, 1, self.direction_is_long, other.direction_is_long);
        wire::lemma_u32_at(a, b, 2, self.max_entries, other.max_entries);
        wire::lemma_u64_at(a, b, 3, self.gc_offset, other.gc_offset);
        wire::lemma_u64_at(a, b, 4, self.next_event_index, other.next_event_index);
        wire::lemma_u128_at(a, b, 5, self.accrued_value_total, other.accrued_value_total);
        wire::lemma_u128_at(
            a,
            b,
            6,
            self.pending_distribution_total,
            other.pending_distribution_total,
        );
        wire::lemma_u32_at(a, b, 7, self.entry_count, other.entry_count);
        assert(a[9] == entries_wire(self.entries@) && b[9] == entries_wire(other.entries@));
        lemma_entries_injective(self.entries@, other.entries@);
        wire::lemma_u8_at(a, b, 10, self.bump, other.bump);
        wire::lemma_array_at(a, b, 11, self._pad, other._pad);
        assert(self@ =~= other@);
    }
}

} // verus!
