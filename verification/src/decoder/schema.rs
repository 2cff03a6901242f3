//! A description of the account layouts for readers in other languages.
//!
//! The description is an ASCII JSON object: for each account its fields in
//! layout order, each with its name and its type.
use vstd::prelude::*;

verus! {

/// The text of one field.
pub open spec fn row_text(row: (Seq<char>, Seq<char>)) -> Seq<char> {
    "{\"name\":\""@ + row.0 + "\",\"type\":\""@ + row.1 + "\"}"@
}

/// The texts of the fields, separated by commas.
pub open spec fn rows_text(rows: Seq<(Seq<char>, Seq<char>)>) -> Seq<char>
    decreases rows.len(),
{
    if rows.len() == 0 {
        Seq::empty()
    } else if rows.len() == 1 {
        row_text(rows[0])
    } else {
        rows_text(rows.drop_last()) + ","@ + row_text(rows.last())
    }
}

/// A field, given by its name and its type.
pub open spec fn row(name: &str, ty: &str) -> (Seq<char>, Seq<char>) {
    (name@, ty@)
}

/// The fields of `OnchainSubPool`.
pub open spec fn sub_pool_rows() -> Seq<(Seq<char>, Seq<char>)> {
    Seq::empty()
        .push(row("market", "Pubkey32"))
        .push(row("sub_pool_id", "u32"))
        .push(row("long_pool_equity", "u128"))
        .push(row("short_pool_equity", "u128"))
        .push(row("long_active_shares", "u128"))
        .push(row("short_active_shares", "u128"))
        .push(row("long_recovery_shares", "u128"))
        .push(row("short_recovery_shares", "u128"))
        .push(row("long_active_notional", "u128"))
        .push(row("short_active_notional", "u128"))
        .push(row("long_active_generation", "u64"))
        .push(row("short_active_generation", "u64"))
        .push(row("last_price", "u64"))
        .push(row("last_sync_slot", "u64"))
        .push(row("long_dust", "u128"))
        .push(row("short_dust", "u128"))
        .push(row("long_dormant_bucket_count", "u32"))
        .push(row("short_dormant_bucket_count", "u32"))
        .push(row("bump", "u8"))
        .push(row("_pad", "array<u8,7>"))
}

/// The fields of `OnchainDormantBucket`.
pub open spec fn dormant_bucket_rows() -> Seq<(Seq<char>, Seq<char>)> {
    Seq::empty()
        .push(row("sub_pool", "Pubkey32"))
        .push(row("direction_is_long", "bool"))
        .push(row("zero_price_tick", "i64"))
        .push(row("anchor_price", "u64"))
        .push(row("total_recovery_shares", "u128"))
        .push(row("total_recovery_notional", "u128"))
        .push(row("accrued_value", "u128"))
        .push(row("position_count", "u64"))
        .push(row("last_applied_index", "u64"))
        .push(row("bump", "u8"))
        .push(row("_pad", "array<u8,6>"))
}

/// The fields of `OnchainDistEntry`.
pub open spec fn dist_entry_rows() -> Seq<(Seq<char>, Seq<char>)> {
    Seq::empty()
        .push(row("event_index", "u64"))
        .push(row("p_at_event", "u64"))
        .push(row("total_outstanding_at_event", "u128"))
        .push(row("total_alloc_input", "u128"))
        .push(row("allocated_sum_observed", "u128"))
}

/// The fields of `OnchainDistributionLedger`.
pub open spec fn distribution_ledger_rows() -> Seq<(Seq<char>, Seq<char>)> {
    Seq::empty()
        .push(row("sub_pool", "Pubkey32"))
        .push(row("direction_is_long", "bool"))
        .push(row("max_entries", "u32"))
        .push(row("gc_offset", "u64"))
        .push(row("next_event_index", "u64"))
        .push(row("accrued_value_total", "u128"))
        .push(row("pending_distribution_total", "u128"))
        .push(row("entry_count", "u32"))
        .push(row("entries", "vec<OnchainDistEntry>"))
        .push(row("bump", "u8"))
        .push(row("_pad", "array<u8,7>"))
}

/// The fields of `OnchainMarket`.
pub open spec fn market_rows() -> Seq<(Seq<char>, Seq<char>)> {
    Seq::empty()
        .push(row("global_config", "Pubkey32"))
        .push(row("symbol", "array<u8,16>"))
        .push(row("collateral_mint", "Pubkey32"))
        .push(row("vault", "Pubkey32"))
        .push(row("fee_vault", "Pubkey32"))
        .push(row("oracle_price_feed", "Pubkey32"))
        .push(row("oracle_program_id", "Pubkey32"))
        .push(row("leverage_bps", "u32"))
        .push(row("min_margin", "u64"))
        .push(row("max_margin_per_position", "u64"))
        .push(row("max_total_principal", "u128"))
        .push(row("max_total_notional", "u128"))
        .push(row("current_total_principal", "u128"))
        .push(row("current_total_notional", "u128"))
        .push(row("open_fee_bps", "u16"))
        .push(row("max_oracle_age_seconds", "i64"))
        .push(row("max_oracle_age_slots", "u64"))
        .push(row("max_confidence_bps", "u16"))
        .push(row("max_price_move_bps_per_sync", "u32"))
        .push(row("price_tick", "u64"))
        .push(row("tick_aggregation_factor", "u32"))
        .push(row("max_dormant_bucket_count_per_direction", "u32"))
        .push(row("dilution_safety_bps", "u32"))
        .push(row("max_idle_slots", "u64"))
        .push(row("paused", "bool"))
        .push(row("frozen_new_position", "bool"))
        .push(row("schema_version", "u16"))
        .push(row("sub_pool_count", "u32"))
        .push(row("dormant_distribute_mode", "u8"))
        .push(row("max_pending_apply_per_tx", "u32"))
        .push(row("max_distribution_ledger_size", "u32"))
        .push(row("bump", "u8"))
        .push(row("_pad", "array<u8,2>"))
}

/// The fields of `OnchainPosition`.
pub open spec fn position_rows() -> Seq<(Seq<char>, Seq<char>)> {
    Seq::empty()
        .push(row("owner", "Pubkey32"))
        .push(row("market", "Pubkey32"))
        .push(row("sub_pool", "Pubkey32"))
        .push(row("position_id", "u64"))
        .push(row("direction_is_long", "bool"))
        .push(row("status", "u8"))
        .push(row("principal", "u64"))
        .push(row("leverage_bps", "u32"))
        .push(row("notional", "u128"))
        .push(row("active_shares", "u128"))
        .push(row("recovery_shares", "u128"))
        .push(row("recovery_bucket_tick", "i64"))
        .push(row("has_recovery_bucket", "bool"))
        .push(row("zero_price", "u64"))
        .push(row("entry_price", "u64"))
        .push(row("last_sync_slot", "u64"))
        .push(row("active_generation", "u64"))
        .push(row("opened_at", "i64"))
        .push(row("updated_at", "i64"))
        .push(row("closed_at", "i64"))
        .push(row("schema_version", "u16"))
        .push(row("bump", "u8"))
        .push(row("_pad", "array<u8,5>"))
}

/// The description of one record.
pub open spec fn record_text(name: &str, rows: Seq<(Seq<char>, Seq<char>)>) -> Seq<char> {
    "\""@ + name@ + "\":["@ + rows_text(rows) + "]"@
}

/// The description of every record.
pub open spec fn schema_text() -> Seq<char> {
    "{"@
        + record_text("OnchainSubPool", sub_pool_rows()) + ","@
        + record_text("OnchainDormantBucket", dormant_bucket_rows()) + ","@
        + record_text("OnchainDistEntry", dist_entry_rows()) + ","@
        + record_text("OnchainDistributionLedger", distribution_ledger_rows()) + ","@
        + record_text("OnchainMarket", market_rows()) + ","@
        + record_text("OnchainPosition", position_rows())
        + "}"@
}

/// The texts of the fields written so far.
struct Rows {
    out: String,
    first: bool,
    rows: Ghost<Seq<(Seq<char>, Seq<char>)>>,
}

impl Rows {
    spec fn wf(&self) -> bool {
        &&& self.out@ == rows_text(self.rows@)
        &&& self.first == (self.rows@.len() == 0)
    }

    fn new() -> (r: Self)
        ensures
            r.wf(),
            r.rows@ == Seq::<(Seq<char>, Seq<char>)>::empty(),
    {
        Rows { out: String::new(), first: true, rows: Ghost(Seq::empty()) }
    }

    /// Appends one field.
    fn push_field(&mut self, name: &str, ty: &str)
        requires
            old(self).wf(),
        ensures
            final(self).wf(),
            final(self).rows@ == old(self).rows@.push(row(name, ty)),
    {
        if !self.first {
            self.out.append(",");
        }
        self.out.append("{\"name\":\"");
        self.out.append(name);
        self.out.append("\",\"type\":\"");
        self.out.append(ty);
        self.out.append("\"}");
        self.first = false;
        let ghost next = self.rows@.push(row(name, ty));
        proof {
            assert(next.drop_last() =~= self.rows@);
            assert(self.out@ =~= rows_text(next));
        }
        self.rows = Ghost(next);
    }
}

fn sub_pool_schema() -> (r: String)
    ensures
        r@ == rows_text(sub_pool_rows()),
{
    let mut rows = Rows::new();
    rows.push_field("market", "Pubkey32");
    rows.push_field("sub_pool_id", "u32");
    rows.push_field("long_pool_equity", "u128");
    rows.push_field("short_pool_equity", "u128");
    rows.push_field("long_active_shares", "u128");
    rows.push_field("short_active_shares", "u128");
    rows.push_field("long_recovery_shares", "u128");
    rows.push_field("short_recovery_shares", "u128");
    rows.push_field("long_active_notional", "u128");
    rows.push_field("short_active_notional", "u128");
    rows.push_field("long_active_generation", "u64");
    rows.push_field("short_active_generation", "u64");
    rows.push_field("last_price", "u64");
    rows.push_field("last_sync_slot", "u64");
    rows.push_field("long_dust", "u128");
    rows.push_field("short_dust", "u128");
    rows.push_field("long_dormant_bucket_count", "u32");
    rows.push_field("short_dormant_bucket_count", "u32");
    rows.push_field("bump", "u8");
    rows.push_field("_pad", "array<u8,7>");
    rows.out
}

fn dormant_bucket_schema() -> (r: String)
    ensures
        r@ == rows_text(dormant_bucket_rows()),
{
    let mut rows = Rows::new();
    rows.push_field("sub_pool", "Pubkey32");
    rows.push_field("direction_is_long", "bool");
    rows.push_field("zero_price_tick", "i64");
    rows.push_field("anchor_price", "u64");
    rows.push_field("total_recovery_shares", "u128");
    rows.push_field("total_recovery_notional", "u128");
    rows.push_field("accrued_value", "u128");
    rows.push_field("position_count", "u64");
    rows.push_field("last_applied_index", "u64");
    rows.push_field("bump", "u8");
    rows.push_field("_pad", "array<u8,6>");
    rows.out
}

fn dist_entry_schema() -> (r: String)
    ensures
        r@ == rows_text(dist_entry_rows()),
{
    let mut rows = Rows::new();
    rows.push_field("event_index", "u64");
    rows.push_field("p_at_event", "u64");
    rows.push_field("total_outstanding_at_event", "u128");
    rows.push_field("total_alloc_input", "u128");
    rows.push_field("allocated_sum_observed", "u128");
    rows.out
}

fn distribution_ledger_schema() -> (r: String)
    ensures
        r@ == rows_text(distribution_ledger_rows()),
{
    let mut rows = Rows::new();
    rows.push_field("sub_pool", "Pubkey32");
    rows.push_field("direction_is_long", "bool");
    rows.push_field("max_entries", "u32");
    rows.push_field("gc_offset", "u64");
    rows.push_field("next_event_index", "u64");
    rows.push_field("accrued_value_total", "u128");
    rows.push_field("pending_distribution_total", "u128");
    rows.push_field("entry_count", "u32");
    rows.push_field("entries", "vec<OnchainDistEntry>");
    rows.push_field("bump", "u8");
    rows.push_field("_pad", "array<u8,7>");
    rows.out
}

fn market_schema() -> (r: String)
    ensures
        r@ == rows_text(market_rows()),
{
    let mut rows = Rows::new();
    rows.push_field("global_config", "Pubkey32");
    rows.push_field("symbol", "array<u8,16>");
    rows.push_field("collateral_mint", "Pubkey32");
    rows.push_field("vault", "Pubkey32");
    rows.push_field("fee_vault", "Pubkey32");
    rows.push_field("oracle_price_feed", "Pubkey32");
    rows.push_field("oracle_program_id", "Pubkey32");
    rows.push_field("leverage_bps", "u32");
    rows.push_field("min_margin", "u64");
    rows.push_field("max_margin_per_position", "u64");
    rows.push_field("max_total_principal", "u128");
    rows.push_field("max_total_notional", "u128");
    rows.push_field("current_total_principal", "u128");
    rows.push_field("current_total_notional", "u128");
    rows.push_field("open_fee_bps", "u16");
    rows.push_field("max_oracle_age_seconds", "i64");
    rows.push_field("max_oracle_age_slots", "u64");
    rows.push_field("max_confidence_bps", "u16");
    rows.push_field("max_price_move_bps_per_sync", "u32");
    rows.push_field("price_tick", "u64");
    rows.push_field("tick_aggregation_factor", "u32");
    rows.push_field("max_dormant_bucket_count_per_direction", "u32");
    rows.push_field("dilution_safety_bps", "u32");
    rows.push_field("max_idle_slots", "u64");
    rows.push_field("paused", "bool");
    rows.push_field("frozen_new_position", "bool");
    rows.push_field("schema_version", "u16");
    rows.push_field("sub_pool_count", "u32");
    rows.push_field("dormant_distribute_mode", "u8");
    rows.push_field("max_pending_apply_per_tx", "u32");
    rows.push_field("max_distribution_ledger_size", "u32");
    rows.push_field("bump", "u8");
    rows.push_field("_pad", "array<u8,2>");
    rows.out
}

fn position_schema() -> (r: String)
    ensures
        r@ == rows_text(position_rows()),
{
    let mut rows = Rows::new();
    rows.push_field("owner", "Pubkey32");
    rows.push_field("market", "Pubkey32");
    rows.push_field("sub_pool", "Pubkey32");
    rows.push_field("position_id", "u64");
    rows.push_field("direction_is_long", "bool");
    rows.push_field("status", "u8");
    rows.push_field("principal", "u64");
    rows.push_field("leverage_bps", "u32");
    rows.push_field("notional", "u128");
    rows.push_field("active_shares", "u128");
    rows.push_field("recovery_shares", "u128");
    rows.push_field("recovery_bucket_tick", "i64");
    rows.push_field("has_recovery_bucket", "bool");
    rows.push_field("zero_price", "u64");
    rows.push_field("entry_price", "u64");
    rows.push_field("last_sync_slot", "u64");
    rows.push_field("active_generation", "u64");
    rows.push_field("opened_at", "i64");
    rows.push_field("updated_at", "i64");
    rows.push_field("closed_at", "i64");
    rows.push_field("schema_version", "u16");
    rows.push_field("bump", "u8");
    rows.push_field("_pad", "array<u8,5>");
    rows.out
}

/// Appends the description of one record.
fn push_record(out: &mut String, name: &str, rows: &str)
    ensures
        final(out)@ == old(out)@ + ("\""@ + name@ + "\":["@ + rows@ + "]"@),
{
    out.append("\"");
    out.append(name);
    out.append("\":[");
    out.append(rows);
    out.append("]");
    proof {
        assert(out@ =~= old(out)@ + ("\""@ + name@ + "\":["@ + rows@ + "]"@));
    }
}

/// Renders the description of every record.
pub fn schema_descriptor_json() -> (r: String)
    ensures
        r@ == schema_text(),
{
    let mut out = String::from_str("{");
    push_record(&mut out, "OnchainSubPool", sub_pool_schema().as_str());
    out.append(",");
    push_record(&mut out, "OnchainDormantBucket", dormant_bucket_schema().as_str());
    out.append(",");
    push_record(&mut out, "OnchainDistEntry", dist_entry_schema().as_str());
    out.append(",");
    push_record(&mut out, "OnchainDistributionLedger", distribution_ledger_schema().as_str());
    out.append(",");
    push_record(&mut out, "OnchainMarket", market_schema().as_str());
    out.append(",");
    push_record(&mut out, "OnchainPosition", position_schema().as_str());
    out.append("}");
    out
}

/// The description lists as many fields as the layout of each record has,
/// 103 in all; the list of entries has its length as a field of its own.
pub proof fn law_schema_lists_every_field(
    sub_pool: crate::decoder::accounts::OnchainSubPool,
    bucket: crate::decoder::accounts::OnchainDormantBucket,
    entry: crate::decoder::accounts::OnchainDistEntry,
    ledger: crate::decoder::accounts::OnchainDistributionLedger,
    market: crate::decoder::accounts::OnchainMarket,
    position: crate::decoder::accounts::OnchainPosition,
)
    ensures
        sub_pool_rows().len() == sub_pool.fields().len(),
        dormant_bucket_rows().len() == bucket.fields().len(),
        dist_entry_rows().len() == entry.fields().len(),
        distribution_ledger_rows().len() + 1 == ledger.fields().len(),
        market_rows().len() == market.fields().len(),
        position_rows().len() == position.fields().len(),
        sub_pool_rows().len() + dormant_bucket_rows().len() + dist_entry_rows().len()
            + distribution_ledger_rows().len() + market_rows().len() + position_rows().len() == 103,
{
}

} // verus!
