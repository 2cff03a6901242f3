//! Several markets under one daemon.
//!
//! Each market has a slot of its own: its daemon, its register, its copy of
//! the lock and its memory of ticks. A pass opens and closes a tick of every
//! slot that has not finished; sleeping and signals are the caller's.
use vstd::prelude::*;

use crate::bot;
use crate::bot::leader::HostMirrorLeaderPolicy;
use crate::bot::metrics;
use crate::bot::metrics::KeeperMetrics;
use crate::bot::run;
use crate::bot::run::{
    open_reconciled_tick, try_graceful_release, LeaderRpcReconcileConfig, LoopOutcome,
    LoopTerminationReason, MarketSlotState, RunLoopConfig, TickGate,
};
use crate::bot::{BotError, KeeperBot, TickReport};
use crate::decoder::Pubkey32;
use crate::rpc::fetcher::AccountFetcher;
use crate::rpc::leader_tx;
use crate::rpc::leader_tx::{
    KeeperLeaderTxBuilder, LeaderInstructionModel, MockKeeperLeaderTxBuilder,
};
use crate::rpc::market_registry;
use crate::rpc::market_registry::MarketEntry;
use crate::rpc::snapshot::{ChainSnapshot, MarketContext};
use crate::text;

verus! {

/// A market under the daemon.
#[derive(Debug)]
pub struct MarketSlot {
    /// The market's name in metrics.
    pub label: String,
    /// What is known of the market beforehand.
    pub ctx: MarketContext,
    /// How often the lock is read and heartbeats are sent.
    pub rpc_cfg: LeaderRpcReconcileConfig,
    /// The market's daemon.
    pub bot: KeeperBot,
    /// The market's register.
    pub metrics: KeeperMetrics,
    /// The market's copy of the lock.
    pub policy: HostMirrorLeaderPolicy,
    /// The market's memory of ticks.
    pub state: MarketSlotState,
}

/// The markets under one daemon.
#[derive(Debug)]
pub struct MarketRegistry {
    /// The slots, in the order they were added.
    slots: Vec<MarketSlot>,
}

impl Default for MarketRegistry {
    fn default() -> (r: Self)
        ensures
            r@.len() == 0,
    {
        MarketRegistry { slots: Vec::new() }
    }
}

/// A slot has the label.
pub open spec fn has_label(slots: Seq<MarketSlot>, label: Seq<char>) -> bool {
    exists|i: int| 0 <= i < slots.len() && (#[trigger] slots[i]).label@ == label
}

/// No two slots have one label.
pub open spec fn distinct_labels(slots: Seq<MarketSlot>) -> bool {
    forall|i: int, j: int|
        #![trigger slots[i], slots[j]]
        0 <= i < j < slots.len() ==> slots[i].label@ != slots[j].label@
}

/// What is said of a label that is taken.
pub open spec fn duplicate_text(label: Seq<char>) -> Seq<char> {
    "duplicate market label '"@ + label + "'"@
}

/// The registers of slots as Prometheus reads them, each under its market's label.
pub open spec fn all_prometheus(slots: Seq<MarketSlot>) -> Seq<char>
    decreases slots.len(),
{
    if slots.len() == 0 {
        Seq::empty()
    } else {
        all_prometheus(slots.drop_last()) + slot_text(slots.last())
    }
}

/// A slot's register as Prometheus reads it, under its market's label.
#[verifier::opaque]
pub open spec fn slot_text(slot: MarketSlot) -> Seq<char> {
    metrics::prometheus_text(slot.metrics, market_label(slot.label@))
}

/// The label of a market.
pub open spec fn market_label(label: Seq<char>) -> Seq<char> {
    "{"@ + ("market"@ + "=\""@ + metrics::escaped(label) + "\""@) + "}"@
}

/// The character may stand in a label as it is: it is neither a quote, nor a
/// backslash, nor a control character.
pub open spec fn plain_json_char(c: char) -> bool {
    c != '"' && c != '\\' && c as u32 >= 0x20 && !(0x7f <= c as u32 <= 0x9f)
}

/// A label without quotes, backslashes and control characters.
pub open spec fn json_label(label: Seq<char>) -> Seq<char>
    decreases label.len(),
{
    if label.len() == 0 {
        Seq::empty()
    } else if plain_json_char(label.last()) {
        json_label(label.drop_last()).push(label.last())
    } else {
        json_label(label.drop_last())
    }
}

/// A slot's register as a JSON object.
#[verifier::opaque]
pub open spec fn slot_json(slot: MarketSlot) -> Seq<char> {
    "{\"market\":\""@ + json_label(slot.label@) + "\",\"metrics\":"@ + metrics::json_text(
        slot.metrics,
    ) + "}"@
}

/// Registers of slots as JSON objects, separated by commas.
pub open spec fn json_items(slots: Seq<MarketSlot>) -> Seq<char>
    decreases slots.len(),
{
    if slots.len() == 0 {
        Seq::empty()
    } else if slots.len() == 1 {
        slot_json(slots[0])
    } else {
        json_items(slots.drop_last()) + ","@ + slot_json(slots.last())
    }
}

/// The slots that a list of markets comes to, given what each slot came to:
/// the first that cannot be built, or whose label is taken, is an error.
pub open spec fn slots_of(
    entries: Seq<MarketEntry>,
    made: Seq<Result<MarketSlot, String>>,
) -> Result<Seq<MarketSlot>, Seq<char>>
    decreases made.len(),
{
    if made.len() == 0 {
        Ok(Seq::empty())
    } else {
        let symbol = entries[made.len() - 1].symbol@;
        match slots_of(entries, made.drop_last()) {
            Err(reason) => Err(reason),
            Ok(slots) => match made.last() {
                Err(reason) => Err(
                    "build slot for market `"@ + symbol + "` failed: "@ + reason@,
                ),
                Ok(slot) => if has_label(slots, slot.label@) {
                    Err(
                        "registry add failed for `"@ + symbol + "`: "@ + duplicate_text(
                            slot.label@,
                        ),
                    )
                } else {
                    Ok(slots.push(slot))
                },
            },
        }
    }
}

/// The maker was asked for the slots of the markets in turn, until there was
/// an error, and may have given these.
pub open spec fn slots_made<F: Fn(&MarketEntry) -> Result<MarketSlot, String>>(
    make_slot: F,
    entries: Seq<MarketEntry>,
    made: Seq<Result<MarketSlot, String>>,
) -> bool {
    &&& made.len() <= entries.len()
    &&& slots_of(entries, made) is Ok ==> made.len() == entries.len()
    &&& forall|i: int|
        0 <= i < made.len() ==> make_slot.ensures((&entries[i],), #[trigger] made[i])
}

/// `r` is the registry, or the error, that `expected` says.
pub open spec fn registry_is(
    expected: Result<Seq<MarketSlot>, Seq<char>>,
    r: Result<MarketRegistry, String>,
) -> bool {
    match expected {
        Ok(slots) => r matches Ok(registry) && registry@ == slots,
        Err(reason) => r matches Err(e) && e@ == reason,
    }
}

/// Whether a slot has the label.
fn label_taken(slots: &Vec<MarketSlot>, label: &str) -> (r: bool)
    ensures
        r == has_label(slots@, label@),
{
    let mut i: usize = 0;
    while i < slots.len()
        invariant
            i <= slots.len(),
            forall|j: int| 0 <= j < i ==> (#[trigger] slots@[j]).label@ != label@,
        decreases slots.len() - i,
    {
        if text::same_text(slots[i].label.as_str(), label) {
            return true;
        }
        i = i + 1;
    }
    false
}

/// Appends a label without the characters that a JSON string would have to escape.
fn push_json_label(out: &mut String, label: &str)
    ensures
        final(out)@ == old(out)@ + json_label(label@),
{
    let chars: Vec<char> = text::chars_of(label);
    let mut i: usize = 0;
    proof {
        assert(chars@.take(0) =~= Seq::<char>::empty());
        assert(old(out)@ + json_label(chars@.take(0)) =~= old(out)@);
    }
    while i < chars.len()
        invariant
            i <= chars.len(),
            out@ == old(out)@ + json_label(chars@.take(i as int)),
        decreases chars.len() - i,
    {
        let c: char = chars[i];
        let code: u32 = c as u32;
        if c != '"' && c != '\\' && code >= 0x20 && !(0x7f <= code && code <= 0x9f) {
            out.push(c);
        }
        i = i + 1;
        proof {
            assert(chars@.take(i as int).drop_last() =~= chars@.take(i - 1));
            assert(chars@.take(i as int).last() == c);
            assert(out@ =~= old(out)@ + json_label(chars@.take(i as int)));
        }
    }
    proof {
        assert(chars@.take(chars@.len() as int) =~= chars@);
    }
}

/// Renders a slot's register under its market's label.
fn slot_prometheus(slot: &MarketSlot) -> (r: String)
    ensures
        r@ == slot_text(*slot),
{
    reveal(slot_text);
    let labels: [(&str, &str); 1] = [("market", slot.label.as_str())];
    proof {
        let label = metrics::label_text(labels@[0]);
        assert(metrics::label_list(labels@) == label);
        assert(metrics::label_block(labels@) == market_label(slot.label@));
    }
    slot.metrics.render_prometheus_with_labels(labels.as_slice())
}

/// Appends a slot's register as a JSON object.
fn push_slot_json(out: &mut String, slot: &MarketSlot)
    ensures
        final(out)@ == old(out)@ + slot_json(*slot),
{
    reveal(slot_json);
    out.append("{\"market\":\"");
    push_json_label(out, slot.label.as_str());
    out.append("\",\"metrics\":");
    out.append(slot.metrics.render_json_snapshot().as_str());
    out.append("}");
    proof {
        assert(out@ =~= old(out)@ + slot_json(*slot));
    }
}

impl View for MarketRegistry {
    type V = Seq<MarketSlot>;

    /// The slots, in the order in which they were added.
    closed spec fn view(&self) -> Seq<MarketSlot> {
        self.slots@
    }
}

impl MarketRegistry {
    /// A registry without markets.
    pub fn new() -> (r: Self)
        ensures
            r@.len() == 0,
    {
        MarketRegistry { slots: Vec::new() }
    }

    /// Adds a market. A label that is taken is an error.
    pub fn add(&mut self, slot: MarketSlot) -> (r: Result<(), String>)
        ensures
            if has_label(old(self)@, slot.label@) {
                &&& r matches Err(e) && e@ == duplicate_text(slot.label@)
                &&& final(self)@ == old(self)@
            } else {
                &&& r is Ok
                &&& final(self)@ == old(self)@.push(slot)
            },
    {
        if label_taken(&self.slots, slot.label.as_str()) {
            let mut message = String::from_str("duplicate market label '");
            message.append(slot.label.as_str());
            message.append("'");
            return Err(message);
        }
        self.slots.push(slot);
        Ok(())
    }

    /// Number of markets.
    pub fn len(&self) -> (r: usize)
        ensures
            r == self@.len(),
    {
        self.slots.len()
    }

    /// Whether there is no market.
    pub fn is_empty(&self) -> (r: bool)
        ensures
            r == (self@.len() == 0),
    {
        self.slots.len() == 0
    }

    /// The slots.
    pub fn slots(&self) -> (r: &[MarketSlot])
        ensures
            r@ == self@,
    {
        self.slots.as_slice()
    }

    /// The slots, to be changed.
    pub fn slots_mut(&mut self) -> (r: &mut [MarketSlot])
        ensures
            r@ == old(self)@,
            final(self)@ == final(r)@,
    {
        self.slots.as_mut_slice()
    }

    /// One slot, to be changed.
    pub(crate) fn slot_mut(&mut self, i: usize) -> (r: &mut MarketSlot)
        requires
            i < old(self)@.len(),
        ensures
            *r == old(self)@[i as int],
            final(self)@ == old(self)@.update(i as int, *final(r)),
    {
        &mut self.slots[i]
    }

    /// Renders the registers for Prometheus, each under its market's label.
    pub fn render_prometheus_all(&self) -> (r: String)
        ensures
            r@ == all_prometheus(self@),
    {
        let mut out = String::new();
        let mut i: usize = 0;
        proof {
            assert(self.slots@.take(0) =~= Seq::<MarketSlot>::empty());
            assert(out@ =~= Seq::<char>::empty());
        }
        while i < self.slots.len()
            invariant
                i <= self.slots.len(),
                out@ == all_prometheus(self.slots@.take(i as int)),
            decreases self.slots.len() - i,
        {
            let one: String = slot_prometheus(&self.slots[i]);
            proof {
                let taken = self.slots@.take(i + 1);
                assert(taken.drop_last() =~= self.slots@.take(i as int));
                assert(taken.last() == self.slots@[i as int]);
            }
            out.append(one.as_str());
            i = i + 1;
        }
        proof {
            assert(self.slots@.take(self.slots@.len() as int) =~= self.slots@);
        }
        out
    }

    /// Renders the registers as a JSON array.
    pub fn render_per_market_json(&self) -> (r: String)
        ensures
            r@ == "["@ + json_items(self@) + "]"@,
    {
        let mut out = String::from_str("[");
        let mut i: usize = 0;
        proof {
            assert(self.slots@.take(0) =~= Seq::<MarketSlot>::empty());
            assert(out@ =~= "["@ + json_items(self.slots@.take(0)));
        }
        while i < self.slots.len()
            invariant
                i <= self.slots.len(),
                out@ == "["@ + json_items(self.slots@.take(i as int)),
            decreases self.slots.len() - i,
        {
            let ghost items = json_items(self.slots@.take(i as int));
            if i > 0 {
                out.append(",");
            }
            push_slot_json(&mut out, &self.slots[i]);
            i = i + 1;
            proof {
                let taken = self.slots@.take(i as int);
                let one = slot_json(self.slots@[i - 1]);
                assert(taken.drop_last() =~= self.slots@.take(i - 1));
                assert(taken.last() == self.slots@[i - 1]);
                if i == 1 {
                    assert(taken[0] == self.slots@[0]);
                    assert("["@ + Seq::<char>::empty() + one =~= "["@ + one);
                } else {
                    assert("["@ + items + ","@ + one =~= "["@ + (items + ","@ + one));
                }
            }
        }
        out.append("]");
        proof {
            assert(self.slots@.take(self.slots@.len() as int) =~= self.slots@);
        }
        out
    }

    /// Builds a slot for every market of a list.
    pub fn from_config_with<F: Fn(&MarketEntry) -> Result<MarketSlot, String>>(
        cfg: &market_registry::MarketRegistry,
        make_slot: F,
    ) -> (r: Result<Self, String>)
        requires
            forall|entry: &MarketEntry| make_slot.requires((entry,)),
        ensures
            exists|made: Seq<Result<MarketSlot, String>>| #[trigger]
                slots_made(make_slot, cfg.markets@, made) && registry_is(
                    slots_of(cfg.markets@, made),
                    r,
                ),
    {
        let ghost entries = cfg.markets@;
        let ghost mut made: Seq<Result<MarketSlot, String>> = Seq::empty();
        let mut out = MarketRegistry::new();
        proof {
            assert(out.slots@ =~= Seq::<MarketSlot>::empty());
        }
        let mut i: usize = 0;
        while i < cfg.markets.len()
            invariant
                i <= cfg.markets.len(),
                entries == cfg.markets@,
                made.len() == i,
                forall|entry: &MarketEntry| make_slot.requires((entry,)),
                slots_of(entries, made) == Ok::<Seq<MarketSlot>, Seq<char>>(out.slots@),
                forall|j: int|
                    0 <= j < made.len() ==> make_slot.ensures((&entries[j],), #[trigger] made[j]),
            decreases cfg.markets.len() - i,
        {
            let entry: &MarketEntry = &cfg.markets[i];
            let one: Result<MarketSlot, String> = make_slot(entry);
            let ghost before = made;
            proof {
                made = made.push(one);
                assert(made.drop_last() =~= before);
                assert(made.last() == one);
            }
            i = i + 1;
            match one {
                Err(reason) => {
                    let mut message = String::from_str("build slot for market `");
                    message.append(entry.symbol.as_str());
                    message.append("` failed: ");
                    message.append(reason.as_str());
                    proof {
                        assert(slots_made(make_slot, entries, made));
                    }
                    return Err(message);
                },
                Ok(slot) => {
                    let ghost label = slot.label@;
                    match out.add(slot) {
                        Ok(_) => {},
                        Err(reason) => {
                            let mut message = String::from_str("registry add failed for `");
                            message.append(entry.symbol.as_str());
                            message.append("`: ");
                            message.append(reason.as_str());
                            proof {
                                assert(slots_made(make_slot, entries, made));
                            }
                            return Err(message);
                        },
                    }
                },
            }
        }
        proof {
            assert(slots_made(make_slot, entries, made));
        }
        Ok(out)
    }
}

/// Settings of a loop over several markets.
#[derive(Debug, Clone, Copy, PartialEq, Eq, Structural)]
pub struct MultiMarketRunConfig {
    /// Pause between passes, in milliseconds.
    pub tick_interval_ms: u64,
    /// At most this many passes.
    pub max_passes: Option<u64>,
    /// Pause after a transient error, in milliseconds.
    pub transient_error_backoff_ms: u64,
}

impl Default for MultiMarketRunConfig {
    fn default() -> (r: Self)
        ensures
            r.tick_interval_ms == 800,
            r.max_passes is None,
            r.transient_error_backoff_ms == 200,
    {
        MultiMarketRunConfig {
            tick_interval_ms: 800,
            max_passes: None,
            transient_error_backoff_ms: 200,
        }
    }
}

impl From<RunLoopConfig> for MultiMarketRunConfig {
    fn from(c: RunLoopConfig) -> (r: Self) {
        MultiMarketRunConfig {
            tick_interval_ms: c.tick_interval_ms,
            max_passes: c.max_ticks,
            transient_error_backoff_ms: c.transient_error_backoff_ms,
        }
    }
}

impl vstd::std_specs::convert::FromSpecImpl<RunLoopConfig> for MultiMarketRunConfig {
    open spec fn obeys_from_spec() -> bool {
        true
    }

    open spec fn from_spec(c: RunLoopConfig) -> Self {
        MultiMarketRunConfig {
            tick_interval_ms: c.tick_interval_ms,
            max_passes: c.max_ticks,
            transient_error_backoff_ms: c.transient_error_backoff_ms,
        }
    }
}

/// How the loop of one market ended.
#[derive(Debug, Clone, PartialEq, Eq)]
pub struct PerMarketOutcome {
    /// The market's label.
    pub label: String,
    /// Ticks completed.
    pub ticks: u64,
    /// Why it ended.
    pub reason: LoopTerminationReason,
    /// The permanent error, where there was one.
    pub error: Option<BotError>,
}

/// How a loop over several markets ended.
#[derive(Debug, Clone)]
pub struct MultiMarketLoopOutcome {
    /// Passes completed.
    pub passes: u64,
    /// The worst reason among the markets.
    pub reason: LoopTerminationReason,
    /// How each market ended, in order.
    pub per_market: Vec<PerMarketOutcome>,
}

/// What becomes of a slot's tick.
#[derive(Debug)]
pub enum SlotGate {
    /// The slot has finished.
    Finished,
    /// The slot is tried again on the next pass, after a pause.
    Backoff,
    /// Another keeper leads; the tick is over.
    Standby,
    /// This keeper leads: the tick goes ahead over the snapshot.
    Lead {
        /// What was read.
        snap: ChainSnapshot,
        /// The best known slot.
        slot: u64,
    },
}

/// What becomes of the tick of a slot once it has been opened.
pub open spec fn slot_gate(g: TickGate) -> SlotGate {
    match g {
        TickGate::Stop(_) => SlotGate::Finished,
        TickGate::Retry(_) => SlotGate::Backoff,
        TickGate::Standby => SlotGate::Standby,
        TickGate::Lead { snap, slot } => SlotGate::Lead { snap, slot },
    }
}

/// How the slot ended, where opening its tick ended it.
pub open spec fn finished_by(g: TickGate, before: Option<LoopOutcome>) -> Option<LoopOutcome> {
    match g {
        TickGate::Stop(outcome) => Some(outcome),
        _ => before,
    }
}

/// What opening the tick of a slot may come to.
pub open spec fn slot_opened<F: AccountFetcher, L: KeeperLeaderTxBuilder>(
    fetcher: &F,
    keeper: Pubkey32,
    before: MarketSlot,
    builder: L,
    after: MarketSlot,
    builder_after: L,
    r: SlotGate,
) -> bool {
    &&& after.label == before.label
    &&& after.ctx == before.ctx
    &&& after.rpc_cfg == before.rpc_cfg
    &&& after.bot == before.bot
    &&& exists|refresh: Result<ChainSnapshot, BotError>, g: TickGate| #[trigger]
        slot_opened_by(fetcher, keeper, before, builder, after, builder_after, refresh, g) && r
            == slot_gate(g)
}

/// The tick of a slot was opened by this refresh and this decision.
pub open spec fn slot_opened_by<F: AccountFetcher, L: KeeperLeaderTxBuilder>(
    fetcher: &F,
    keeper: Pubkey32,
    before: MarketSlot,
    builder: L,
    after: MarketSlot,
    builder_after: L,
    refresh: Result<ChainSnapshot, BotError>,
    g: TickGate,
) -> bool {
    &&& bot::refreshed(fetcher, before.ctx, run::gate_config(), refresh)
    &&& after.state.finished == finished_by(g, before.state.finished)
    &&& run::opened(
        fetcher,
        before.rpc_cfg,
        before.ctx,
        keeper,
        refresh,
        before.policy,
        before.state,
        before.metrics,
        builder,
        after.policy,
        (MarketSlotState { finished: before.state.finished, ..after.state }),
        after.metrics,
        builder_after,
        g,
    )
}

/// Opens the tick of a slot. A permanent error finishes the slot.
pub fn open_slot_tick<F: AccountFetcher, L: KeeperLeaderTxBuilder>(
    slot: &mut MarketSlot,
    fetcher: &F,
    keeper_pk: Pubkey32,
    leader_builder: &mut L,
) -> (r: SlotGate)
    requires
        old(slot).state.ticks < u64::MAX,
    ensures
        slot_opened(
            fetcher,
            keeper_pk,
            *old(slot),
            *old(leader_builder),
            *final(slot),
            *final(leader_builder),
            r,
        ),
{
    let gate: TickGate = open_reconciled_tick(
        fetcher,
        &slot.ctx,
        &slot.rpc_cfg,
        &mut slot.policy,
        &mut slot.metrics,
        &mut slot.state,
        keeper_pk,
        leader_builder,
    );
    let ghost g = gate;
    let ghost refresh = choose|refresh: Result<ChainSnapshot, BotError>| #[trigger]
        bot::refreshed(fetcher, slot.ctx, run::gate_config(), refresh) && run::opened(
            fetcher,
            slot.rpc_cfg,
            slot.ctx,
            keeper_pk,
            refresh,
            old(slot).policy,
            old(slot).state,
            old(slot).metrics,
            *old(leader_builder),
            slot.policy,
            slot.state,
            slot.metrics,
            *leader_builder,
            g,
        );
    let ghost opened_state = slot.state;
    proof {
        lemma_opening_keeps_finished(
            fetcher,
            slot.rpc_cfg,
            slot.ctx,
            keeper_pk,
            refresh,
            old(slot).policy,
            old(slot).state,
            old(slot).metrics,
            *old(leader_builder),
            slot.policy,
            slot.state,
            slot.metrics,
            *leader_builder,
            g,
        );
    }
    let r: SlotGate = match gate {
        TickGate::Stop(outcome) => {
            slot.state.finished = Some(outcome);
            SlotGate::Finished
        },
        TickGate::Retry(_) => SlotGate::Backoff,
        TickGate::Standby => SlotGate::Standby,
        TickGate::Lead { snap, slot } => SlotGate::Lead { snap, slot },
    };
    proof {
        assert((MarketSlotState { finished: old(slot).state.finished, ..slot.state })
            == opened_state);
        assert(slot_opened_by(
            fetcher,
            keeper_pk,
            *old(slot),
            *old(leader_builder),
            *slot,
            *leader_builder,
            refresh,
            g,
        ));
    }
    r
}

/// Opening a tick does not touch how a loop ended.
proof fn lemma_opening_keeps_finished<F: AccountFetcher, L: KeeperLeaderTxBuilder>(
    fetcher: &F,
    cfg: LeaderRpcReconcileConfig,
    ctx: MarketContext,
    keeper: Pubkey32,
    refresh: Result<ChainSnapshot, BotError>,
    policy: HostMirrorLeaderPolicy,
    s: MarketSlotState,
    m: KeeperMetrics,
    builder: L,
    policy_after: HostMirrorLeaderPolicy,
    s_after: MarketSlotState,
    m_after: KeeperMetrics,
    builder_after: L,
    r: TickGate,
)
    requires
        run::opened(
            fetcher,
            cfg,
            ctx,
            keeper,
            refresh,
            policy,
            s,
            m,
            builder,
            policy_after,
            s_after,
            m_after,
            builder_after,
            r,
        ),
    ensures
        s_after.finished == s.finished,
{
}

/// The slot after its tick: it is counted, or its error finishes the slot.
pub open spec fn slot_after_tick(
    slot: MarketSlot,
    outcome: Result<TickReport, BotError>,
    duration_ms: u64,
) -> (KeeperMetrics, MarketSlotState) {
    match outcome {
        Ok(report) => (
            KeeperMetrics {
                vol_samples: slot.bot.prices().window().len() as u64,
                ..metrics::after_tick(slot.metrics, report, duration_ms)
            },
            MarketSlotState { ticks: (slot.state.ticks + 1) as u64, ..slot.state },
        ),
        Err(e) => (
            metrics::after_snapshot_error(slot.metrics),
            MarketSlotState {
                finished: Some(
                    LoopOutcome {
                        reason: LoopTerminationReason::PermanentError,
                        ticks: slot.state.ticks,
                        error: Some(e),
                    },
                ),
                ..slot.state
            },
        ),
    }
}

/// Closes the tick of a slot: counts it, or finishes the slot on its error.
pub fn close_slot_tick(
    slot: &mut MarketSlot,
    outcome: Result<TickReport, BotError>,
    duration_ms: u64,
)
    requires
        old(slot).state.ticks < u64::MAX,
    ensures
        (final(slot).metrics, final(slot).state) == slot_after_tick(
            *old(slot),
            outcome,
            duration_ms,
        ),
        final(slot).label == old(slot).label,
        final(slot).ctx == old(slot).ctx,
        final(slot).rpc_cfg == old(slot).rpc_cfg,
        final(slot).bot == old(slot).bot,
        final(slot).policy == old(slot).policy,
{
    match outcome {
        Ok(report) => {
            slot.metrics.observe_tick(&report, duration_ms);
            slot.metrics.set_vol_samples(slot.bot.vol().sample_count() as u64);
            slot.state.ticks = slot.state.ticks + 1;
        },
        Err(e) => {
            slot.metrics.observe_snapshot_error();
            slot.state.finished = Some(
                LoopOutcome {
                    reason: LoopTerminationReason::PermanentError,
                    ticks: slot.state.ticks,
                    error: Some(e),
                },
            );
        },
    }
}

/// The slot once its loop has ended for a reason; one that had finished stays.
pub open spec fn ended(slot: MarketSlot, reason: LoopTerminationReason) -> MarketSlot {
    if slot.state.finished is Some {
        slot
    } else {
        MarketSlot {
            state: MarketSlotState {
                finished: Some(LoopOutcome { reason, ticks: slot.state.ticks, error: None }),
                ..slot.state
            },
            ..slot
        }
    }
}

/// Every slot has ended for a reason.
pub open spec fn all_ended(
    before: Seq<MarketSlot>,
    reason: LoopTerminationReason,
    after: Seq<MarketSlot>,
) -> bool {
    &&& after.len() == before.len()
    &&& forall|i: int| 0 <= i < before.len() ==> #[trigger] after[i] == ended(before[i], reason)
}

/// The builder went from `before` to `after` while the lock of a slot was
/// released on the way out; a slot that had finished is left alone.
pub open spec fn slot_released<L: KeeperLeaderTxBuilder>(
    slot: MarketSlot,
    keeper: Pubkey32,
    before: L,
    after: L,
) -> bool {
    if slot.state.finished is Some {
        after == before
    } else {
        exists|r: Result<Option<String>, String>| #[trigger]
            run::released(
                slot.rpc_cfg,
                before,
                after,
                slot.ctx.program_id,
                slot.ctx.market,
                keeper,
                slot.state.was_leader_last_tick,
                r,
            )
    }
}

/// The builder went through `states` while the locks were released in turn.
pub open spec fn released_in_turn<L: KeeperLeaderTxBuilder>(
    slots: Seq<MarketSlot>,
    keeper: Pubkey32,
    states: Seq<L>,
) -> bool {
    &&& states.len() == slots.len() + 1
    &&& forall|i: int|
        #![trigger slots[i]]
        0 <= i < slots.len() ==> slot_released(slots[i], keeper, states[i], states[i + 1])
}

/// Ends every loop on a signal: the locks of markets that this keeper leads
/// are released, in order. A release that fails does not hold the others up.
pub fn shut_down<L: KeeperLeaderTxBuilder>(
    registry: &mut MarketRegistry,
    keeper_pk: Pubkey32,
    leader_builder: &mut L,
)
    ensures
        all_ended(
            old(registry)@,
            LoopTerminationReason::ShutdownSignal,
            final(registry)@,
        ),
        exists|states: Seq<L>|
            {
                &&& #[trigger] released_in_turn(old(registry)@, keeper_pk, states)
                &&& states[0] == *old(leader_builder)
                &&& states.last() == *final(leader_builder)
            },
{
    let ghost before = registry.slots@;
    let ghost mut states: Seq<L> = Seq::<L>::empty().push(*leader_builder);
    let mut i: usize = 0;
    while i < registry.slots.len()
        invariant
            i <= registry.slots@.len(),
            registry.slots@.len() == before.len(),
            states.len() == i + 1,
            states[0] == *old(leader_builder),
            states.last() == *leader_builder,
            forall|j: int|
                0 <= j < i ==> #[trigger] registry.slots@[j] == ended(
                    before[j],
                    LoopTerminationReason::ShutdownSignal,
                ),
            forall|j: int| i <= j < before.len() ==> #[trigger] registry.slots@[j] == before[j],
            forall|j: int|
                #![trigger before[j]]
                0 <= j < i ==> slot_released(before[j], keeper_pk, states[j], states[j + 1]),
        decreases before.len() - i,
    {
        let ghost builder = *leader_builder;
        let ghost list = registry.slots@;
        let slot: &mut MarketSlot = &mut registry.slots[i];
        if slot.state.finished.is_none() {
            let outcome = try_graceful_release(
                &slot.rpc_cfg,
                leader_builder,
                slot.ctx.program_id,
                slot.ctx.market,
                keeper_pk,
                slot.state.was_leader_last_tick,
            );
            slot.state.finished = Some(
                LoopOutcome {
                    reason: LoopTerminationReason::ShutdownSignal,
                    ticks: slot.state.ticks,
                    error: None,
                },
            );
        }
        proof {
            let next = states.push(*leader_builder);
            assert(list[i as int] == before[i as int]);
            assert(slot_released(before[i as int], keeper_pk, builder, *leader_builder));
            assert forall|j: int|
                #![trigger before[j]]
                0 <= j < i + 1 implies slot_released(
                before[j],
                keeper_pk,
                next[j],
                next[j + 1],
            ) by {
                if j < i {
                    assert(next[j] == states[j] && next[j + 1] == states[j + 1]);
                } else {
                    assert(next[j] == builder);
                }
            }
            assert(next[0] == states[0]);
            states = next;
        }
        i = i + 1;
    }
    proof {
        assert(released_in_turn(before, keeper_pk, states));
    }
}

/// Ends every loop because there were as many passes as there may be.
pub fn finish_at_limit(registry: &mut MarketRegistry)
    ensures
        all_ended(
            old(registry)@,
            LoopTerminationReason::TickLimitReached,
            final(registry)@,
        ),
{
    let ghost before = registry.slots@;
    let mut i: usize = 0;
    while i < registry.slots.len()
        invariant
            i <= registry.slots@.len(),
            registry.slots@.len() == before.len(),
            forall|j: int|
                0 <= j < i ==> #[trigger] registry.slots@[j] == ended(
                    before[j],
                    LoopTerminationReason::TickLimitReached,
                ),
            forall|j: int| i <= j < before.len() ==> #[trigger] registry.slots@[j] == before[j],
        decreases before.len() - i,
    {
        let slot: &mut MarketSlot = &mut registry.slots[i];
        if slot.state.finished.is_none() {
            slot.state.finished = Some(
                LoopOutcome {
                    reason: LoopTerminationReason::TickLimitReached,
                    ticks: slot.state.ticks,
                    error: None,
                },
            );
        }
        i = i + 1;
    }
}

/// Every loop has ended.
pub open spec fn none_running(slots: Seq<MarketSlot>) -> bool {
    forall|i: int| 0 <= i < slots.len() ==> (#[trigger] slots[i]).state.finished is Some
}

/// Whether every loop has ended.
pub fn all_finished(registry: &MarketRegistry) -> (r: bool)
    ensures
        r == none_running(registry@),
{
    let mut i: usize = 0;
    while i < registry.slots.len()
        invariant
            i <= registry.slots.len(),
            forall|j: int| 0 <= j < i ==> (#[trigger] registry.slots@[j]).state.finished is Some,
        decreases registry.slots.len() - i,
    {
        if registry.slots[i].state.finished.is_none() {
            proof {
                assert(registry.slots@[i as int].state.finished is None);
            }
            return false;
        }
        i = i + 1;
    }
    true
}

/// How bad a reason is.
pub open spec fn rank(r: LoopTerminationReason) -> int {
    match r {
        LoopTerminationReason::PermanentError => 3,
        LoopTerminationReason::ShutdownSignal => 2,
        LoopTerminationReason::TickLimitReached => 1,
    }
}

/// The worse of two reasons.
pub open spec fn worse(a: LoopTerminationReason, b: LoopTerminationReason) -> LoopTerminationReason {
    if rank(b) > rank(a) {
        b
    } else {
        a
    }
}

/// Picks the worse of two reasons.
pub fn promote_worst(current: LoopTerminationReason, candidate: LoopTerminationReason) -> (r:
    LoopTerminationReason)
    ensures
        r == worse(current, candidate),
{
    match (current, candidate) {
        (LoopTerminationReason::PermanentError, _) => current,
        (_, LoopTerminationReason::PermanentError) => candidate,
        (LoopTerminationReason::ShutdownSignal, _) => current,
        (_, LoopTerminationReason::ShutdownSignal) => candidate,
        _ => current,
    }
}

/// How the loop of a slot ended; one that runs counts as told to stop.
pub open spec fn slot_outcome(slot: MarketSlot) -> LoopOutcome {
    match slot.state.finished {
        Some(outcome) => outcome,
        None => LoopOutcome {
            reason: LoopTerminationReason::ShutdownSignal,
            ticks: slot.state.ticks,
            error: None,
        },
    }
}

/// The worst reason among slots; the signal where there is no slot.
pub open spec fn worst_reason(slots: Seq<MarketSlot>) -> LoopTerminationReason
    decreases slots.len(),
{
    if slots.len() == 0 {
        LoopTerminationReason::ShutdownSignal
    } else if slots.len() == 1 {
        slot_outcome(slots[0]).reason
    } else {
        worse(worst_reason(slots.drop_last()), slot_outcome(slots.last()).reason)
    }
}

/// The outcome of a market says how the loop of its slot ended.
pub open spec fn tells(outcome: PerMarketOutcome, slot: MarketSlot) -> bool {
    &&& outcome.label@ == slot.label@
    &&& outcome.ticks == slot_outcome(slot).ticks
    &&& outcome.reason == slot_outcome(slot).reason
    &&& outcome.error == slot_outcome(slot).error
}

/// The slot without the memory of how its loop ended.
pub open spec fn reopened(slot: MarketSlot) -> MarketSlot {
    MarketSlot { state: MarketSlotState { finished: None, ..slot.state }, ..slot }
}

/// Tells how the loops ended. The slots can then be used again.
pub fn collect_outcomes(registry: &mut MarketRegistry, passes: u64) -> (r: MultiMarketLoopOutcome)
    ensures
        r.passes == passes,
        r.reason == worst_reason(old(registry)@),
        r.per_market@.len() == old(registry)@.len(),
        forall|i: int|
            0 <= i < r.per_market@.len() ==> tells(
                #[trigger] r.per_market@[i],
                old(registry)@[i],
            ),
        final(registry)@.len() == old(registry)@.len(),
        forall|i: int|
            0 <= i < old(registry)@.len() ==> #[trigger] final(registry)@[i]
                == reopened(old(registry)@[i]),
{
    let ghost before = registry.slots@;
    let mut per_market: Vec<PerMarketOutcome> = Vec::new();
    let mut worst: LoopTerminationReason = LoopTerminationReason::ShutdownSignal;
    let mut i: usize = 0;
    proof {
        assert(before.take(0) =~= Seq::<MarketSlot>::empty());
    }
    while i < registry.slots.len()
        invariant
            i <= registry.slots@.len(),
            registry.slots@.len() == before.len(),
            per_market@.len() == i,
            worst == worst_reason(before.take(i as int)),
            forall|j: int| 0 <= j < i ==> tells(#[trigger] per_market@[j], before[j]),
            forall|j: int| 0 <= j < i ==> #[trigger] registry.slots@[j] == reopened(before[j]),
            forall|j: int| i <= j < before.len() ==> #[trigger] registry.slots@[j] == before[j],
        decreases before.len() - i,
    {
        let slot: &mut MarketSlot = &mut registry.slots[i];
        proof {
            assert(before.take(i + 1).drop_last() =~= before.take(i as int));
            assert(before.take(i + 1).last() == before[i as int]);
        }
        let label: String = slot.label.clone();
        let outcome: LoopOutcome = match slot.state.finished.take() {
            Some(outcome) => outcome,
            None => LoopOutcome {
                reason: LoopTerminationReason::ShutdownSignal,
                ticks: slot.state.ticks,
                error: None,
            },
        };
        worst = if i == 0 {
            outcome.reason
        } else {
            promote_worst(worst, outcome.reason)
        };
        per_market.push(
            PerMarketOutcome {
                label,
                ticks: outcome.ticks,
                reason: outcome.reason,
                error: outcome.error,
            },
        );
        i = i + 1;
    }
    proof {
        assert(before.take(before.len() as int) =~= before);
    }
    MultiMarketLoopOutcome { passes, reason: worst, per_market }
}

/// Adding a market keeps labels distinct.
pub proof fn law_adding_keeps_labels_distinct(slots: Seq<MarketSlot>, slot: MarketSlot)
    requires
        distinct_labels(slots),
        !has_label(slots, slot.label@),
    ensures
        distinct_labels(slots.push(slot)),
{
    let all = slots.push(slot);
    assert forall|i: int, j: int|
        #![trigger all[i], all[j]]
        0 <= i < j < all.len() implies all[i].label@ != all[j].label@ by {
        if j < slots.len() {
            assert(slots[i].label@ != slots[j].label@);
        } else {
            assert(slots[i].label@ != slot.label@);
        }
    }
}

/// A registry that was built from a list of markets has distinct labels.
pub proof fn law_built_registry_has_distinct_labels(
    entries: Seq<MarketEntry>,
    made: Seq<Result<MarketSlot, String>>,
)
    requires
        slots_of(entries, made) is Ok,
    ensures
        distinct_labels(slots_of(entries, made)->Ok_0),
        slots_of(entries, made)->Ok_0.len() == made.len(),
    decreases made.len(),
{
    if made.len() > 0 {
        law_built_registry_has_distinct_labels(entries, made.drop_last());
        let slots = slots_of(entries, made.drop_last())->Ok_0;
        law_adding_keeps_labels_distinct(slots, made.last()->Ok_0);
    }
}

/// A permanent error of any market is the reason of them all.
pub proof fn law_permanent_error_shows(slots: Seq<MarketSlot>, i: int)
    requires
        0 <= i < slots.len(),
        slot_outcome(slots[i]).reason == LoopTerminationReason::PermanentError,
    ensures
        worst_reason(slots) == LoopTerminationReason::PermanentError,
    decreases slots.len(),
{
    if i < slots.len() - 1 {
        assert(slots.drop_last()[i] == slots[i]);
        law_permanent_error_shows(slots.drop_last(), i);
    }
}

/// The overall reason is the reason of one of the markets, and no market has
/// a worse one.
pub proof fn law_overall_reason_is_the_worst(slots: Seq<MarketSlot>)
    requires
        slots.len() > 0,
    ensures
        exists|i: int|
            0 <= i < slots.len() && slot_outcome(#[trigger] slots[i]).reason == worst_reason(slots),
        forall|i: int|
            0 <= i < slots.len() ==> rank(slot_outcome(#[trigger] slots[i]).reason) <= rank(
                worst_reason(slots),
            ),
    decreases slots.len(),
{
    if slots.len() == 1 {
        assert(slot_outcome(slots[0]).reason == worst_reason(slots));
    } else {
        let most = slots.drop_last();
        law_overall_reason_is_the_worst(most);
        let k = choose|k: int|
            0 <= k < most.len() && slot_outcome(#[trigger] most[k]).reason == worst_reason(most);
        assert(slots[k] == most[k]);
        assert(slots[slots.len() - 1] == slots.last());
        assert forall|i: int| 0 <= i < slots.len() implies rank(
            slot_outcome(#[trigger] slots[i]).reason,
        ) <= rank(worst_reason(slots)) by {
            if i < most.len() {
                assert(most[i] == slots[i]);
            }
        }
    }
}

/// A slot that has finished is not ended again.
pub proof fn law_finished_slots_stay_finished(
    slot: MarketSlot,
    a: LoopTerminationReason,
    b: LoopTerminationReason,
)
    ensures
        ended(ended(slot, a), b) == ended(slot, a),
        slot.state.finished is Some ==> ended(slot, a) == slot,
{
}

/// The instructions that release the locks of the markets that are led and
/// have not finished, in order.
pub open spec fn releases(slots: Seq<MarketSlot>, keeper: Pubkey32) -> Seq<LeaderInstructionModel>
    decreases slots.len(),
{
    if slots.len() == 0 {
        Seq::empty()
    } else {
        let before = releases(slots.drop_last(), keeper);
        let slot = slots.last();
        if slot.state.finished is None && slot.rpc_cfg.release_on_shutdown
            && slot.state.was_leader_last_tick {
            before.push(
                run::release_instruction(
                    slot.rpc_cfg,
                    slot.ctx.program_id,
                    slot.ctx.market,
                    keeper,
                ),
            )
        } else {
            before
        }
    }
}

/// On the way out the lock of every market that is led is released exactly
/// once, and no other.
pub proof fn law_leaders_release_exactly_once(
    slots: Seq<MarketSlot>,
    keeper: Pubkey32,
    states: Seq<MockKeeperLeaderTxBuilder>,
)
    requires
        released_in_turn(slots, keeper, states),
        states[0].force_err is None,
    ensures
        states.last().force_err is None,
        leader_tx::instruction_models(states.last().submitted@) == leader_tx::instruction_models(
            states[0].submitted@,
        ) + releases(slots, keeper),
    decreases slots.len(),
{
    if slots.len() == 0 {
        assert(leader_tx::instruction_models(states[0].submitted@) + releases(slots, keeper)
            =~= leader_tx::instruction_models(states[0].submitted@));
    } else {
        let n = slots.len() - 1;
        let before = slots.drop_last();
        let earlier = states.drop_last();
        assert forall|i: int|
            #![trigger before[i]]
            0 <= i < before.len() implies slot_released(
            before[i],
            keeper,
            earlier[i],
            earlier[i + 1],
        ) by {
            assert(before[i] == slots[i]);
        }
        law_leaders_release_exactly_once(before, keeper, earlier);
        assert(slot_released(slots[n], keeper, states[n], states[n + 1]));
        assert(earlier.last() == states[n] && slots[n] == slots.last());
        let start = leader_tx::instruction_models(states[0].submitted@);
        let ix = run::release_instruction(
            slots[n].rpc_cfg,
            slots[n].ctx.program_id,
            slots[n].ctx.market,
            keeper,
        );
        assert((start + releases(before, keeper)).push(ix) =~= start + releases(
            before,
            keeper,
        ).push(ix));
    }
}

/// A label in JSON never ends its string early.
pub proof fn law_json_labels_are_plain(label: Seq<char>, i: int)
    requires
        0 <= i < json_label(label).len(),
    ensures
        plain_json_char(json_label(label)[i]),
    decreases label.len(),
{
    if label.len() > 0 {
        let before = json_label(label.drop_last());
        if i < before.len() {
            law_json_labels_are_plain(label.drop_last(), i);
        }
    }
}

} // verus!
