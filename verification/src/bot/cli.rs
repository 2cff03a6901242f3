//! What the daemon is asked to do on the command line, and the slots that it
//! serves several markets with.
use vstd::prelude::*;

use crate::bot::leader::HostMirrorLeaderPolicy;
use crate::bot::metrics;
use crate::bot::metrics::KeeperMetrics;
use crate::bot::multi;
use crate::bot::multi::{MarketRegistry, MarketSlot};
use crate::bot::run::{LeaderRpcReconcileConfig, MarketSlotState};
use crate::bot::{BotConfig, KeeperBot};
use crate::decoder::leader_lock;
use crate::decoder::leader_lock::KeeperLeaderLock;
use crate::decoder::Pubkey32;
use crate::rpc::market_registry;
use crate::rpc::market_registry::MarketEntry;
use crate::rpc::snapshot::MarketContext;
use crate::text;

verus! {

/// What the daemon is asked to do.
#[derive(Debug, Clone, PartialEq, Eq)]
pub enum Mode {
    /// One tick without a network.
    Smoke,
    /// The daemon of one market.
    Serve {
        /// Where the metrics are served.
        addr: String,
        /// At most this many ticks.
        max_ticks: Option<u64>,
    },
    /// The daemon of several markets.
    ServeMulti {
        /// Where the metrics are served.
        addr: String,
        /// The file that lists the markets.
        registry_path: String,
        /// At most this many passes.
        max_passes: Option<u64>,
    },
}

/// Errors of the command line.
#[derive(Debug, Clone, PartialEq, Eq)]
pub enum CliError {
    /// The file that lists the markets is not named.
    MissingRegistryPath,
    /// There is no such mode.
    UnknownMode(String),
}

impl CliError {
    /// The text of the error.
    pub open spec fn text(self) -> Seq<char> {
        match self {
            CliError::MissingRegistryPath =>
            "serve-multi requires <addr> <markets.toml> [max_passes]\nexample: keeper-bot serve-multi 0.0.0.0:9099 ./markets.toml 0"@,
            CliError::UnknownMode(mode) => "unknown mode `"@ + mode@
                + "`. supported: smoke | serve | serve-multi"@,
        }
    }

    /// Renders the error.
    pub fn to_string(&self) -> (r: String)
        ensures
            r@ == self.text(),
    {
        match self {
            CliError::MissingRegistryPath => String::from_str(
                "serve-multi requires <addr> <markets.toml> [max_passes]\nexample: keeper-bot serve-multi 0.0.0.0:9099 ./markets.toml 0",
            ),
            CliError::UnknownMode(mode) => {
                let mut out = String::from_str("unknown mode `");
                out.append(mode.as_str());
                out.append("`. supported: smoke | serve | serve-multi");
                out
            },
        }
    }
}

/// The character is a decimal digit.
pub open spec fn is_digit(c: char) -> bool {
    0x30 <= c as u32 <= 0x39
}

/// The number that digits stand for.
pub open spec fn digits_value(s: Seq<char>) -> Option<nat>
    decreases s.len(),
{
    if s.len() == 0 {
        Some(0)
    } else {
        match digits_value(s.drop_last()) {
            Some(n) if is_digit(s.last()) => Some(10 * n + (s.last() as u32 - 0x30) as nat),
            _ => None,
        }
    }
}

/// The text without a plus sign at its start.
pub open spec fn unsigned(s: Seq<char>) -> Seq<char> {
    if s.len() > 0 && s[0] == '+' {
        s.skip(1)
    } else {
        s
    }
}

/// The number that a text stands for: an optional plus sign and digits, and
/// no more than 64 bits.
pub open spec fn number_of(s: Seq<char>) -> Option<u64> {
    match digits_value(unsigned(s)) {
        Some(n) if unsigned(s).len() > 0 && n <= u64::MAX => Some(n as u64),
        _ => None,
    }
}

/// More digits never make a text a number that fits again.
proof fn lemma_digits_grow(s: Seq<char>, i: int)
    requires
        0 <= i <= s.len(),
        digits_value(s.take(i)) matches Some(n) ==> n > u64::MAX,
    ensures
        digits_value(s) matches Some(n) ==> n > u64::MAX,
    decreases s.len() - i,
{
    if i < s.len() {
        assert(s.take(i + 1).drop_last() =~= s.take(i));
        lemma_digits_grow(s, i + 1);
    } else {
        assert(s.take(i) =~= s);
    }
}

/// Reads a number.
pub fn parse_number(s: &str) -> (r: Option<u64>)
    ensures
        r == number_of(s@),
{
    let chars: Vec<char> = text::chars_of(s);
    let start: usize = if chars.len() > 0 && chars[0] == '+' {
        1
    } else {
        0
    };
    let ghost digits = unsigned(s@);
    if start >= chars.len() {
        return None;
    }
    let mut n: u64 = 0;
    let mut i: usize = start;
    proof {
        assert(digits.take(0) =~= Seq::<char>::empty());
    }
    while i < chars.len()
        invariant
            start <= i <= chars.len(),
            start == 0 || start == 1,
            chars@ == s@,
            digits == s@.skip(start as int),
            digits == unsigned(s@),
            digits_value(digits.take(i - start)) == Some(n as nat),
        decreases chars.len() - i,
    {
        let u: u32 = chars[i] as u32;
        proof {
            assert(digits.take(i - start + 1).drop_last() =~= digits.take(i - start));
            assert(digits.take(i - start + 1).last() == chars@[i as int]);
        }
        if u < 0x30 || u > 0x39 {
            proof {
                lemma_digits_grow(digits, i - start + 1);
            }
            return None;
        }
        let d: u64 = (u - 0x30) as u64;
        if n > (u64::MAX - d) / 10 {
            proof {
                lemma_digits_grow(digits, i - start + 1);
            }
            return None;
        }
        let ghost before = digits.take(i - start);
        let ghost c = chars@[i as int];
        n = 10 * n + d;
        i = i + 1;
        proof {
            assert(digits.take(i - start).drop_last() =~= before);
            assert(digits.take(i - start).last() == c);
        }
    }
    proof {
        assert(digits.take(digits.len() as int) =~= digits);
    }
    Some(n)
}

/// An argument, or what stands for it where it is not given.
pub open spec fn argument_or(args: Seq<String>, i: int, default: Seq<char>) -> Seq<char> {
    if i < args.len() {
        args[i]@
    } else {
        default
    }
}

/// The limit that an argument sets. What is no number sets none.
pub open spec fn limit_at(args: Seq<String>, i: int) -> Option<u64> {
    if i < args.len() {
        number_of(args[i]@)
    } else {
        None
    }
}

/// `r` is what the arguments ask for.
pub open spec fn asks_for(args: Seq<String>, r: Result<Mode, CliError>) -> bool {
    let mode = argument_or(args, 0, "smoke"@);
    let place = argument_or(args, 1, "0.0.0.0:9099"@);
    if mode == "smoke"@ {
        r == Ok::<Mode, CliError>(Mode::Smoke)
    } else if mode == "serve"@ {
        r matches Ok(Mode::Serve { addr, max_ticks }) && addr@ == place && max_ticks == limit_at(
            args,
            2,
        )
    } else if mode == "serve-multi"@ {
        if args.len() > 2 {
            r matches Ok(Mode::ServeMulti { addr, registry_path, max_passes }) && addr@ == place
                && registry_path@ == args[2]@ && max_passes == limit_at(args, 3)
        } else {
            r == Err::<Mode, CliError>(CliError::MissingRegistryPath)
        }
    } else {
        r matches Err(CliError::UnknownMode(m)) && m@ == mode
    }
}

/// Reads an argument, or takes what stands for it where it is not given.
fn argument(args: &Vec<String>, i: usize, default: &str) -> (r: String)
    ensures
        r@ == argument_or(args@, i as int, default@),
{
    if i < args.len() {
        args[i].clone()
    } else {
        String::from_str(default)
    }
}

/// Reads the limit that an argument sets.
fn limit(args: &Vec<String>, i: usize) -> (r: Option<u64>)
    ensures
        r == limit_at(args@, i as int),
{
    if i < args.len() {
        parse_number(args[i].as_str())
    } else {
        None
    }
}

/// Reads the arguments that follow the name of the program.
pub fn parse_args(args: &Vec<String>) -> (r: Result<Mode, CliError>)
    ensures
        asks_for(args@, r),
{
    let mode: String = argument(args, 0, "smoke");
    if text::same_text(mode.as_str(), "smoke") {
        return Ok(Mode::Smoke);
    }
    if text::same_text(mode.as_str(), "serve") {
        return Ok(
            Mode::Serve { addr: argument(args, 1, "0.0.0.0:9099"), max_ticks: limit(args, 2) },
        );
    }
    if text::same_text(mode.as_str(), "serve-multi") {
        if args.len() <= 2 {
            return Err(CliError::MissingRegistryPath);
        }
        return Ok(
            Mode::ServeMulti {
                addr: argument(args, 1, "0.0.0.0:9099"),
                registry_path: args[2].clone(),
                max_passes: limit(args, 3),
            },
        );
    }
    Err(CliError::UnknownMode(mode))
}

/// The slot is the one that a keeper serves a market with from the start.
pub open spec fn serves(slot: MarketSlot, entry: MarketEntry, keeper: Pubkey32) -> bool {
    &&& slot.label@ == entry.symbol@
    &&& slot.ctx.program_id == entry.program_id
    &&& slot.ctx.market == entry.market_pda
    &&& slot.ctx.market_symbol@ == market_registry::padded_symbol(entry.symbol@)
    &&& slot.ctx.sub_pools@.len() == 0
    &&& slot.rpc_cfg == (LeaderRpcReconcileConfig {
        reconcile_every: Some(20u64),
        lock_pda: entry.lock_pda,
        heartbeat_every: Some(5u64),
        release_on_shutdown: true,
    })
    &&& slot.bot.wf()
    &&& slot.bot.settings().run_predictor
    &&& slot.bot.settings().snapshot.enforce_schema_version
    &&& slot.bot.settings().snapshot.bail_when_paused
    &&& slot.bot.planner().hints().len() == 0
    &&& slot.bot.planner().settings().min_pending_for_pre_sync == 1
    &&& slot.bot.planner().settings().max_actions_per_plan == 0
    &&& slot.bot.planner().settings().close_dead_buckets
    &&& slot.bot.prices().window().len() == 0
    &&& slot.bot.prices().settings().max_samples == 256
    &&& slot.bot.prices().settings().max_age_slots == 54_000
    &&& slot.bot.prices().settings().min_samples == 16
    &&& slot.metrics == metrics::zero_metrics()
    &&& slot.policy.signer == keeper
    &&& slot.policy.mirror == leader_lock::unowned_lock(0, 75)
    &&& slot.state == (MarketSlotState {
        ticks: 0,
        last_reconcile_tick: None,
        last_heartbeat_tick: None,
        was_leader_last_tick: false,
        finished: None,
    })
}

/// Makes the slot that a keeper serves a market with.
pub fn slot_for(entry: &MarketEntry, keeper: Pubkey32) -> (r: MarketSlot)
    ensures
        serves(r, *entry, keeper),
{
    MarketSlot {
        label: entry.symbol.clone(),
        ctx: MarketContext {
            program_id: entry.program_id,
            market: entry.market_pda,
            market_symbol: entry.symbol_bytes(),
            sub_pools: Vec::new(),
        },
        rpc_cfg: LeaderRpcReconcileConfig {
            reconcile_every: Some(20),
            lock_pda: entry.lock_pda,
            heartbeat_every: Some(5),
            release_on_shutdown: true,
        },
        bot: KeeperBot::new(BotConfig::default()),
        metrics: KeeperMetrics::new(),
        policy: HostMirrorLeaderPolicy::new(keeper, KeeperLeaderLock::fresh(0, 75)),
        state: MarketSlotState::default(),
    }
}

/// The slots serve the markets, each the one at its place.
pub open spec fn all_served(
    slots: Seq<MarketSlot>,
    entries: Seq<MarketEntry>,
    keeper: Pubkey32,
) -> bool {
    &&& slots.len() == entries.len()
    &&& forall|i: int|
        0 <= i < entries.len() ==> serves(#[trigger] slots[i], entries[i], keeper)
}

/// What is said of a symbol that is listed twice.
pub open spec fn repeated_text(symbol: Seq<char>) -> Seq<char> {
    "registry add failed for `"@ + symbol + "`: "@ + multi::duplicate_text(symbol)
}

/// The slots made for markets whose symbols do not repeat are all taken.
proof fn lemma_distinct_slots(
    entries: Seq<MarketEntry>,
    made: Seq<Result<MarketSlot, String>>,
    keeper: Pubkey32,
)
    requires
        made.len() <= entries.len(),
        forall|i: int|
            0 <= i < made.len() ==> (#[trigger] made[i] matches Ok(slot) && serves(
                slot,
                entries[i],
                keeper,
            )),
        forall|i: int|
            0 <= i < made.len() ==> !market_registry::repeats(
                market_registry::entry_models(entries),
                i,
            ),
    ensures
        multi::slots_of(entries, made) matches Ok(slots) && slots.len() == made.len() && forall|
            i: int,
        |
            0 <= i < made.len() ==> made[i] == Ok::<MarketSlot, String>(#[trigger] slots[i]),
    decreases made.len(),
{
    if made.len() > 0 {
        let n = made.len() - 1;
        let before = made.drop_last();
        assert forall|i: int| 0 <= i < before.len() implies (#[trigger] before[i] matches Ok(slot)
            && serves(slot, entries[i], keeper)) by {
            assert(before[i] == made[i]);
        }
        lemma_distinct_slots(entries, before, keeper);
        let slots = multi::slots_of(entries, before)->Ok_0;
        let slot = made[n]->Ok_0;
        let models = market_registry::entry_models(entries);
        if multi::has_label(slots, slot.label@) {
            let j = choose|j: int| 0 <= j < slots.len() && (#[trigger] slots[j]).label@ == slot.label@;
            assert(before[j] == made[j]);
            assert(models[j].symbol == models[n].symbol);
            assert(market_registry::repeats(models, n));
        }
    }
}

/// The first symbol that repeats is where making slots stops.
proof fn lemma_repeated_slot(
    entries: Seq<MarketEntry>,
    made: Seq<Result<MarketSlot, String>>,
    keeper: Pubkey32,
    k: int,
)
    requires
        0 <= k < made.len() <= entries.len(),
        forall|i: int|
            0 <= i < made.len() ==> (#[trigger] made[i] matches Ok(slot) && serves(
                slot,
                entries[i],
                keeper,
            )),
        forall|i: int|
            0 <= i < k ==> !market_registry::repeats(market_registry::entry_models(entries), i),
        market_registry::repeats(market_registry::entry_models(entries), k),
    ensures
        multi::slots_of(entries, made) == Err::<Seq<MarketSlot>, Seq<char>>(
            repeated_text(entries[k].symbol@),
        ),
    decreases made.len(),
{
    let before = made.drop_last();
    assert forall|i: int| 0 <= i < before.len() implies (#[trigger] before[i] matches Ok(slot)
        && serves(slot, entries[i], keeper)) by {
        assert(before[i] == made[i]);
    }
    if k < made.len() - 1 {
        lemma_repeated_slot(entries, before, keeper, k);
    } else {
        lemma_distinct_slots(entries, before, keeper);
        let models = market_registry::entry_models(entries);
        let slots = multi::slots_of(entries, before)->Ok_0;
        let slot = made[k]->Ok_0;
        let j = choose|j: int| 0 <= j < k && (#[trigger] models[j]).symbol == models[k].symbol;
        assert(before[j] == made[j]);
        assert(made[j] == Ok::<MarketSlot, String>(slots[j]));
        assert(slots[j].label@ == slot.label@);
        assert(multi::has_label(slots, slot.label@));
    }
}

/// The first repeat at or after `j`, where there is one.
proof fn lemma_first_repeat(models: Seq<market_registry::EntryModel>, j: int) -> (k: int)
    requires
        0 <= j,
        forall|i: int| 0 <= i < j ==> !market_registry::repeats(models, i),
    ensures
        match market_registry::repeat_from(models, j) {
            Some(symbol) => 0 <= k < models.len() && market_registry::repeats(models, k)
                && models[k].symbol == symbol && forall|i: int|
                0 <= i < k ==> !market_registry::repeats(models, i),
            None => forall|i: int|
                0 <= i < models.len() ==> !market_registry::repeats(models, i),
        },
    decreases models.len() - j,
{
    if j >= models.len() || market_registry::repeats(models, j) {
        j
    } else {
        lemma_first_repeat(models, j + 1)
    }
}

/// Makes the slots that a keeper serves a list of markets with. A symbol
/// that is listed twice is an error.
pub fn serve_registry(cfg: &market_registry::MarketRegistry, keeper: Pubkey32) -> (r: Result<
    MarketRegistry,
    String,
>)
    ensures
        match market_registry::repeat_from(cfg@, 0) {
            None => r matches Ok(registry) && all_served(registry@, cfg.markets@, keeper),
            Some(symbol) => r matches Err(e) && e@ == repeated_text(symbol),
        },
{
    let make_slot = |entry: &MarketEntry| -> (s: Result<MarketSlot, String>)
        ensures
            s matches Ok(slot) && serves(slot, *entry, keeper),
        { Ok(slot_for(entry, keeper)) };
    let r = MarketRegistry::from_config_with(cfg, make_slot);
    proof {
        let entries = cfg.markets@;
        let models = market_registry::entry_models(entries);
        let made = choose|made: Seq<Result<MarketSlot, String>>| #[trigger]
            multi::slots_made(make_slot, entries, made) && multi::registry_is(
                multi::slots_of(entries, made),
                r,
            );
        assert forall|i: int| 0 <= i < made.len() implies (#[trigger] made[i] matches Ok(slot)
            && serves(slot, entries[i], keeper)) by {
            assert(make_slot.ensures((&entries[i],), made[i]));
        }
        let k = lemma_first_repeat(models, 0);
        match market_registry::repeat_from(models, 0) {
            None => {
                lemma_distinct_slots(entries, made, keeper);
            },
            Some(symbol) => {
                if made.len() <= k {
                    lemma_distinct_slots(entries, made, keeper);
                }
                lemma_repeated_slot(entries, made, keeper, k);
            },
        }
    }
    r
}

/// No symbol of a file that was loaded repeats, so that all of its markets can be served.
pub proof fn law_loaded_symbols_do_not_repeat(
    input: Seq<char>,
    models: Seq<market_registry::EntryModel>,
)
    requires
        market_registry::registry_of(input) == Ok::<
            Seq<market_registry::EntryModel>,
            market_registry::RegistryFault,
        >(models),
    ensures
        market_registry::repeat_from(models, 0) is None,
{
}

/// The digits are the characters from zero to nine.
proof fn lemma_digits_are_in_order(c: char)
    ensures
        is_digit(c) <==> '0' <= c && c <= '9',
{
}

/// Digits stand for the number that they read as; a text with anything else
/// among them stands for none.
pub proof fn law_digits_stand_for_their_number(s: Seq<char>)
    ensures
        (forall|i: int| 0 <= i < s.len() ==> '0' <= #[trigger] s[i] && s[i] <= '9') ==> (
        digits_value(s) matches Some(n) && n == text::number_in(s)),
        (exists|i: int| 0 <= i < s.len() && !('0' <= #[trigger] s[i] && s[i] <= '9'))
            ==> digits_value(s) is None,
    decreases s.len(),
{
    if s.len() > 0 {
        let most = s.drop_last();
        let n = s.len() - 1;
        law_digits_stand_for_their_number(most);
        assert(s[n] == s.last());
        if forall|i: int| 0 <= i < s.len() ==> '0' <= #[trigger] s[i] && s[i] <= '9' {
            assert forall|i: int| 0 <= i < most.len() implies '0' <= #[trigger] most[i] && most[i]
                <= '9' by {
                assert(most[i] == s[i]);
            }
        }
        if exists|i: int| 0 <= i < s.len() && !('0' <= #[trigger] s[i] && s[i] <= '9') {
            let i = choose|i: int| 0 <= i < s.len() && !('0' <= #[trigger] s[i] && s[i] <= '9');
            if i < n {
                assert(most[i] == s[i]);
                assert(!('0' <= most[i] && most[i] <= '9'));
                assert(digits_value(most) is None);
            } else {
                lemma_digits_are_in_order(s.last());
            }
            assert(digits_value(s) is None);
        }
    }
}

/// A number is read back from its notation, with or without a plus sign
/// before it, where it fits in 64 bits, and only there.
pub proof fn law_numbers_are_read_back(n: nat)
    ensures
        number_of(text::decimal(n)) == if n <= u64::MAX {
            Some(n as u64)
        } else {
            None
        },
        number_of(seq!['+'] + text::decimal(n)) == number_of(text::decimal(n)),
        number_of(Seq::<char>::empty()) is None,
{
    let d = text::decimal(n);
    text::law_decimal_reads_as_its_number(n);
    law_digits_stand_for_their_number(d);
    assert('0' <= d[0]);
    assert((seq!['+'] + d).skip(1) =~= d);
}

/// What the words ask for. Without one it is the smoke test. To serve takes
/// an address, which has a default, and a limit; to serve several markets
/// takes the file between the two, which has none.
pub proof fn law_words_ask_for_a_mode(args: Seq<String>, r: Result<Mode, CliError>)
    requires
        asks_for(args, r),
    ensures
        args.len() == 0 ==> r matches Ok(Mode::Smoke),
        args.len() > 0 && args[0]@ == "smoke"@ ==> r matches Ok(Mode::Smoke),
        args.len() > 0 && args[0]@ == "serve"@ ==> (r matches Ok(Mode::Serve { addr, max_ticks })
            && (args.len() == 1 ==> addr@ == "0.0.0.0:9099"@) && (args.len() > 1 ==> addr@
            == args[1]@) && (args.len() <= 2 ==> max_ticks is None) && (args.len() > 2 ==> max_ticks
            == number_of(args[2]@))),
        args.len() > 0 && args[0]@ == "serve-multi"@ ==> (args.len() <= 2 <==> r
            == Err::<Mode, CliError>(CliError::MissingRegistryPath)),
        args.len() > 2 && args[0]@ == "serve-multi"@ ==> (r matches Ok(
            Mode::ServeMulti { addr, registry_path, max_passes },
        ) && addr@ == args[1]@ && registry_path@ == args[2]@ && (args.len() == 3 ==> max_passes
            is None) && (args.len() > 3 ==> max_passes == number_of(args[3]@))),
        args.len() > 0 && args[0]@ != "smoke"@ && args[0]@ != "serve"@ && args[0]@
            != "serve-multi"@ ==> (r matches Err(CliError::UnknownMode(mode)) && mode@
            == args[0]@),
{
    reveal_strlit("smoke");
    reveal_strlit("serve");
    reveal_strlit("serve-multi");
    assert("smoke"@[1] != "serve"@[1]);
    assert("serve"@.len() != "serve-multi"@.len());
    assert("smoke"@.len() != "serve-multi"@.len());
}

} // verus!
