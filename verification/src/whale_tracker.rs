//! Behavioural patterns in a batch of transactions: coordinated movement,
//! wash trading, bridge movement and DeFi activity.

use vstd::prelude::*;

use crate::blockchain::{admission_instant, record_after, MultiChainScanner};
use crate::calendar::{
    hour_of_day, hour_of_day_of, in_calendar, month_number, month_number_of, weekday, weekday_of,
};
use crate::text::{decimal_text, push_decimal};
use crate::{
    batch_view, contract_views, holds_text, texts, ContractView, KnownContract, NetworkConfig,
    TransactionView, WhaleTrackerConfig, WhaleTransaction, ZKWatchError,
};

verus! {

/// The kinds of pattern a batch may show.
#[derive(Clone, Copy, Debug, PartialEq, Eq, Structural)]
pub enum WhalePatternType {
    CoordinatedMovement,
    WashTrading,
    PumpAndDump,
    Spoofing,
    BridgeMovement,
    DefiWhale,
    MEVAttack,
}

/// How much attention a pattern or a batch deserves.
#[derive(Clone, Copy, Debug, PartialEq, Eq, Structural)]
pub enum RiskLevel {
    Low,
    Medium,
    High,
}

/// What a whale is expected to do next.
#[derive(Clone, Copy, Debug, PartialEq, Eq, Structural)]
pub enum PredictionAction {
    LargePurchase,
    LargeSale,
    Bridge,
    DefiInteraction,
    Hold,
}

/// Seconds in an hour.
pub const HOUR_SECONDS: i64 = 3_600;

/// The hour an instant falls in, counted from the epoch.
pub open spec fn hour_index(timestamp: int) -> int {
    timestamp / 3_600
}

/// The hour an instant falls in, counted from the epoch.
pub fn hour_of(timestamp: i64) -> (hour: i64)
    ensures
        hour == hour_index(timestamp as int),
{
    match timestamp.checked_div_euclid(HOUR_SECONDS) {
        Some(hour) => hour,
        None => 0,
    }
}

/// A way of choosing transactions out of a batch.
pub enum Selection {
    /// Every transaction.
    Every,
    /// Those that fall in the given hour.
    Hour(int),
    /// Those sent from the given address.
    Sender(Seq<char>),
    /// Those sent from or to one of the given addresses.
    Touching(Seq<Seq<char>>),
    /// Those made in the given hour of the day.
    HourOfDay(int),
    /// Those made on the given day of the week.
    Weekday(int),
    /// Those made in the month of the given number.
    Month(int),
}

/// Whether `selection` chooses `t`.
pub open spec fn picks(selection: Selection, t: TransactionView) -> bool {
    match selection {
        Selection::Every => true,
        Selection::Hour(hour) => hour_index(t.timestamp) == hour,
        Selection::Sender(address) => t.from == address,
        Selection::Touching(addresses) => addresses.contains(t.from) || addresses.contains(t.to),
        Selection::HourOfDay(hour) => hour_of_day(t.timestamp) == hour,
        Selection::Weekday(day) => weekday(t.timestamp) == day,
        Selection::Month(number) => in_calendar(t.timestamp) && month_number(t.timestamp)
            == number,
    }
}

/// How many of the first `k` transactions are chosen.
pub open spec fn count_where(list: Seq<TransactionView>, k: nat, selection: Selection) -> nat
    decreases k,
{
    if k == 0 {
        0
    } else {
        let counted: nat = if picks(selection, list[k - 1]) {
            1
        } else {
            0
        };
        count_where(list, (k - 1) as nat, selection) + counted
    }
}

/// The summed value of the chosen ones among the first `k` transactions.
pub open spec fn volume_where(list: Seq<TransactionView>, k: nat, selection: Selection) -> nat
    decreases k,
{
    if k == 0 {
        0
    } else {
        let counted: nat = if picks(selection, list[k - 1]) {
            list[k - 1].value
        } else {
            0
        };
        volume_where(list, (k - 1) as nat, selection) + counted
    }
}

/// The addresses that sent the chosen ones among the first `k` transactions,
/// each once, in the order in which they first occur.
pub open spec fn senders_where(list: Seq<TransactionView>, k: nat, selection: Selection) -> Seq<
    Seq<char>,
>
    decreases k,
{
    if k == 0 {
        Seq::empty()
    } else {
        let before = senders_where(list, (k - 1) as nat, selection);
        if picks(selection, list[k - 1]) && !before.contains(list[k - 1].from) {
            before.push(list[k - 1].from)
        } else {
            before
        }
    }
}

/// The addresses that received the chosen ones among the first `k`
/// transactions, each once, in the order in which they first occur.
pub open spec fn receivers_where(list: Seq<TransactionView>, k: nat, selection: Selection) -> Seq<
    Seq<char>,
>
    decreases k,
{
    if k == 0 {
        Seq::empty()
    } else {
        let before = receivers_where(list, (k - 1) as nat, selection);
        if picks(selection, list[k - 1]) && !before.contains(list[k - 1].to) {
            before.push(list[k - 1].to)
        } else {
            before
        }
    }
}

/// `amount`, or the largest 128-bit value where it is larger than that.
pub open spec fn capped(amount: nat) -> nat {
    if amount > u128::MAX {
        u128::MAX as nat
    } else {
        amount
    }
}

/// A way of choosing transactions out of a batch, as the detectors hold it.
pub enum Selector {
    Every,
    Hour(i64),
    Sender(String),
    Touching(Vec<String>),
    HourOfDay(usize),
    Weekday(usize),
    Month(i64),
}

impl View for Selector {
    type V = Selection;

    open spec fn view(&self) -> Selection {
        match self {
            Selector::Every => Selection::Every,
            Selector::Hour(hour) => Selection::Hour(*hour as int),
            Selector::Sender(address) => Selection::Sender(address@),
            Selector::Touching(addresses) => Selection::Touching(texts(addresses@)),
            Selector::HourOfDay(hour) => Selection::HourOfDay(*hour as int),
            Selector::Weekday(day) => Selection::Weekday(*day as int),
            Selector::Month(number) => Selection::Month(*number as int),
        }
    }
}

impl Selector {
    /// Whether the selector chooses `t`.
    pub fn picks(&self, t: &WhaleTransaction) -> (chosen: bool)
        ensures
            chosen == picks(self@, t@),
    {
        match self {
            Selector::Every => true,
            Selector::Hour(hour) => hour_of(t.timestamp) == *hour,
            Selector::Sender(address) => t.from == *address,
            Selector::Touching(addresses) => holds_text(addresses, &t.from) || holds_text(
                addresses,
                &t.to,
            ),
            Selector::HourOfDay(hour) => hour_of_day_of(t.timestamp) == *hour,
            Selector::Weekday(day) => weekday_of(t.timestamp) == *day,
            Selector::Month(number) => match month_number_of(t.timestamp) {
                Some(n) => n == *number,
                None => false,
            },
        }
    }
}

/// What a detector needs to know of the transactions a selector chooses.
pub struct GroupSummary {
    /// How many there are.
    pub count: usize,
    /// Their summed value, capped at the largest 128-bit value.
    pub volume: u128,
    /// Whether their summed value is beyond the largest 128-bit value.
    pub overflowed: bool,
    /// Who sent them.
    pub senders: Vec<String>,
    /// Who received them.
    pub receivers: Vec<String>,
}

/// Sums up the transactions of `batch` that `selector` chooses.
pub fn summarize(batch: &Vec<WhaleTransaction>, selector: &Selector) -> (summary: GroupSummary)
    ensures
        summary.count == count_where(batch_view(batch@), batch.len() as nat, selector@),
        summary.volume == capped(
            volume_where(batch_view(batch@), batch.len() as nat, selector@),
        ),
        summary.overflowed == (volume_where(batch_view(batch@), batch.len() as nat, selector@)
            > u128::MAX),
        texts(summary.senders@) == senders_where(
            batch_view(batch@),
            batch.len() as nat,
            selector@,
        ),
        texts(summary.receivers@) == receivers_where(
            batch_view(batch@),
            batch.len() as nat,
            selector@,
        ),
{
    let n = batch.len();
    let ghost list = batch_view(batch@);
    let mut count: usize = 0;
    let mut volume: u128 = 0;
    let mut overflowed = false;
    let mut senders: Vec<String> = Vec::new();
    let mut receivers: Vec<String> = Vec::new();
    let mut k: usize = 0;
    while k < n
        invariant
            n == batch.len(),
            list == batch_view(batch@),
            k <= n,
            count <= k,
            count == count_where(list, k as nat, selector@),
            volume == capped(volume_where(list, k as nat, selector@)),
            overflowed == (volume_where(list, k as nat, selector@) > u128::MAX),
            texts(senders@) == senders_where(list, k as nat, selector@),
            texts(receivers@) == receivers_where(list, k as nat, selector@),
        decreases n - k,
    {
        let t = &batch[k];
        assert(list[k as int] == t@);
        if selector.picks(t) {
            count = count + 1;
            match volume.checked_add(t.value) {
                Some(total) => {
                    volume = total;
                },
                None => {
                    volume = u128::MAX;
                    overflowed = true;
                },
            }
            if !holds_text(&senders, &t.from) {
                let ghost before = texts(senders@);
                senders.push(t.from.clone());
                assert(texts(senders@) =~= before.push(t.from@));
            }
            if !holds_text(&receivers, &t.to) {
                let ghost before = texts(receivers@);
                receivers.push(t.to.clone());
                assert(texts(receivers@) =~= before.push(t.to@));
            }
        }
        k = k + 1;
    }
    GroupSummary { count, volume, overflowed, senders, receivers }
}

/// The confidence of a coordinated movement: 0.85.
pub const COORDINATED_CONFIDENCE: u32 = 8_500;

/// The confidence of a bridge movement: 0.75.
pub const BRIDGE_CONFIDENCE: u32 = 7_500;

/// The confidence of a DeFi pattern: 0.9.
pub const DEFI_CONFIDENCE: u32 = 9_000;

/// The least number of transactions through one bridge that make a pattern.
pub const BRIDGE_MIN_GROUP: usize = 2;

/// The risk that goes with a kind of pattern. The kinds no detector of this
/// crate reports are manipulation or attack, and rank high.
pub open spec fn risk_for(kind: WhalePatternType) -> RiskLevel {
    match kind {
        WhalePatternType::CoordinatedMovement => RiskLevel::High,
        WhalePatternType::WashTrading => RiskLevel::Medium,
        WhalePatternType::BridgeMovement => RiskLevel::Medium,
        WhalePatternType::DefiWhale => RiskLevel::Low,
        WhalePatternType::PumpAndDump => RiskLevel::High,
        WhalePatternType::Spoofing => RiskLevel::High,
        WhalePatternType::MEVAttack => RiskLevel::High,
    }
}

/// The risk that goes with a kind of pattern.
pub fn risk_level_of(kind: WhalePatternType) -> (risk: RiskLevel)
    ensures
        risk == risk_for(kind),
{
    match kind {
        WhalePatternType::CoordinatedMovement => RiskLevel::High,
        WhalePatternType::WashTrading => RiskLevel::Medium,
        WhalePatternType::BridgeMovement => RiskLevel::Medium,
        WhalePatternType::DefiWhale => RiskLevel::Low,
        WhalePatternType::PumpAndDump => RiskLevel::High,
        WhalePatternType::Spoofing => RiskLevel::High,
        WhalePatternType::MEVAttack => RiskLevel::High,
    }
}

/// A pattern found in a batch. `confidence` is in basis points.
#[derive(Clone, Debug, PartialEq, Eq)]
pub struct WhalePattern {
    pub pattern_id: String,
    pub pattern_type: WhalePatternType,
    pub confidence: u32,
    pub involved_addresses: Vec<String>,
    pub estimated_impact: u128,
    pub risk_level: RiskLevel,
}

/// The mathematical content of a [`WhalePattern`].
pub struct PatternView {
    pub pattern_id: Seq<char>,
    pub pattern_type: WhalePatternType,
    pub confidence: nat,
    pub involved_addresses: Seq<Seq<char>>,
    pub estimated_impact: nat,
    pub risk_level: RiskLevel,
}

impl View for WhalePattern {
    type V = PatternView;

    open spec fn view(&self) -> PatternView {
        PatternView {
            pattern_id: self.pattern_id@,
            pattern_type: self.pattern_type,
            confidence: self.confidence as nat,
            involved_addresses: texts(self.involved_addresses@),
            estimated_impact: self.estimated_impact as nat,
            risk_level: self.risk_level,
        }
    }
}

/// The contents of a list of patterns, element by element.
pub open spec fn pattern_views(list: Seq<WhalePattern>) -> Seq<PatternView> {
    Seq::new(list.len(), |i: int| list[i]@)
}

/// The lines the detectors draw.
pub struct DetectionRules {
    pub large_volume_threshold: nat,
    pub min_group_size: nat,
    pub wash_trade_confidence: nat,
    pub bridges: Seq<ContractView>,
    pub protocols: Seq<ContractView>,
}

/// The lines a configuration makes the detectors draw.
pub open spec fn rules_of(config: WhaleTrackerConfig) -> DetectionRules {
    DetectionRules {
        large_volume_threshold: config.large_volume_threshold as nat,
        min_group_size: config.coordinated_min_group_size as nat,
        wash_trade_confidence: config.wash_trade_confidence as nat,
        bridges: contract_views(config.bridge_contracts@),
        protocols: contract_views(config.defi_protocols@),
    }
}

/// Hours are in ascending order, none of them twice.
pub open spec fn hours_ascend(hours: Seq<int>) -> bool {
    forall|i: int, j: int| 0 <= i < j < hours.len() ==> hours[i] < hours[j]
}

/// The place of `hour` among `hours`: behind all that are earlier.
pub open spec fn hour_slot(hours: Seq<int>, hour: int) -> nat
    decreases hours.len(),
{
    if hours.len() == 0 || hours[0] >= hour {
        0
    } else {
        1 + hour_slot(hours.drop_first(), hour)
    }
}

/// The hours in which the first `k` transactions fall, each once, in the
/// order of time.
pub open spec fn hours_among(list: Seq<TransactionView>, k: nat) -> Seq<int>
    decreases k,
{
    if k == 0 {
        Seq::empty()
    } else {
        let before = hours_among(list, (k - 1) as nat);
        let hour = hour_index(list[k - 1].timestamp);
        if before.contains(hour) {
            before
        } else {
            before.insert(hour_slot(before, hour) as int, hour)
        }
    }
}

proof fn lemma_hour_slot_is(hours: Seq<int>, hour: int, p: int)
    requires
        0 <= p <= hours.len(),
        forall|i: int| 0 <= i < p ==> hours[i] < hour,
        p < hours.len() ==> hours[p] >= hour,
    ensures
        hour_slot(hours, hour) == p,
    decreases p,
{
    if p > 0 {
        let rest = hours.drop_first();
        assert forall|i: int| 0 <= i < p - 1 implies rest[i] < hour by {
            assert(rest[i] == hours[i + 1]);
        }
        if p - 1 < rest.len() {
            assert(rest[p - 1] == hours[p]);
        }
        lemma_hour_slot_is(rest, hour, p - 1);
    }
}

proof fn lemma_hour_slot_divides(hours: Seq<int>, hour: int)
    requires
        hours_ascend(hours),
    ensures
        hour_slot(hours, hour) <= hours.len(),
        forall|i: int| 0 <= i < hour_slot(hours, hour) ==> hours[i] < hour,
        forall|i: int| hour_slot(hours, hour) <= i < hours.len() ==> hours[i] >= hour,
    decreases hours.len(),
{
    if !(hours.len() == 0 || hours[0] >= hour) {
        let rest = hours.drop_first();
        assert forall|i: int, j: int| 0 <= i < j < rest.len() implies rest[i] < rest[j] by {
            assert(rest[i] == hours[i + 1]);
            assert(rest[j] == hours[j + 1]);
        }
        lemma_hour_slot_divides(rest, hour);
        assert forall|i: int| 0 <= i < hour_slot(hours, hour) implies hours[i] < hour by {
            if i > 0 {
                assert(rest[i - 1] == hours[i]);
            }
        }
        assert forall|i: int| hour_slot(hours, hour) <= i < hours.len() implies hours[i]
            >= hour by {
            assert(rest[i - 1] == hours[i]);
        }
    } else if hours.len() > 0 {
        assert forall|i: int| 0 <= i < hours.len() implies hours[i] >= hour by {
            if i > 0 {
                assert(hours[0] < hours[i]);
            }
        }
    }
}

/// The hours of a batch are in ascending order, none of them twice.
pub proof fn lemma_hours_ascend(list: Seq<TransactionView>, k: nat)
    ensures
        hours_ascend(hours_among(list, k)),
    decreases k,
{
    if k > 0 {
        let before = hours_among(list, (k - 1) as nat);
        let hour = hour_index(list[k - 1].timestamp);
        lemma_hours_ascend(list, (k - 1) as nat);
        if !before.contains(hour) {
            let p = hour_slot(before, hour) as int;
            let after = before.insert(p, hour);
            lemma_hour_slot_divides(before, hour);
            assert forall|i: int, j: int| 0 <= i < j < after.len() implies after[i] < after[j] by {
                let oi = if i < p { i } else { i - 1 };
                let oj = if j < p { j } else { j - 1 };
                if i != p && j != p {
                    assert(before[oi] < before[oj]);
                } else if i == p {
                    assert(before[oj] >= hour);
                    assert(before.contains(before[oj]));
                } else {
                    assert(before[oi] < hour);
                }
            }
        }
    }
}

/// Whether the transactions of `hour` make a coordinated movement: there
/// are enough of them, and together they move more than the threshold.
pub open spec fn is_coordinated(list: Seq<TransactionView>, hour: int, rules: DetectionRules) -> bool {
    &&& count_where(list, list.len(), Selection::Hour(hour)) >= rules.min_group_size
    &&& volume_where(list, list.len(), Selection::Hour(hour)) > rules.large_volume_threshold
}

/// The pattern that reports the coordinated movement of `hour`.
pub open spec fn coordinated_pattern(list: Seq<TransactionView>, hour: int) -> PatternView {
    PatternView {
        pattern_id: "coordinated_"@ + decimal_text(hour * 3_600),
        pattern_type: WhalePatternType::CoordinatedMovement,
        confidence: COORDINATED_CONFIDENCE as nat,
        involved_addresses: senders_where(list, list.len(), Selection::Hour(hour)),
        estimated_impact: capped(volume_where(list, list.len(), Selection::Hour(hour))),
        risk_level: RiskLevel::High,
    }
}

/// The coordinated movements among the first `m` of `hours`.
pub open spec fn coordinated_among(
    list: Seq<TransactionView>,
    hours: Seq<int>,
    m: nat,
    rules: DetectionRules,
) -> Seq<PatternView>
    decreases m,
{
    if m == 0 {
        Seq::empty()
    } else {
        let before = coordinated_among(list, hours, (m - 1) as nat, rules);
        if is_coordinated(list, hours[m - 1], rules) {
            before.push(coordinated_pattern(list, hours[m - 1]))
        } else {
            before
        }
    }
}

/// The coordinated movements of a batch, in the order of time.
pub open spec fn coordinated_movements(list: Seq<TransactionView>, rules: DetectionRules) -> Seq<
    PatternView,
> {
    let hours = hours_among(list, list.len());
    coordinated_among(list, hours, hours.len(), rules)
}

/// Whether `sender` trades with one counterparty only, and that one not
/// itself.
pub open spec fn is_wash_trader(list: Seq<TransactionView>, sender: Seq<char>) -> bool {
    let partners = receivers_where(list, list.len(), Selection::Sender(sender));
    partners.len() == 1 && partners[0] != sender
}

/// The pattern that reports `sender` trading with its one counterparty.
pub open spec fn wash_pattern(list: Seq<TransactionView>, sender: Seq<char>, rules: DetectionRules) -> PatternView {
    let partner = receivers_where(list, list.len(), Selection::Sender(sender))[0];
    PatternView {
        pattern_id: "wash_trade_"@ + sender + "_"@ + partner,
        pattern_type: WhalePatternType::WashTrading,
        confidence: rules.wash_trade_confidence,
        involved_addresses: seq![sender, partner],
        estimated_impact: 0,
        risk_level: RiskLevel::Medium,
    }
}

/// The wash-trading patterns among the first `m` of `senders`.
pub open spec fn wash_among(
    list: Seq<TransactionView>,
    senders: Seq<Seq<char>>,
    m: nat,
    rules: DetectionRules,
) -> Seq<PatternView>
    decreases m,
{
    if m == 0 {
        Seq::empty()
    } else {
        let before = wash_among(list, senders, (m - 1) as nat, rules);
        if is_wash_trader(list, senders[m - 1]) {
            before.push(wash_pattern(list, senders[m - 1], rules))
        } else {
            before
        }
    }
}

/// The wash-trading patterns of a batch, in the order in which the senders
/// first occur.
///
/// Every address that sends to one other address only is reported, also
/// one that has a single legitimate counterparty: the test is a proxy for
/// round-tripping and is known to err on that side.
pub open spec fn wash_trades(list: Seq<TransactionView>, rules: DetectionRules) -> Seq<PatternView> {
    let senders = senders_where(list, list.len(), Selection::Every);
    wash_among(list, senders, senders.len(), rules)
}

/// The labels of the first `k` contracts, each once, in the order in which
/// they first occur.
pub open spec fn labels_among(contracts: Seq<ContractView>, k: nat) -> Seq<Seq<char>>
    decreases k,
{
    if k == 0 {
        Seq::empty()
    } else {
        let before = labels_among(contracts, (k - 1) as nat);
        if before.contains(contracts[k - 1].label) {
            before
        } else {
            before.push(contracts[k - 1].label)
        }
    }
}

/// The addresses of those among the first `k` contracts that carry `label`.
pub open spec fn addresses_labelled(contracts: Seq<ContractView>, k: nat, label: Seq<char>) -> Seq<
    Seq<char>,
>
    decreases k,
{
    if k == 0 {
        Seq::empty()
    } else {
        let before = addresses_labelled(contracts, (k - 1) as nat, label);
        if contracts[k - 1].label == label {
            before.push(contracts[k - 1].address)
        } else {
            before
        }
    }
}

/// The addresses of the first `k` contracts.
pub open spec fn addresses_among(contracts: Seq<ContractView>, k: nat) -> Seq<Seq<char>>
    decreases k,
{
    if k == 0 {
        Seq::empty()
    } else {
        addresses_among(contracts, (k - 1) as nat).push(contracts[k - 1].address)
    }
}

/// The transactions that go through the bridge `label`.
pub open spec fn through_bridge(rules: DetectionRules, label: Seq<char>) -> Selection {
    Selection::Touching(addresses_labelled(rules.bridges, rules.bridges.len(), label))
}

/// The pattern that reports the movement through the bridge `label`.
pub open spec fn bridge_pattern(list: Seq<TransactionView>, rules: DetectionRules, label: Seq<char>) -> PatternView {
    PatternView {
        pattern_id: "bridge_"@ + label,
        pattern_type: WhalePatternType::BridgeMovement,
        confidence: BRIDGE_CONFIDENCE as nat,
        involved_addresses: senders_where(list, list.len(), through_bridge(rules, label)),
        estimated_impact: capped(volume_where(list, list.len(), through_bridge(rules, label))),
        risk_level: RiskLevel::Medium,
    }
}

/// The bridge movements among the first `m` of `labels`.
pub open spec fn bridge_among(
    list: Seq<TransactionView>,
    labels: Seq<Seq<char>>,
    m: nat,
    rules: DetectionRules,
) -> Seq<PatternView>
    decreases m,
{
    if m == 0 {
        Seq::empty()
    } else {
        let before = bridge_among(list, labels, (m - 1) as nat, rules);
        if count_where(list, list.len(), through_bridge(rules, labels[m - 1])) >= BRIDGE_MIN_GROUP {
            before.push(bridge_pattern(list, rules, labels[m - 1]))
        } else {
            before
        }
    }
}

/// The bridge movements of a batch: one for each known bridge that two or
/// more transactions go through, in the order in which the bridges are
/// configured.
pub open spec fn bridge_movements(list: Seq<TransactionView>, rules: DetectionRules) -> Seq<
    PatternView,
> {
    let labels = labels_among(rules.bridges, rules.bridges.len());
    bridge_among(list, labels, labels.len(), rules)
}

/// The transactions that involve a known protocol.
pub open spec fn with_protocols(rules: DetectionRules) -> Selection {
    Selection::Touching(addresses_among(rules.protocols, rules.protocols.len()))
}

/// The DeFi pattern of a batch: one for all the transactions that involve a
/// known protocol, where there is any.
pub open spec fn defi_whales(list: Seq<TransactionView>, rules: DetectionRules) -> Seq<PatternView> {
    if count_where(list, list.len(), with_protocols(rules)) >= 1 {
        seq![
            PatternView {
                pattern_id: "defi_whale"@,
                pattern_type: WhalePatternType::DefiWhale,
                confidence: DEFI_CONFIDENCE as nat,
                involved_addresses: senders_where(list, list.len(), with_protocols(rules)),
                estimated_impact: capped(volume_where(list, list.len(), with_protocols(rules))),
                risk_level: RiskLevel::Low,
            },
        ]
    } else {
        Seq::empty()
    }
}

/// All the patterns of a batch: the coordinated movements, then the wash
/// trades, the bridge movements and the DeFi pattern.
pub open spec fn patterns_of(list: Seq<TransactionView>, rules: DetectionRules) -> Seq<PatternView> {
    coordinated_movements(list, rules) + wash_trades(list, rules) + bridge_movements(list, rules)
        + defi_whales(list, rules)
}

/// The numbers held by a list of hours.
pub open spec fn hour_values(list: Seq<i64>) -> Seq<int> {
    Seq::new(list.len(), |i: int| list[i] as int)
}

fn append_patterns(all: &mut Vec<WhalePattern>, more: Vec<WhalePattern>)
    ensures
        pattern_views(final(all)@) == pattern_views(old(all)@) + pattern_views(more@),
{
    let mut more = more;
    let ghost first = all@;
    let ghost second = more@;
    all.append(&mut more);
    assert(pattern_views(all@) =~= pattern_views(first) + pattern_views(second));
}

/// Watches whales: scans the configured sources and looks for patterns in
/// what they deliver.
pub struct AdvancedWhaleTracker {
    config: WhaleTrackerConfig,
    scanner: MultiChainScanner,
}

impl AdvancedWhaleTracker {
    /// The configuration the tracker was made with.
    pub closed spec fn settings(&self) -> WhaleTrackerConfig {
        self.config
    }

    /// The scanner the tracker collects with.
    pub closed spec fn collector(&self) -> MultiChainScanner {
        self.scanner
    }

    /// A tracker that follows `config` and scans `networks`, each of them
    /// under the limit and the window that `config` sets. A configuration
    /// that is not acceptable is refused.
    pub fn new(config: WhaleTrackerConfig, networks: Vec<NetworkConfig>) -> (made: Result<
        AdvancedWhaleTracker,
        ZKWatchError,
    >)
        ensures
            made is Ok <==> config.acceptable(),
            made matches Err(e) ==> e is ConfigurationInvalid,
            made matches Ok(tracker) ==> {
                &&& tracker.settings() == config
                &&& tracker.collector().wf()
                &&& tracker.collector().sources() == networks@
                &&& forall|i: int|
                    0 <= i < networks.len() ==> {
                        &&& (#[trigger] tracker.collector().limiters()[i]).limit()
                            == config.max_requests_per_window
                        &&& tracker.collector().limiters()[i].window_len()
                            == config.window_duration
                        &&& tracker.collector().limiters()[i].recorded() == Seq::<u64>::empty()
                    }
            },
    {
        match config.validate() {
            Ok(()) => {},
            Err(e) => {
                return Err(e);
            },
        }
        match MultiChainScanner::with_limits(
            networks,
            config.max_requests_per_window,
            config.window_duration,
        ) {
            Ok(scanner) => Ok(AdvancedWhaleTracker { config, scanner }),
            Err(e) => Err(e),
        }
    }

    /// The configuration.
    pub fn config(&self) -> (config: &WhaleTrackerConfig)
        ensures
            *config == self.settings(),
    {
        &self.config
    }

    /// The scanner.
    pub fn scanner(&self) -> (scanner: &MultiChainScanner)
        ensures
            *scanner == self.collector(),
    {
        &self.scanner
    }

    /// Asks the scanner to decide a request to source `source` made at
    /// `now`, as [`MultiChainScanner::reserve`] does.
    pub fn reserve(&mut self, source: usize, now: u64) -> (decision: Result<u64, ZKWatchError>)
        requires
            old(self).collector().wf(),
        ensures
            final(self).settings() == old(self).settings(),
            final(self).collector().wf(),
            final(self).collector().sources() == old(self).collector().sources(),
            final(self).collector().limiters().len() == old(self).collector().limiters().len(),
            forall|i: int|
                0 <= i < old(self).collector().limiters().len() && i != source ==> final(self)
                    .collector().limiters()[i] == old(self).collector().limiters()[i],
            source >= old(self).collector().limiters().len() ==> (decision matches Err(e)
                && e is ConfigurationInvalid),
            source < old(self).collector().limiters().len() ==> {
                let before = old(self).collector().limiters()[source as int];
                let after = final(self).collector().limiters()[source as int];
                let at = admission_instant(
                    before.recorded(),
                    before.limit(),
                    before.window_len(),
                    now as int,
                );
                &&& after.limit() == before.limit()
                &&& after.window_len() == before.window_len()
                &&& decision is Ok <==> at <= u64::MAX
                &&& (decision matches Ok(delay) ==> delay == at - now && after.recorded()
                    == record_after(before.recorded(), before.window_len(), at as u64))
                &&& (decision matches Err(e) ==> e is RateLimiterClockFailure && after.recorded()
                    == before.recorded())
            },
    {
        self.scanner.reserve(source, now)
    }

    /// Finds the hours in which many transactions together move a large
    /// volume.
    pub fn detect_coordinated_movements(&self, whales: &Vec<WhaleTransaction>) -> (found: Vec<
        WhalePattern,
    >)
        ensures
            pattern_views(found@) == coordinated_movements(
                batch_view(whales@),
                rules_of(self.settings()),
            ),
    {
        let n = whales.len();
        let ghost list = batch_view(whales@);
        let ghost rules = rules_of(self.settings());
        let mut hours: Vec<i64> = Vec::new();
        let mut k: usize = 0;
        while k < n
            invariant
                n == whales.len(),
                list == batch_view(whales@),
                k <= n,
                hour_values(hours@) == hours_among(list, k as nat),
                hours_ascend(hour_values(hours@)),
            decreases n - k,
        {
            let hour = hour_of(whales[k].timestamp);
            assert(list[k as int] == whales[k as int]@);
            let len = hours.len();
            let mut p: usize = 0;
            while p < len && hours[p] < hour
                invariant
                    len == hours.len(),
                    p <= len,
                    forall|i: int| 0 <= i < p ==> hour_values(hours@)[i] < hour,
                decreases len - p,
            {
                assert(hour_values(hours@)[p as int] == hours[p as int]);
                p = p + 1;
            }
            let ghost before = hour_values(hours@);
            if p < len && hours[p] == hour {
                assert(before[p as int] == hour);
                assert(before.contains(hour as int));
            } else {
                proof {
                    if p < len {
                        assert(before[p as int] == hours[p as int]);
                    }
                    lemma_hour_slot_is(before, hour as int, p as int);
                    assert forall|i: int| 0 <= i < before.len() implies before[i] != hour by {
                        if i > p {
                            assert(before[p as int] < before[i]);
                        }
                    }
                    lemma_hours_ascend(list, (k + 1) as nat);
                }
                hours.insert(p, hour);
                assert(hour_values(hours@) =~= before.insert(p as int, hour as int));
            }
            k = k + 1;
        }
        let count = hours.len();
        let mut found: Vec<WhalePattern> = Vec::new();
        let mut m: usize = 0;
        while m < count
            invariant
                count == hours.len(),
                m <= count,
                list == batch_view(whales@),
                list.len() == whales.len(),
                rules == rules_of(self.settings()),
                pattern_views(found@) == coordinated_among(
                    list,
                    hour_values(hours@),
                    m as nat,
                    rules,
                ),
            decreases count - m,
        {
            let hour = hours[m];
            assert(hour_values(hours@)[m as int] == hour);
            let group = summarize(whales, &Selector::Hour(hour));
            proof {
                let chosen = Selection::Hour(hour as int);
                assert(Selector::Hour(hour)@ == chosen);
                assert(group.count == count_where(list, list.len(), chosen));
                assert(group.volume == capped(volume_where(list, list.len(), chosen)));
                assert(is_coordinated(list, hour as int, rules) == (group.count
                    >= self.config.coordinated_min_group_size && (group.overflowed || group.volume
                    > self.config.large_volume_threshold)));
            }
            if group.count >= self.config.coordinated_min_group_size && (group.overflowed
                || group.volume > self.config.large_volume_threshold) {
                let mut pattern_id = "coordinated_".to_owned();
                push_decimal(&mut pattern_id, (hour as i128) * 3_600);
                let pattern = WhalePattern {
                    pattern_id,
                    pattern_type: WhalePatternType::CoordinatedMovement,
                    confidence: COORDINATED_CONFIDENCE,
                    involved_addresses: group.senders,
                    estimated_impact: group.volume,
                    risk_level: RiskLevel::High,
                };
                let ghost before = pattern_views(found@);
                assert(pattern@ == coordinated_pattern(list, hour as int));
                found.push(pattern);
                assert(pattern_views(found@) =~= before.push(coordinated_pattern(list, hour as int)));
            }
            m = m + 1;
        }
        found
    }

    /// Finds the addresses that trade with a single counterparty.
    pub fn detect_wash_trading_patterns(&self, whales: &Vec<WhaleTransaction>) -> (found: Vec<
        WhalePattern,
    >)
        ensures
            pattern_views(found@) == wash_trades(batch_view(whales@), rules_of(self.settings())),
    {
        let ghost list = batch_view(whales@);
        let ghost rules = rules_of(self.settings());
        let everyone = summarize(whales, &Selector::Every);
        let senders = everyone.senders;
        let count = senders.len();
        let mut found: Vec<WhalePattern> = Vec::new();
        let mut m: usize = 0;
        while m < count
            invariant
                count == senders.len(),
                m <= count,
                list == batch_view(whales@),
                list.len() == whales.len(),
                rules == rules_of(self.settings()),
                pattern_views(found@) == wash_among(list, texts(senders@), m as nat, rules),
            decreases count - m,
        {
            let sender = senders[m].clone();
            assert(texts(senders@)[m as int] == sender@);
            let selector = Selector::Sender(sender);
            let sent = summarize(whales, &selector);
            if sent.receivers.len() == 1 {
                assert(texts(sent.receivers@)[0] == sent.receivers[0]@);
                if sent.receivers[0] != senders[m] {
                    let partner = sent.receivers[0].clone();
                    let mut pattern_id = "wash_trade_".to_owned();
                    pattern_id.append(senders[m].as_str());
                    pattern_id.append("_");
                    pattern_id.append(partner.as_str());
                    let mut involved_addresses: Vec<String> = Vec::new();
                    involved_addresses.push(senders[m].clone());
                    involved_addresses.push(partner);
                    let pattern = WhalePattern {
                        pattern_id,
                        pattern_type: WhalePatternType::WashTrading,
                        confidence: self.config.wash_trade_confidence,
                        involved_addresses,
                        estimated_impact: 0,
                        risk_level: RiskLevel::Medium,
                    };
                    let ghost before = pattern_views(found@);
                    let ghost expected = wash_pattern(list, senders[m as int]@, rules);
                    assert(pattern@.involved_addresses =~= expected.involved_addresses);
                    assert(pattern@ == expected);
                    found.push(pattern);
                    assert(pattern_views(found@) =~= before.push(expected));
                }
            }
            m = m + 1;
        }
        found
    }

    /// Finds the known bridges that two or more transactions go through.
    pub fn detect_bridge_whales(&self, whales: &Vec<WhaleTransaction>) -> (found: Vec<WhalePattern>)
        ensures
            pattern_views(found@) == bridge_movements(
                batch_view(whales@),
                rules_of(self.settings()),
            ),
    {
        let ghost list = batch_view(whales@);
        let ghost rules = rules_of(self.settings());
        let bridges = &self.config.bridge_contracts;
        let total = bridges.len();
        let mut labels: Vec<String> = Vec::new();
        let mut k: usize = 0;
        while k < total
            invariant
                total == bridges.len(),
                k <= total,
                rules == rules_of(self.settings()),
                bridges@ == self.settings().bridge_contracts@,
                texts(labels@) == labels_among(rules.bridges, k as nat),
            decreases total - k,
        {
            assert(rules.bridges[k as int] == bridges[k as int]@);
            if !holds_text(&labels, &bridges[k].label) {
                let ghost before = texts(labels@);
                labels.push(bridges[k].label.clone());
                assert(texts(labels@) =~= before.push(bridges[k as int].label@));
            }
            k = k + 1;
        }
        let count = labels.len();
        let mut found: Vec<WhalePattern> = Vec::new();
        let mut m: usize = 0;
        while m < count
            invariant
                count == labels.len(),
                total == bridges.len(),
                m <= count,
                list == batch_view(whales@),
                list.len() == whales.len(),
                rules == rules_of(self.settings()),
                bridges@ == self.settings().bridge_contracts@,
                pattern_views(found@) == bridge_among(list, texts(labels@), m as nat, rules),
            decreases count - m,
        {
            let ghost label = labels[m as int]@;
            assert(texts(labels@)[m as int] == label);
            let mut addresses: Vec<String> = Vec::new();
            let mut j: usize = 0;
            while j < total
                invariant
                    total == bridges.len(),
                    j <= total,
                    m < labels.len(),
                    label == labels[m as int]@,
                    rules == rules_of(self.settings()),
                    bridges@ == self.settings().bridge_contracts@,
                    texts(addresses@) == addresses_labelled(rules.bridges, j as nat, label),
                decreases total - j,
            {
                assert(rules.bridges[j as int] == bridges[j as int]@);
                if bridges[j].label == labels[m] {
                    let ghost before = texts(addresses@);
                    addresses.push(bridges[j].address.clone());
                    assert(texts(addresses@) =~= before.push(bridges[j as int].address@));
                }
                j = j + 1;
            }
            let selector = Selector::Touching(addresses);
            assert(selector@ == through_bridge(rules, label));
            let group = summarize(whales, &selector);
            if group.count >= BRIDGE_MIN_GROUP {
                let mut pattern_id = "bridge_".to_owned();
                pattern_id.append(labels[m].as_str());
                let pattern = WhalePattern {
                    pattern_id,
                    pattern_type: WhalePatternType::BridgeMovement,
                    confidence: BRIDGE_CONFIDENCE,
                    involved_addresses: group.senders,
                    estimated_impact: group.volume,
                    risk_level: RiskLevel::Medium,
                };
                let ghost before = pattern_views(found@);
                let ghost expected = bridge_pattern(list, rules, label);
                assert(pattern@ == expected);
                found.push(pattern);
                assert(pattern_views(found@) =~= before.push(expected));
            }
            m = m + 1;
        }
        found
    }

    /// Finds the transactions that involve a known protocol.
    pub fn detect_defi_whales(&self, whales: &Vec<WhaleTransaction>) -> (found: Vec<WhalePattern>)
        ensures
            pattern_views(found@) == defi_whales(batch_view(whales@), rules_of(self.settings())),
    {
        let ghost list = batch_view(whales@);
        let ghost rules = rules_of(self.settings());
        let protocols = &self.config.defi_protocols;
        let total = protocols.len();
        let mut addresses: Vec<String> = Vec::new();
        let mut j: usize = 0;
        while j < total
            invariant
                total == protocols.len(),
                j <= total,
                rules == rules_of(self.settings()),
                protocols@ == self.settings().defi_protocols@,
                texts(addresses@) == addresses_among(rules.protocols, j as nat),
            decreases total - j,
        {
            assert(rules.protocols[j as int] == protocols[j as int]@);
            let ghost before = texts(addresses@);
            addresses.push(protocols[j].address.clone());
            assert(texts(addresses@) =~= before.push(protocols[j as int].address@));
            j = j + 1;
        }
        let selector = Selector::Touching(addresses);
        assert(selector@ == with_protocols(rules));
        let group = summarize(whales, &selector);
        let mut found: Vec<WhalePattern> = Vec::new();
        if group.count >= 1 {
            let pattern = WhalePattern {
                pattern_id: "defi_whale".to_owned(),
                pattern_type: WhalePatternType::DefiWhale,
                confidence: DEFI_CONFIDENCE,
                involved_addresses: group.senders,
                estimated_impact: group.volume,
                risk_level: RiskLevel::Low,
            };
            found.push(pattern);
            assert(pattern_views(found@) =~= defi_whales(list, rules));
        } else {
            assert(pattern_views(found@) =~= defi_whales(list, rules));
        }
        found
    }

    /// Runs the four detectors over a batch and puts what they find end to
    /// end: coordinated movements, wash trades, bridge movements, DeFi.
    pub fn detect_sophisticated_patterns(&self, whales: &Vec<WhaleTransaction>) -> (found: Vec<
        WhalePattern,
    >)
        ensures
            pattern_views(found@) == patterns_of(batch_view(whales@), rules_of(self.settings())),
    {
        let mut found = self.detect_coordinated_movements(whales);
        let wash = self.detect_wash_trading_patterns(whales);
        append_patterns(&mut found, wash);
        let bridge = self.detect_bridge_whales(whales);
        append_patterns(&mut found, bridge);
        let defi = self.detect_defi_whales(whales);
        append_patterns(&mut found, defi);
        found
    }
}

/// Detection is repeatable: what the detectors find depends on the content
/// of the batch and on the configuration alone, so two runs over batches of
/// one content, under one configuration, find patterns of one content.
pub proof fn lemma_detection_repeatable(
    tracker: AdvancedWhaleTracker,
    first_batch: Seq<WhaleTransaction>,
    second_batch: Seq<WhaleTransaction>,
    first: Seq<WhalePattern>,
    second: Seq<WhalePattern>,
)
    requires
        batch_view(first_batch) == batch_view(second_batch),
        pattern_views(first) == patterns_of(batch_view(first_batch), rules_of(tracker.settings())),
        pattern_views(second) == patterns_of(
            batch_view(second_batch),
            rules_of(tracker.settings()),
        ),
    ensures
        pattern_views(first) == pattern_views(second),
{
}

/// A handle on a running monitor.
#[derive(Debug)]
pub struct MonitoringHandle {
    stopped: bool,
}

impl MonitoringHandle {
    /// Whether the monitor was told to stop.
    pub closed spec fn is_stopped(&self) -> bool {
        self.stopped
    }

    /// The handle of a monitor that runs.
    pub fn new() -> (handle: MonitoringHandle)
        ensures
            !handle.is_stopped(),
    {
        MonitoringHandle { stopped: false }
    }

    /// Tells the monitor to stop.
    pub fn stop(&mut self)
        ensures
            final(self).is_stopped(),
    {
        self.stopped = true;
    }

    /// Whether the monitor was told to stop.
    pub fn stopped(&self) -> (stopped: bool)
        ensures
            stopped == self.is_stopped(),
    {
        self.stopped
    }
}

} // verus!
