//! Token and cost totals, and totals of usage over time.
use crate::code_types::sat_add;
use crate::records::{CostInfo, UsageCounts, UsageEvent, UsageSummary, or_zero};
use crate::sorted::{Ranked, ranked, ranking_puts_records_in_order, sort_ranked};
use crate::time::Timestamp;
use vstd::prelude::*;

verus! {

// ---------------------------------------------------------------------------
// Cost
// ---------------------------------------------------------------------------

/// Millionths of a dollar in a cent.
pub const MICRO_USD_PER_CENT: i64 = 10_000;

/// The number, held at the largest and smallest that a signed counter can show.
pub open spec fn sat_i64(n: int) -> i64 {
    if n > i64::MAX {
        i64::MAX
    } else if n < i64::MIN {
        i64::MIN
    } else {
        n as i64
    }
}

pub fn saturate(n: i128) -> (r: i64)
    ensures
        r == sat_i64(n as int),
{
    if n > i64::MAX as i128 {
        i64::MAX
    } else if n < i64::MIN as i128 {
        i64::MIN
    } else {
        n as i64
    }
}

/// Cents as millionths of a dollar.
pub open spec fn micro_of_cents(cents: i64) -> i64 {
    sat_i64(cents * MICRO_USD_PER_CENT)
}

/// Millionths of a dollar as cents, to the nearest; half a cent goes away from
/// zero.
pub open spec fn rounded_cents(micro: i64) -> i64 {
    if micro >= 0 {
        ((micro + 5_000) / 10_000) as i64
    } else {
        (-((-micro + 5_000) / 10_000)) as i64
    }
}

pub fn micro_usd_to_cents_rounded(micro: i64) -> (r: i64)
    ensures
        r == rounded_cents(micro),
        -922_337_203_685_478 <= r <= 922_337_203_685_478,
{
    let m: i128 = micro as i128;
    if m >= 0 {
        ((m + 5_000) / 10_000) as i64
    } else {
        -(((-m + 5_000) / 10_000) as i64)
    }
}

pub open spec fn opt_sum(a: Option<i64>, b: Option<i64>) -> Option<i64> {
    match (a, b) {
        (Some(x), Some(y)) => Some(sat_i64(x + y)),
        (Some(x), None) => Some(x),
        (None, y) => y,
    }
}

/// An amount given in millionths, else in cents.
pub open spec fn amount(micro: Option<i64>, cents: Option<i64>) -> Option<i64> {
    match micro {
        Some(m) => Some(m),
        None => match cents {
            Some(c) => Some(micro_of_cents(c)),
            None => None,
        },
    }
}

impl CostInfo {
    pub open spec fn estimated_spec(self) -> Option<i64> {
        amount(None, self.estimated_api_equivalent_usd)
    }

    /// What the provider reports, else what is estimated.
    pub open spec fn effective_spec(self) -> Option<i64> {
        match self.provider_reported_usd {
            Some(c) => Some(micro_of_cents(c)),
            None => self.estimated_spec(),
        }
    }

    /// The estimate in millionths of a dollar.
    pub fn estimated_micro_usd(&self) -> (r: Option<i64>)
        ensures
            r == self.estimated_spec(),
    {
        match self.estimated_api_equivalent_usd {
            Some(c) => Some(saturate(c as i128 * 10_000)),
            None => None,
        }
    }
}

/// A sum of costs; nothing where no cost is known.
#[derive(Debug, Clone, Copy, PartialEq, Eq, Structural)]
pub struct CostAccumulator {
    pub total: Option<i64>,
}

impl Default for CostAccumulator {
    fn default() -> (r: Self)
        ensures
            r.total is None,
    {
        CostAccumulator { total: None }
    }
}

impl CostAccumulator {
    fn add_amount(&mut self, value: Option<i64>)
        ensures
            final(self).total == opt_sum(old(self).total, value),
    {
        self.total =
        match (self.total, value) {
            (Some(x), Some(y)) => Some(saturate(x as i128 + y as i128)),
            (Some(x), None) => Some(x),
            (None, y) => y,
        };
    }

    /// Adds an amount given in millionths, else in cents.
    pub fn add_values(&mut self, micro: Option<i64>, cents: Option<i64>)
        ensures
            final(self).total == opt_sum(old(self).total, amount(micro, cents)),
    {
        let value: Option<i64> = match micro {
            Some(m) => Some(m),
            None => match cents {
                Some(c) => Some(saturate(c as i128 * 10_000)),
                None => None,
            },
        };
        self.add_amount(value);
    }

    pub fn add_estimated(&mut self, cost: &CostInfo)
        ensures
            final(self).total == opt_sum(old(self).total, cost.estimated_spec()),
    {
        self.add_amount(cost.estimated_micro_usd());
    }

    pub fn add_effective(&mut self, cost: &CostInfo)
        ensures
            final(self).total == opt_sum(old(self).total, cost.effective_spec()),
    {
        let value: Option<i64> = match cost.provider_reported_usd {
            Some(c) => Some(saturate(c as i128 * 10_000)),
            None => cost.estimated_micro_usd(),
        };
        self.add_amount(value);
    }

    pub fn micro_usd(&self) -> (r: Option<i64>)
        ensures
            r == self.total,
    {
        self.total
    }

    pub fn cents_rounded(&self) -> (r: Option<i64>)
        ensures
            r == opt_cents(self.total),
    {
        match self.total {
            Some(m) => Some(micro_usd_to_cents_rounded(m)),
            None => None,
        }
    }
}

pub open spec fn opt_cents(micro: Option<i64>) -> Option<i64> {
    match micro {
        Some(m) => Some(rounded_cents(m)),
        None => None,
    }
}

// ---------------------------------------------------------------------------
// Totals
// ---------------------------------------------------------------------------

#[derive(Debug, Clone, Copy, PartialEq, Eq, Structural)]
pub struct UsageTotals {
    pub input_tokens: u64,
    pub cache_creation_tokens: u64,
    pub cached_input_tokens: u64,
    pub output_tokens: u64,
    pub reasoning_tokens: u64,
    pub total_tokens: u64,
    /// In cents of a dollar.
    pub estimated_cost_usd: Option<i64>,
    /// In millionths of a dollar.
    pub estimated_cost_micro_usd: Option<i64>,
}

impl Default for UsageTotals {
    fn default() -> (r: Self)
        ensures
            r == UsageTotals::zero(),
    {
        UsageTotals {
            input_tokens: 0,
            cache_creation_tokens: 0,
            cached_input_tokens: 0,
            output_tokens: 0,
            reasoning_tokens: 0,
            total_tokens: 0,
            estimated_cost_usd: None,
            estimated_cost_micro_usd: None,
        }
    }
}

impl UsageTotals {
    pub open spec fn zero() -> UsageTotals {
        UsageTotals {
            input_tokens: 0,
            cache_creation_tokens: 0,
            cached_input_tokens: 0,
            output_tokens: 0,
            reasoning_tokens: 0,
            total_tokens: 0,
            estimated_cost_usd: None,
            estimated_cost_micro_usd: None,
        }
    }

    /// Whether the cost in cents is the cost in millionths, rounded.
    pub open spec fn cost_wf(self) -> bool {
        self.estimated_cost_usd == opt_cents(self.estimated_cost_micro_usd)
    }

    /// The cost so far, in millionths of a dollar.
    pub open spec fn cost_so_far(self) -> Option<i64> {
        amount(self.estimated_cost_micro_usd, self.estimated_cost_usd)
    }

    /// The totals with one more record's counts and cost.
    pub open spec fn plus_usage(self, usage: UsageCounts, cost: Option<i64>) -> UsageTotals {
        let micro = opt_sum(opt_sum(None, self.cost_so_far()), cost);
        UsageTotals {
            input_tokens: sat_add(self.input_tokens, or_zero(usage.input_tokens)),
            cache_creation_tokens: sat_add(
                self.cache_creation_tokens,
                or_zero(usage.cache_creation_tokens),
            ),
            cached_input_tokens: sat_add(self.cached_input_tokens, or_zero(usage.cache_read_tokens)),
            output_tokens: sat_add(self.output_tokens, or_zero(usage.output_tokens)),
            reasoning_tokens: sat_add(self.reasoning_tokens, or_zero(usage.reasoning_tokens)),
            total_tokens: sat_add(self.total_tokens, usage.computed_total_spec()),
            estimated_cost_usd: opt_cents(micro),
            estimated_cost_micro_usd: micro,
        }
    }

    pub open spec fn plus_event(self, e: UsageEvent) -> UsageTotals {
        self.plus_usage(e.usage, e.cost.estimated_spec())
    }

    pub open spec fn plus_summary(self, s: UsageSummary) -> UsageTotals {
        self.plus_usage(s.usage, s.cost.effective_spec())
    }

    pub open spec fn plus_totals(self, o: UsageTotals) -> UsageTotals {
        let micro = opt_sum(opt_sum(None, self.cost_so_far()), o.cost_so_far());
        UsageTotals {
            input_tokens: sat_add(self.input_tokens, o.input_tokens),
            cache_creation_tokens: sat_add(self.cache_creation_tokens, o.cache_creation_tokens),
            cached_input_tokens: sat_add(self.cached_input_tokens, o.cached_input_tokens),
            output_tokens: sat_add(self.output_tokens, o.output_tokens),
            reasoning_tokens: sat_add(self.reasoning_tokens, o.reasoning_tokens),
            total_tokens: sat_add(self.total_tokens, o.total_tokens),
            estimated_cost_usd: opt_cents(micro),
            estimated_cost_micro_usd: micro,
        }
    }

    fn cost_accumulator(&self) -> (r: CostAccumulator)
        ensures
            r.total == opt_sum(None, self.cost_so_far()),
    {
        let mut accumulator = CostAccumulator::default();
        accumulator.add_values(self.estimated_cost_micro_usd, self.estimated_cost_usd);
        accumulator
    }

    fn set_cost_from_accumulator(&mut self, accumulator: CostAccumulator)
        ensures
            *final(self) == (UsageTotals {
                estimated_cost_micro_usd: accumulator.total,
                estimated_cost_usd: opt_cents(accumulator.total),
                ..*old(self)
            }),
    {
        self.estimated_cost_micro_usd = accumulator.micro_usd();
        self.estimated_cost_usd = accumulator.cents_rounded();
    }

    fn add_counts(&mut self, usage: &UsageCounts)
        ensures
            *final(self) == (UsageTotals {
                estimated_cost_micro_usd: old(self).estimated_cost_micro_usd,
                estimated_cost_usd: old(self).estimated_cost_usd,
                ..old(self).plus_usage(*usage, None)
            }),
    {
        self.input_tokens = self.input_tokens.saturating_add(usage.input_tokens.unwrap_or(0));
        self.cache_creation_tokens =
        self.cache_creation_tokens.saturating_add(usage.cache_creation_tokens.unwrap_or(0));
        self.cached_input_tokens =
        self.cached_input_tokens.saturating_add(usage.cache_read_tokens.unwrap_or(0));
        self.output_tokens = self.output_tokens.saturating_add(usage.output_tokens.unwrap_or(0));
        self.reasoning_tokens =
        self.reasoning_tokens.saturating_add(usage.reasoning_tokens.unwrap_or(0));
        self.total_tokens = self.total_tokens.saturating_add(usage.computed_total());
    }

    pub fn add_event(&mut self, event: &UsageEvent)
        ensures
            *final(self) == old(self).plus_event(*event),
    {
        let mut cost = self.cost_accumulator();
        self.add_counts(&event.usage);
        cost.add_estimated(&event.cost);
        self.set_cost_from_accumulator(cost);
    }

    pub fn add_summary(&mut self, summary: &UsageSummary)
        ensures
            *final(self) == old(self).plus_summary(*summary),
    {
        let mut cost = self.cost_accumulator();
        self.add_counts(&summary.usage);
        cost.add_effective(&summary.cost);
        self.set_cost_from_accumulator(cost);
    }

    pub fn add_totals(&mut self, other: &UsageTotals)
        ensures
            *final(self) == old(self).plus_totals(*other),
    {
        let mut cost = self.cost_accumulator();
        self.input_tokens = self.input_tokens.saturating_add(other.input_tokens);
        self.cache_creation_tokens =
        self.cache_creation_tokens.saturating_add(other.cache_creation_tokens);
        self.cached_input_tokens =
        self.cached_input_tokens.saturating_add(other.cached_input_tokens);
        self.output_tokens = self.output_tokens.saturating_add(other.output_tokens);
        self.reasoning_tokens = self.reasoning_tokens.saturating_add(other.reasoning_tokens);
        self.total_tokens = self.total_tokens.saturating_add(other.total_tokens);
        cost.add_values(other.estimated_cost_micro_usd, other.estimated_cost_usd);
        self.set_cost_from_accumulator(cost);
    }
}

/// Whether the six counts of tokens are the same.
pub open spec fn same_counts(a: UsageTotals, b: UsageTotals) -> bool {
    &&& a.input_tokens == b.input_tokens
    &&& a.cache_creation_tokens == b.cache_creation_tokens
    &&& a.cached_input_tokens == b.cached_input_tokens
    &&& a.output_tokens == b.output_tokens
    &&& a.reasoning_tokens == b.reasoning_tokens
    &&& a.total_tokens == b.total_tokens
}

/// Adding totals does not depend on order, and the counts of tokens not on
/// grouping either.
pub proof fn totals_add_in_any_order(a: UsageTotals, b: UsageTotals, c: UsageTotals)
    ensures
        a.plus_totals(b) == b.plus_totals(a),
        same_counts(a.plus_totals(b).plus_totals(c), a.plus_totals(b.plus_totals(c))),
        same_counts(a.plus_totals(UsageTotals::zero()), a),
{
}

// ---------------------------------------------------------------------------
// Usage over time
// ---------------------------------------------------------------------------

/// What totals over time need of an event.
#[derive(Debug, Clone, Copy, PartialEq, Eq, Structural)]
pub struct EventSample {
    pub at: Timestamp,
    pub usage: UsageCounts,
    /// In millionths of a dollar.
    pub cost: Option<i64>,
}

impl EventSample {
    pub open spec fn of_spec(e: UsageEvent) -> EventSample {
        EventSample { at: e.session.started_at, usage: e.usage, cost: e.cost.estimated_spec() }
    }

    pub fn of(e: &UsageEvent) -> (r: EventSample)
        ensures
            r == EventSample::of_spec(*e),
    {
        EventSample {
            at: e.session.started_at,
            usage: e.usage,
            cost: e.cost.estimated_micro_usd(),
        }
    }
}

impl Ranked for EventSample {
    open spec fn goes_before(&self, other: &Self) -> bool {
        self.at.at() < other.at.at()
    }

    fn ranks_before(&self, other: &Self) -> (r: bool) {
        self.at.before(&other.at)
    }

    proof fn lemma_rank(&self, b: &Self, c: &Self) {
    }
}

/// The totals of the first events of a series.
#[derive(Debug, Clone, Copy, PartialEq, Eq, Structural)]
pub struct UsagePrefix {
    pub usage: UsageTotals,
    pub events: u64,
    pub estimated_cost_samples: u64,
}

impl UsagePrefix {
    pub open spec fn empty() -> UsagePrefix {
        UsagePrefix { usage: UsageTotals::zero(), events: 0, estimated_cost_samples: 0 }
    }

    pub open spec fn plus(self, s: EventSample) -> UsagePrefix {
        UsagePrefix {
            usage: self.usage.plus_usage(s.usage, s.cost),
            events: (self.events + 1) as u64,
            estimated_cost_samples: (self.estimated_cost_samples + if s.cost is Some {
                1int
            } else {
                0int
            }) as u64,
        }
    }

    /// The cost of the events between, in millionths of a dollar.
    pub open spec fn cost_between(self, earlier: UsagePrefix) -> Option<i64> {
        if self.estimated_cost_samples <= earlier.estimated_cost_samples {
            None
        } else {
            let before = if earlier.estimated_cost_samples == 0 {
                Some(0i64)
            } else {
                earlier.usage.estimated_cost_micro_usd
            };
            match (self.usage.estimated_cost_micro_usd, before) {
                (Some(a), Some(b)) => Some(sat_i64(a - b)),
                _ => None,
            }
        }
    }

    /// How many events lie between, and their totals.
    pub open spec fn difference_spec(self, earlier: UsagePrefix) -> (u64, UsageTotals) {
        let micro = self.cost_between(earlier);
        (
            sat_sub(self.events, earlier.events),
            UsageTotals {
                input_tokens: sat_sub(self.usage.input_tokens, earlier.usage.input_tokens),
                cache_creation_tokens: sat_sub(
                    self.usage.cache_creation_tokens,
                    earlier.usage.cache_creation_tokens,
                ),
                cached_input_tokens: sat_sub(
                    self.usage.cached_input_tokens,
                    earlier.usage.cached_input_tokens,
                ),
                output_tokens: sat_sub(self.usage.output_tokens, earlier.usage.output_tokens),
                reasoning_tokens: sat_sub(
                    self.usage.reasoning_tokens,
                    earlier.usage.reasoning_tokens,
                ),
                total_tokens: sat_sub(self.usage.total_tokens, earlier.usage.total_tokens),
                estimated_cost_usd: if self.estimated_cost_samples
                    <= earlier.estimated_cost_samples {
                    None
                } else {
                    match micro {
                        Some(m) => Some(rounded_cents(m)),
                        None => Some(
                            sat_i64(
                                cents_or_zero(self.usage.estimated_cost_usd) - cents_or_zero(
                                    earlier.usage.estimated_cost_usd,
                                ),
                            ),
                        ),
                    }
                },
                estimated_cost_micro_usd: micro,
            },
        )
    }

    fn add_sample(&mut self, s: &EventSample)
        requires
            old(self).events < u64::MAX,
            old(self).estimated_cost_samples < u64::MAX,
        ensures
            *final(self) == old(self).plus(*s),
    {
        let mut cost = self.usage.cost_accumulator();
        self.usage.add_counts(&s.usage);
        cost.add_amount(s.cost);
        self.usage.set_cost_from_accumulator(cost);
        self.events = self.events + 1;
        if s.cost.is_some() {
            self.estimated_cost_samples = self.estimated_cost_samples + 1;
        }
    }

    pub fn difference(&self, earlier: &Self) -> (r: (u64, UsageTotals))
        ensures
            r == self.difference_spec(*earlier),
    {
        let samples: u64 = self.estimated_cost_samples.saturating_sub(
            earlier.estimated_cost_samples,
        );
        let micro: Option<i64> = if samples == 0 {
            None
        } else {
            let before: Option<i64> = if earlier.estimated_cost_samples == 0 {
                Some(0)
            } else {
                earlier.usage.estimated_cost_micro_usd
            };
            match (self.usage.estimated_cost_micro_usd, before) {
                (Some(a), Some(b)) => Some(saturate(a as i128 - b as i128)),
                _ => None,
            }
        };
        let cents: Option<i64> = if samples == 0 {
            None
        } else {
            match micro {
                Some(m) => Some(micro_usd_to_cents_rounded(m)),
                None => Some(
                    saturate(
                        self.usage.estimated_cost_usd.unwrap_or(0) as i128
                            - earlier.usage.estimated_cost_usd.unwrap_or(0) as i128,
                    ),
                ),
            }
        };
        (
            self.events.saturating_sub(earlier.events),
            UsageTotals {
                input_tokens: self.usage.input_tokens.saturating_sub(earlier.usage.input_tokens),
                cache_creation_tokens: self.usage.cache_creation_tokens.saturating_sub(
                    earlier.usage.cache_creation_tokens,
                ),
                cached_input_tokens: self.usage.cached_input_tokens.saturating_sub(
                    earlier.usage.cached_input_tokens,
                ),
                output_tokens: self.usage.output_tokens.saturating_sub(
                    earlier.usage.output_tokens,
                ),
                reasoning_tokens: self.usage.reasoning_tokens.saturating_sub(
                    earlier.usage.reasoning_tokens,
                ),
                total_tokens: self.usage.total_tokens.saturating_sub(earlier.usage.total_tokens),
                estimated_cost_usd: cents,
                estimated_cost_micro_usd: micro,
            },
        )
    }
}

pub open spec fn sat_sub(a: u64, b: u64) -> u64 {
    if a < b {
        0
    } else {
        (a - b) as u64
    }
}

pub open spec fn cents_or_zero(o: Option<i64>) -> i64 {
    match o {
        Some(n) => n,
        None => 0,
    }
}

/// The totals of the first `n` events.
pub open spec fn prefix_of(s: Seq<EventSample>, n: int) -> UsagePrefix
    decreases n,
{
    if n <= 0 {
        UsagePrefix::empty()
    } else {
        prefix_of(s, n - 1).plus(s[n - 1])
    }
}

/// How many of the first `n` events satisfy the bound: those before `t`, and
/// those at `t` too where it is included.
pub open spec fn count_upto(s: Seq<EventSample>, t: Timestamp, included: bool, n: int) -> int
    decreases n,
{
    if n <= 0 {
        0
    } else {
        count_upto(s, t, included, n - 1) + if s[n - 1].at.at() < t.at() || (included && s[n - 1].at.at()
            == t.at()) {
            1int
        } else {
            0int
        }
    }
}

/// How many events, and their totals, lie from `start` to `end` in a series in
/// the order of time. The event at `end` counts where it is included.
pub open spec fn usage_between_spec(
    s: Seq<EventSample>,
    start: Timestamp,
    end: Timestamp,
    end_inclusive: bool,
) -> (u64, UsageTotals) {
    if end.at() < start.at() {
        (0, UsageTotals::zero())
    } else {
        let n = s.len() as int;
        prefix_of(s, count_upto(s, end, end_inclusive, n)).difference_spec(
            prefix_of(s, count_upto(s, start, false, n)),
        )
    }
}

pub open spec fn in_time_order(s: Seq<EventSample>) -> bool {
    forall|i: int, j: int| 0 <= i < j < s.len() ==> (#[trigger] s[i]).at.at() <= (#[trigger] s[j]).at.at()
}

proof fn lemma_count_is(s: Seq<EventSample>, t: Timestamp, included: bool, p: int, n: int)
    requires
        0 <= p,
        0 <= n <= s.len(),
        forall|k: int|
            0 <= k < p && k < s.len() ==> (#[trigger] s[k]).at.at() < t.at() || (included
                && s[k].at.at() == t.at()),
        forall|k: int|
            p <= k < s.len() ==> !((#[trigger] s[k]).at.at() < t.at() || (included && s[k].at.at()
                == t.at())),
    ensures
        count_upto(s, t, included, n) == if n <= p {
            n
        } else {
            p
        },
    decreases n,
{
    if n > 0 {
        lemma_count_is(s, t, included, p, n - 1);
    }
}

proof fn lemma_count_bounds(s: Seq<EventSample>, t: Timestamp, included: bool, n: int)
    ensures
        0 <= count_upto(s, t, included, n),
        n >= 0 ==> count_upto(s, t, included, n) <= n,
    decreases n,
{
    if n > 0 {
        lemma_count_bounds(s, t, included, n - 1);
    }
}

proof fn lemma_prefix_counts(s: Seq<EventSample>, n: int)
    requires
        0 <= n <= u64::MAX,
    ensures
        prefix_of(s, n).events == n,
        prefix_of(s, n).estimated_cost_samples <= n,
    decreases n,
{
    if n > 0 {
        lemma_prefix_counts(s, n - 1);
    }
}

/// The events of one account in the order of time, with running totals.
pub struct EventUsageSeries {
    pub samples: Vec<EventSample>,
    pub prefixes: Vec<UsagePrefix>,
}

impl EventUsageSeries {
    pub open spec fn wf(self) -> bool {
        &&& in_time_order(self.samples@)
        &&& self.prefixes@.len() == self.samples@.len() + 1
        &&& forall|k: int|
            0 <= k < self.prefixes@.len() ==> #[trigger] self.prefixes@[k] == prefix_of(
                self.samples@,
                k,
            )
    }

    /// Puts the events in order; events at one instant keep theirs.
    pub fn from_events(samples: Vec<EventSample>) -> (r: EventUsageSeries)
        ensures
            r.wf(),
            r.samples@ == ranked(samples@),
    {
        proof {
            ranking_puts_records_in_order(samples@);
        }
        let samples = sort_ranked(samples);
        proof {
            assert forall|i: int, j: int| 0 <= i < j < samples@.len() implies (
            #[trigger] samples@[i]).at.at() <= (#[trigger] samples@[j]).at.at() by {
                assert(!samples@[j].goes_before(&samples@[i]));
            }
        }
        let mut prefixes: Vec<UsagePrefix> = Vec::new();
        let mut current = UsagePrefix {
            usage: UsageTotals::default(),
            events: 0,
            estimated_cost_samples: 0,
        };
        prefixes.push(current);
        let mut i: usize = 0;
        while i < samples.len()
            invariant
                i <= samples.len(),
                current == prefix_of(samples@, i as int),
                prefixes@.len() == i + 1,
                forall|k: int|
                    0 <= k < prefixes@.len() ==> #[trigger] prefixes@[k] == prefix_of(
                        samples@,
                        k,
                    ),
            decreases samples.len() - i,
        {
            proof {
                lemma_prefix_counts(samples@, i as int);
            }
            current.add_sample(&samples[i]);
            prefixes.push(current);
            i = i + 1;
        }
        EventUsageSeries { samples, prefixes }
    }

    fn partition(&self, t: Timestamp, included: bool) -> (r: usize)
        requires
            self.wf(),
        ensures
            r == count_upto(self.samples@, t, included, self.samples@.len() as int),
            r <= self.samples@.len(),
    {
        let mut lo: usize = 0;
        let mut hi: usize = self.samples.len();
        while lo < hi
            invariant
                self.wf(),
                lo <= hi <= self.samples@.len(),
                forall|k: int|
                    0 <= k < lo ==> (#[trigger] self.samples@[k]).at.at() < t.at() || (included
                        && self.samples@[k].at.at() == t.at()),
                forall|k: int|
                    hi <= k < self.samples@.len() ==> !((#[trigger] self.samples@[k]).at.at()
                        < t.at() || (included && self.samples@[k].at.at() == t.at())),
            decreases hi - lo,
        {
            let mid: usize = lo + (hi - lo) / 2;
            let s = &self.samples[mid];
            let counted = if included { s.at.not_after(&t) } else { s.at.before(&t) };
            if counted {
                proof {
                    assert forall|k: int| 0 <= k < mid + 1 implies (
                    #[trigger] self.samples@[k]).at.at() < t.at() || (included
                        && self.samples@[k].at.at() == t.at()) by {
                        if k < mid {
                            assert(self.samples@[k].at.at() <= self.samples@[mid as int].at.at());
                        }
                    }
                }
                lo = mid + 1;
            } else {
                proof {
                    assert forall|k: int| mid <= k < self.samples@.len() implies !((
                    #[trigger] self.samples@[k]).at.at() < t.at() || (included
                        && self.samples@[k].at.at() == t.at())) by {
                        if k > mid {
                            assert(self.samples@[mid as int].at.at() <= self.samples@[k].at.at());
                        }
                    }
                }
                hi = mid;
            }
        }
        proof {
            lemma_count_is(self.samples@, t, included, lo as int, self.samples@.len() as int);
        }
        lo
    }

    /// How many events, and their totals, lie from `start` to `end`.
    pub fn usage_between(&self, start: Timestamp, end: Timestamp, end_inclusive: bool) -> (r: (
        u64,
        UsageTotals,
    ))
        requires
            self.wf(),
        ensures
            r == usage_between_spec(self.samples@, start, end, end_inclusive),
    {
        if end.before(&start) {
            return (0, UsageTotals::default());
        }
        let from: usize = self.partition(start, false);
        let to: usize = self.partition(end, end_inclusive);
        self.prefixes[to].difference(&self.prefixes[from])
    }
}

// ---------------------------------------------------------------------------
// What holds of every series
// ---------------------------------------------------------------------------

/// The sum of a count over the events from `lo` up to `hi`.
pub open spec fn sum_of(s: Seq<EventSample>, part: spec_fn(EventSample) -> u64, lo: int, hi: int) -> int
    decreases hi - lo,
{
    if hi <= lo {
        0
    } else {
        sum_of(s, part, lo, hi - 1) + part(s[hi - 1])
    }
}

proof fn lemma_sum_split(
    s: Seq<EventSample>,
    part: spec_fn(EventSample) -> u64,
    lo: int,
    mid: int,
    hi: int,
)
    requires
        lo <= mid <= hi,
    ensures
        sum_of(s, part, lo, hi) == sum_of(s, part, lo, mid) + sum_of(s, part, mid, hi),
        sum_of(s, part, lo, mid) >= 0,
        sum_of(s, part, mid, hi) >= 0,
    decreases hi - lo,
{
    if mid < hi {
        lemma_sum_split(s, part, lo, mid, hi - 1);
    } else if lo < mid {
        lemma_sum_split(s, part, lo, mid - 1, hi - 1);
    }
}

proof fn lemma_prefix_sum(
    s: Seq<EventSample>,
    part: spec_fn(EventSample) -> u64,
    total: spec_fn(UsageTotals) -> u64,
    n: int,
    whole: int,
)
    requires
        0 <= n <= whole,
        sum_of(s, part, 0, whole) <= u64::MAX,
        total(UsageTotals::zero()) == 0,
        forall|t: UsageTotals, x: EventSample|
            total(#[trigger] t.plus_usage(x.usage, x.cost)) == sat_add(total(t), part(x)),
    ensures
        total(prefix_of(s, n).usage) == sum_of(s, part, 0, n),
    decreases n,
{
    if n > 0 {
        lemma_prefix_sum(s, part, total, n - 1, whole);
        lemma_sum_split(s, part, 0, n, whole);
    }
}

proof fn lemma_counts_ordered(s: Seq<EventSample>, start: Timestamp, end: Timestamp, included: bool, n: int)
    requires
        start.at() <= end.at(),
    ensures
        count_upto(s, start, false, n) <= count_upto(s, end, included, n),
    decreases n,
{
    if n > 0 {
        lemma_counts_ordered(s, start, end, included, n - 1);
    }
}

/// Where no counter overflows, the usage between two instants is the sum over
/// the events between them: the events that are before the end and not before
/// the start.
pub proof fn usage_between_is_a_sum(
    s: Seq<EventSample>,
    start: Timestamp,
    end: Timestamp,
    end_inclusive: bool,
)
    requires
        start.at() <= end.at(),
        s.len() <= u64::MAX,
        sum_of(s, |x: EventSample| or_zero(x.usage.input_tokens), 0, s.len() as int) <= u64::MAX,
        sum_of(s, |x: EventSample| or_zero(x.usage.output_tokens), 0, s.len() as int) <= u64::MAX,
        sum_of(s, |x: EventSample| x.usage.computed_total_spec(), 0, s.len() as int) <= u64::MAX,
    ensures
        ({
            let n = s.len() as int;
            let a = count_upto(s, start, false, n);
            let b = count_upto(s, end, end_inclusive, n);
            let r = usage_between_spec(s, start, end, end_inclusive);
            &&& r.0 == b - a
            &&& r.1.input_tokens == sum_of(
                s,
                |x: EventSample| or_zero(x.usage.input_tokens),
                a,
                b,
            )
            &&& r.1.output_tokens == sum_of(
                s,
                |x: EventSample| or_zero(x.usage.output_tokens),
                a,
                b,
            )
            &&& r.1.total_tokens == sum_of(s, |x: EventSample| x.usage.computed_total_spec(), a, b)
        }),
{
    let n = s.len() as int;
    let a = count_upto(s, start, false, n);
    let b = count_upto(s, end, end_inclusive, n);
    lemma_count_bounds(s, start, false, n);
    lemma_count_bounds(s, end, end_inclusive, n);
    lemma_counts_ordered(s, start, end, end_inclusive, n);
    lemma_prefix_counts(s, a);
    lemma_prefix_counts(s, b);
    let input = |x: EventSample| or_zero(x.usage.input_tokens);
    let output = |x: EventSample| or_zero(x.usage.output_tokens);
    let total = |x: EventSample| x.usage.computed_total_spec();
    lemma_prefix_sum(s, input, |t: UsageTotals| t.input_tokens, a, n);
    lemma_prefix_sum(s, input, |t: UsageTotals| t.input_tokens, b, n);
    lemma_sum_split(s, input, 0, a, b);
    lemma_prefix_sum(s, output, |t: UsageTotals| t.output_tokens, a, n);
    lemma_prefix_sum(s, output, |t: UsageTotals| t.output_tokens, b, n);
    lemma_sum_split(s, output, 0, a, b);
    lemma_prefix_sum(s, total, |t: UsageTotals| t.total_tokens, a, n);
    lemma_prefix_sum(s, total, |t: UsageTotals| t.total_tokens, b, n);
    lemma_sum_split(s, total, 0, a, b);
}

} // verus!
