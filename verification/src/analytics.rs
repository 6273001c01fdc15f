//! Statistics over a batch of transactions: z-score outliers in volume and
//! timing, distributions over the clock and the calendar, and the report
//! that gathers them.

use vstd::prelude::*;

use crate::bignat::BigNat;
use crate::calendar::{hour_of_day_of, in_calendar, month_number, month_number_of, weekday_of};
pub use crate::whale_tracker::RiskLevel;
use crate::whale_tracker::{
    capped, count_where, picks, summarize, volume_where, Selection, Selector, WhalePattern,
};
use crate::{batch_view, TransactionView, WhaleTransaction};

verus! {

/// What an anomaly is an anomaly of.
#[derive(Clone, Copy, Debug, PartialEq, Eq, Structural)]
pub enum AnomalyType {
    VolumeOutlier,
    TimingIrregularity,
    UnusualPattern,
    NetworkAnomaly,
}

/// How far out an anomaly lies.
#[derive(Clone, Copy, Debug, PartialEq, Eq, Structural)]
pub enum AnomalySeverity {
    Low,
    Medium,
    High,
    Critical,
}

/// A sample of a series that lies further from the mean than allowed.
#[derive(Clone, Copy, Debug, PartialEq, Eq, Structural)]
pub struct Outlier {
    /// The position of the sample in its series.
    pub index: usize,
    pub severity: AnomalySeverity,
    /// The z-score of the sample in thousandths, rounded down.
    pub z_score: u64,
}

/// The sum of the samples.
pub open spec fn series_sum(series: Seq<u128>) -> nat
    decreases series.len(),
{
    if series.len() == 0 {
        0
    } else {
        series_sum(series.drop_last()) + series.last() as nat
    }
}

/// The sum of the squares of the samples.
pub open spec fn series_sum_squares(series: Seq<u128>) -> nat
    decreases series.len(),
{
    if series.len() == 0 {
        0
    } else {
        series_sum_squares(series.drop_last()) + (series.last() * series.last()) as nat
    }
}

/// The population variance of the series, times the square of its length.
///
/// With `n` samples of sum `S` and sum of squares `Q`, the mean is `S / n`
/// and the variance `Q / n - (S / n)^2`; this is `n * Q - S^2`.
pub open spec fn spread(series: Seq<u128>) -> int {
    series.len() * series_sum_squares(series) - series_sum(series) * series_sum(series)
}

/// The signed distance of sample `i` from the mean, times the length of the
/// series.
pub open spec fn deviation(series: Seq<u128>, i: int) -> int {
    series.len() * series[i] - series_sum(series)
}

/// Whether the z-score of sample `i` is greater than `threshold` thousandths.
///
/// The z-score is the distance from the mean over the standard deviation.
/// It is undefined on a series without variance, where nothing exceeds
/// anything. Otherwise `z > t / 1000` is `1000 * |x - mean| > t * sigma`;
/// both sides are squared and scaled by the square of the length.
pub open spec fn exceeds(series: Seq<u128>, i: int, threshold: nat) -> bool {
    &&& spread(series) > 0
    &&& 1_000_000 * (deviation(series, i) * deviation(series, i)) > threshold * threshold * spread(
        series,
    )
}

/// The greatest z-score that is reported, in thousandths. The z-score of a
/// sample is less than the square root of the length of its series, so no
/// series that fits a memory comes near it.
pub const Z_SCORE_CAP: u64 = 0xffff_ffff_ffff_fffe;

/// Whether the z-score of sample `i` is at least `z` thousandths, on a
/// series that has variance.
pub open spec fn reaches(series: Seq<u128>, i: int, z: nat) -> bool {
    z * z * spread(series) <= 1_000_000 * (deviation(series, i) * deviation(series, i))
}

/// Whether `z` is the z-score of sample `i` in thousandths, rounded down
/// and capped.
pub open spec fn is_z_score(series: Seq<u128>, i: int, z: nat) -> bool {
    &&& z <= Z_SCORE_CAP
    &&& reaches(series, i, z)
    &&& z == Z_SCORE_CAP || !reaches(series, i, z + 1)
}

/// The z-score of sample `i` in thousandths, rounded down and capped; zero
/// on a series without variance, where there is no z-score.
pub open spec fn z_thousandths(series: Seq<u128>, i: int) -> nat {
    if spread(series) > 0 {
        choose|z: nat| is_z_score(series, i, z)
    } else {
        0
    }
}

/// On a series that has variance only one number is the z-score of a
/// sample, so whatever is one is what `z_thousandths` gives.
pub proof fn lemma_z_score_unique(series: Seq<u128>, i: int, z: nat)
    requires
        spread(series) > 0,
        is_z_score(series, i, z),
    ensures
        z_thousandths(series, i) == z,
{
    let other = z_thousandths(series, i);
    assert(is_z_score(series, i, other));
    let sp = spread(series);
    let dd = 1_000_000 * (deviation(series, i) * deviation(series, i));
    if other < z {
        assert((other + 1) * (other + 1) * sp <= z * z * sp) by (nonlinear_arith)
            requires
                0 <= other + 1 <= z,
                sp > 0,
        ;
    } else if z < other {
        assert((z + 1) * (z + 1) * sp <= other * other * sp) by (nonlinear_arith)
            requires
                0 <= z + 1 <= other,
                sp > 0,
        ;
    }
}

/// The outliers among the first `k` samples, in the order of the series:
/// those whose z-score exceeds `flag`, the ones beyond `high` marked `High`
/// and the others `Medium`.
pub open spec fn outliers_among(series: Seq<u128>, k: nat, flag: nat, high: nat) -> Seq<Outlier>
    decreases k,
{
    if k == 0 {
        Seq::empty()
    } else {
        let before = outliers_among(series, (k - 1) as nat, flag, high);
        if exceeds(series, k - 1, flag) {
            before.push(
                Outlier {
                    index: (k - 1) as usize,
                    severity: if exceeds(series, k - 1, high) {
                        AnomalySeverity::High
                    } else {
                        AnomalySeverity::Medium
                    },
                    z_score: z_thousandths(series, k - 1) as u64,
                },
            )
        } else {
            before
        }
    }
}

/// The outliers of a series. A series of fewer than two samples has none.
pub open spec fn outliers(series: Seq<u128>, flag: nat, high: nat) -> Seq<Outlier> {
    if series.len() < 2 {
        Seq::empty()
    } else {
        outliers_among(series, series.len(), flag, high)
    }
}

proof fn lemma_sums_of_equal_samples(series: Seq<u128>, c: u128)
    requires
        forall|i: int| 0 <= i < series.len() ==> series[i] == c,
    ensures
        series_sum(series) == series.len() * c,
        series_sum_squares(series) == series.len() * (c * c),
    decreases series.len(),
{
    if series.len() > 0 {
        let rest = series.drop_last();
        let n = rest.len() as int;
        lemma_sums_of_equal_samples(rest, c);
        assert(series.last() == c);
        assert((n + 1) * c == n * c + c) by (nonlinear_arith);
        assert((n + 1) * (c * c) == n * (c * c) + c * c) by (nonlinear_arith);
    } else {
        assert(0 * c == 0) by (nonlinear_arith);
        assert(0 * (c * c) == 0) by (nonlinear_arith);
    }
}

proof fn lemma_nothing_exceeds_without_variance(series: Seq<u128>, k: nat, flag: nat, high: nat)
    requires
        spread(series) <= 0,
    ensures
        outliers_among(series, k, flag, high) == Seq::<Outlier>::empty(),
    decreases k,
{
    if k > 0 {
        lemma_nothing_exceeds_without_variance(series, (k - 1) as nat, flag, high);
    }
}

/// A series whose samples are all the same has no outliers, whatever the
/// thresholds: it has no variance, and so no z-scores.
pub proof fn lemma_equal_samples_have_no_outliers(series: Seq<u128>, flag: nat, high: nat)
    requires
        forall|i: int, j: int|
            0 <= i < series.len() && 0 <= j < series.len() ==> series[i] == series[j],
    ensures
        outliers(series, flag, high) == Seq::<Outlier>::empty(),
{
    if series.len() >= 2 {
        let c = series[0];
        let n = series.len() as int;
        lemma_sums_of_equal_samples(series, c);
        assert(n * (n * (c * c)) - (n * c) * (n * c) == 0) by (nonlinear_arith);
        lemma_nothing_exceeds_without_variance(series, series.len(), flag, high);
    }
}

/// The sums a z-score test needs, computed once per series.
struct Moments {
    count: BigNat,
    sum: BigNat,
    sum_squared: BigNat,
    count_sum_squares: BigNat,
    varies: bool,
}

impl Moments {
    spec fn describes(&self, series: Seq<u128>) -> bool {
        &&& self.count@ == series.len()
        &&& self.sum@ == series_sum(series)
        &&& self.sum_squared@ == series_sum(series) * series_sum(series)
        &&& self.count_sum_squares@ == series.len() * series_sum_squares(series)
        &&& self.varies == (spread(series) > 0)
    }

    fn of(series: &Vec<u128>) -> (m: Moments)
        ensures
            m.describes(series@),
    {
        let n = series.len();
        let mut sum = BigNat::zero();
        let mut squares = BigNat::zero();
        let mut i: usize = 0;
        while i < n
            invariant
                n == series.len(),
                i <= n,
                sum@ == series_sum(series@.take(i as int)),
                squares@ == series_sum_squares(series@.take(i as int)),
            decreases n - i,
        {
            let x = BigNat::from_u128(series[i]);
            let xx = x.times(&x);
            proof {
                assert(series@.take(i + 1).drop_last() == series@.take(i as int));
            }
            sum = sum.plus(&x);
            squares = squares.plus(&xx);
            i = i + 1;
        }
        proof {
            assert(series@.take(n as int) == series@);
        }
        let count = BigNat::from_u128(n as u128);
        let sum_squared = sum.times(&sum);
        let count_sum_squares = count.times(&squares);
        let varies = sum_squared.less_than(&count_sum_squares);
        Moments { count, sum, sum_squared, count_sum_squares, varies }
    }

    /// Whether the z-score of `sample`, the sample at `i`, exceeds `threshold`.
    fn exceeds(&self, sample: u128, threshold: u32, Ghost(series): Ghost<Seq<u128>>, Ghost(i): Ghost<
        int,
    >) -> (beyond: bool)
        requires
            self.describes(series),
            0 <= i < series.len(),
            series[i] == sample,
        ensures
            beyond == exceeds(series, i, threshold as nat),
    {
        if !self.varies {
            return false;
        }
        let scale = BigNat::from_u128(1_000_000);
        let twice_scale = BigNat::from_u128(2_000_000);
        assert(threshold * threshold <= 0xffff_ffff * 0xffff_ffff) by (nonlinear_arith)
            requires
                threshold <= 0xffff_ffff,
        ;
        let t2 = BigNat::from_u128((threshold as u128) * (threshold as u128));
        let x = BigNat::from_u128(sample);
        let nx = self.count.times(&x);
        let left = scale.times(&nx).times(&nx).plus(&scale.plus(&t2).times(&self.sum_squared));
        let right = t2.times(&self.count_sum_squares).plus(
            &twice_scale.times(&nx).times(&self.sum),
        );
        proof {
            let s = series_sum(series) as int;
            let q = series_sum_squares(series) as int;
            let n = series.len() as int;
            let p = n * sample;
            let t = (threshold * threshold) as int;
            let nq = n * q;
            let ss = s * s;
            let d = deviation(series, i);
            assert(d == p - s);
            assert(spread(series) == nq - ss);
            assert((1_000_000 * p * p + (1_000_000 + t) * ss > t * nq + 2_000_000 * p * s) == (
            1_000_000 * (d * d) > t * (nq - ss))) by (nonlinear_arith)
                requires
                    d == p - s,
                    ss == s * s,
            ;
        }
        right.less_than(&left)
    }

    /// Whether the z-score of `sample`, the sample at `i`, is at least `z`.
    fn reaches(&self, sample: u128, z: u64, Ghost(series): Ghost<Seq<u128>>, Ghost(i): Ghost<
        int,
    >) -> (enough: bool)
        requires
            self.describes(series),
            0 <= i < series.len(),
            series[i] == sample,
        ensures
            enough == reaches(series, i, z as nat),
    {
        let scale = BigNat::from_u128(1_000_000);
        let twice_scale = BigNat::from_u128(2_000_000);
        assert(z * z <= 0xffff_ffff_ffff_ffff * 0xffff_ffff_ffff_ffff) by (nonlinear_arith)
            requires
                z <= 0xffff_ffff_ffff_ffff,
        ;
        let z2 = BigNat::from_u128((z as u128) * (z as u128));
        let x = BigNat::from_u128(sample);
        let nx = self.count.times(&x);
        let above = scale.times(&nx).times(&nx).plus(&scale.plus(&z2).times(&self.sum_squared));
        let below = z2.times(&self.count_sum_squares).plus(
            &twice_scale.times(&nx).times(&self.sum),
        );
        proof {
            let s = series_sum(series) as int;
            let q = series_sum_squares(series) as int;
            let n = series.len() as int;
            let p = n * sample;
            let t = (z * z) as int;
            let nq = n * q;
            let ss = s * s;
            let d = deviation(series, i);
            assert(d == p - s);
            assert(spread(series) == nq - ss);
            assert((1_000_000 * p * p + (1_000_000 + t) * ss < t * nq + 2_000_000 * p * s) == (
            1_000_000 * (d * d) < t * (nq - ss))) by (nonlinear_arith)
                requires
                    d == p - s,
                    ss == s * s,
            ;
        }
        !above.less_than(&below)
    }

    /// The z-score of `sample`, the sample at `i`, in thousandths.
    fn z_score(&self, sample: u128, Ghost(series): Ghost<Seq<u128>>, Ghost(i): Ghost<int>) -> (z:
        u64)
        requires
            self.describes(series),
            0 <= i < series.len(),
            series[i] == sample,
        ensures
            is_z_score(series, i, z as nat),
    {
        let mut low: u64 = 0;
        let mut high: u64 = Z_SCORE_CAP;
        if self.reaches(sample, Z_SCORE_CAP, Ghost(series), Ghost(i)) {
            return Z_SCORE_CAP;
        }
        assert(reaches(series, i, 0)) by {
            let d = deviation(series, i);
            assert(0 <= 1_000_000 * (d * d)) by (nonlinear_arith);
            assert(0 * 0 * spread(series) == 0) by (nonlinear_arith);
        }
        while high - low > 1
            invariant
                self.describes(series),
                0 <= i < series.len(),
                series[i] == sample,
                low < high <= Z_SCORE_CAP,
                reaches(series, i, low as nat),
                !reaches(series, i, high as nat),
            decreases high - low,
        {
            let middle = low + (high - low) / 2;
            if self.reaches(sample, middle, Ghost(series), Ghost(i)) {
                low = middle;
            } else {
                high = middle;
            }
        }
        low
    }
}

/// Finds the outliers of `series`: the samples whose z-score is greater than
/// `flag` thousandths, marked `High` where it is also greater than `high`
/// thousandths and `Medium` elsewhere.
pub fn zscore_outliers(series: &Vec<u128>, flag: u32, high: u32) -> (found: Vec<Outlier>)
    ensures
        found@ == outliers(series@, flag as nat, high as nat),
{
    let n = series.len();
    let mut found: Vec<Outlier> = Vec::new();
    if n < 2 {
        return found;
    }
    let moments = Moments::of(series);
    let mut i: usize = 0;
    while i < n
        invariant
            n == series.len(),
            i <= n,
            moments.describes(series@),
            found@ == outliers_among(series@, i as nat, flag as nat, high as nat),
        decreases n - i,
    {
        let sample = series[i];
        if moments.exceeds(sample, flag, Ghost(series@), Ghost(i as int)) {
            let severity = if moments.exceeds(sample, high, Ghost(series@), Ghost(i as int)) {
                AnomalySeverity::High
            } else {
                AnomalySeverity::Medium
            };
            let z_score = moments.z_score(sample, Ghost(series@), Ghost(i as int));
            proof {
                lemma_z_score_unique(series@, i as int, z_score as nat);
            }
            found.push(Outlier { index: i, severity, z_score });
        }
        i = i + 1;
    }
    found
}

/// Hours in a day: the length of the hourly distribution.
pub const HOURS: usize = 24;

/// Days in a week: the length of the daily distribution.
pub const WEEKDAYS: usize = 7;

/// What moved in one month of the calendar.
#[derive(Clone, Copy, Debug, PartialEq, Eq, Structural)]
pub struct MonthlyVolume {
    pub year: i64,
    /// The month in its year, from 1 to 12.
    pub month: u32,
    /// The summed value of the month's transactions, capped at the largest
    /// 128-bit value.
    pub volume: u128,
}

impl MonthlyVolume {
    /// The number of the month in the sequence of all months.
    pub open spec fn number(&self) -> int {
        self.year * 12 + self.month - 1
    }
}

/// How a batch spreads over the clock and the calendar.
#[derive(Clone, Debug, PartialEq, Eq)]
pub struct TemporalPatterns {
    /// How many transactions were made in each hour of the day.
    pub hourly_distribution: Vec<u64>,
    /// How many were made on each day of the week, Monday first.
    pub daily_distribution: Vec<u64>,
    /// What moved in each month that saw a transaction, in the order of
    /// the calendar.
    pub monthly_trends: Vec<MonthlyVolume>,
    /// The busiest hour of the day; the earliest, if several are as busy.
    pub peak_hour: usize,
    /// The busiest day of the week; the earliest, if several are as busy.
    pub peak_day: usize,
    /// The mean time between one transaction and the next in time, in
    /// whole seconds.
    pub average_gap_between_transactions: u64,
}

/// `p` is the first position at which `counts` is greatest.
pub open spec fn is_first_peak(counts: Seq<u64>, p: int) -> bool {
    &&& 0 <= p < counts.len()
    &&& forall|i: int| 0 <= i < counts.len() ==> counts[i] <= counts[p]
    &&& forall|i: int| 0 <= i < p ==> counts[i] < counts[p]
}

/// The earliest instant among the first `k` transactions, `k` at least one.
pub open spec fn earliest(list: Seq<TransactionView>, k: nat) -> int
    decreases k,
{
    if k <= 1 {
        list[0].timestamp
    } else {
        let before = earliest(list, (k - 1) as nat);
        if list[k - 1].timestamp < before {
            list[k - 1].timestamp
        } else {
            before
        }
    }
}

/// The latest instant among the first `k` transactions, `k` at least one.
pub open spec fn latest(list: Seq<TransactionView>, k: nat) -> int
    decreases k,
{
    if k <= 1 {
        list[0].timestamp
    } else {
        let before = latest(list, (k - 1) as nat);
        if list[k - 1].timestamp > before {
            list[k - 1].timestamp
        } else {
            before
        }
    }
}

/// The mean time between one transaction and the next in time, rounded
/// down to whole seconds; zero for fewer than two transactions.
///
/// Taken in the order of time, the gaps between neighbours add up to the
/// time from the earliest transaction to the latest, and there is one gap
/// fewer than there are transactions.
pub open spec fn mean_gap(list: Seq<TransactionView>) -> int {
    if list.len() < 2 {
        0
    } else {
        (latest(list, list.len()) - earliest(list, list.len())) / (list.len() - 1)
    }
}

/// Some transaction of `list` was made in the month numbered `number`.
pub open spec fn month_occurs(list: Seq<TransactionView>, number: int) -> bool {
    exists|j: int| 0 <= j < list.len() && picks(Selection::Month(number), #[trigger] list[j])
}

/// `monthly` has an entry for the month numbered `number`.
pub open spec fn month_listed(monthly: Seq<MonthlyVolume>, number: int) -> bool {
    exists|i: int| 0 <= i < monthly.len() && (#[trigger] monthly[i]).number() == number
}

/// `monthly` tells what moved in each month of `list`: its entries are in
/// the order of the calendar, there is one for each month that a
/// transaction within the calendar's reach was made in and for no other,
/// and each holds what the transactions of its month add up to.
pub open spec fn is_monthly_summary(monthly: Seq<MonthlyVolume>, list: Seq<TransactionView>) -> bool {
    &&& forall|i: int, j: int|
        0 <= i < j < monthly.len() ==> (#[trigger] monthly[i]).number() < (
        #[trigger] monthly[j]).number()
    &&& forall|i: int|
        0 <= i < monthly.len() ==> {
            &&& 1 <= (#[trigger] monthly[i]).month <= 12
            &&& month_occurs(list, monthly[i].number())
            &&& monthly[i].volume == capped(
                volume_where(list, list.len(), Selection::Month(monthly[i].number())),
            )
        }
    &&& forall|j: int|
        0 <= j < list.len() && in_calendar((#[trigger] list[j]).timestamp) ==> month_listed(
            monthly,
            month_number(list[j].timestamp),
        )
}

/// `found` is how `list` spreads over the clock and the calendar.
pub open spec fn is_temporal_summary(found: TemporalPatterns, list: Seq<TransactionView>) -> bool {
    &&& found.hourly_distribution.len() == HOURS
    &&& forall|h: int|
        0 <= h < HOURS ==> #[trigger] found.hourly_distribution[h] == count_where(
            list,
            list.len(),
            Selection::HourOfDay(h),
        )
    &&& found.daily_distribution.len() == WEEKDAYS
    &&& forall|d: int|
        0 <= d < WEEKDAYS ==> #[trigger] found.daily_distribution[d] == count_where(
            list,
            list.len(),
            Selection::Weekday(d),
        )
    &&& is_first_peak(found.hourly_distribution@, found.peak_hour as int)
    &&& is_first_peak(found.daily_distribution@, found.peak_day as int)
    &&& is_monthly_summary(found.monthly_trends@, list)
    &&& found.average_gap_between_transactions == mean_gap(list)
}

/// The first position at which `counts` is greatest; zero where there is
/// nothing to count.
pub fn first_peak(counts: &Vec<u64>) -> (p: usize)
    ensures
        counts.len() > 0 ==> is_first_peak(counts@, p as int),
        counts.len() == 0 ==> p == 0,
{
    let n = counts.len();
    if n == 0 {
        return 0;
    }
    let mut p: usize = 0;
    let mut i: usize = 1;
    while i < n
        invariant
            n == counts.len(),
            1 <= i <= n,
            p < i,
            forall|j: int| 0 <= j < i ==> counts[j] <= counts[p as int],
            forall|j: int| 0 <= j < p ==> counts[j] < counts[p as int],
        decreases n - i,
    {
        if counts[i] > counts[p] {
            p = i;
        }
        i = i + 1;
    }
    p
}

/// The mean time between one transaction and the next in time.
pub fn calculate_average_gap(data: &Vec<WhaleTransaction>) -> (gap: u64)
    ensures
        gap == mean_gap(batch_view(data@)),
{
    let n = data.len();
    if n < 2 {
        return 0;
    }
    let ghost list = batch_view(data@);
    let mut first = data[0].timestamp;
    let mut last = data[0].timestamp;
    let mut k: usize = 1;
    while k < n
        invariant
            n == data.len(),
            list == batch_view(data@),
            1 <= k <= n,
            first == earliest(list, k as nat),
            last == latest(list, k as nat),
            first <= last,
        decreases n - k,
    {
        let at = data[k].timestamp;
        assert(list[k as int].timestamp == at);
        if at < first {
            first = at;
        }
        if at > last {
            last = at;
        }
        k = k + 1;
    }
    let span: u64 = ((last as i128) - (first as i128)) as u64;
    span / ((n - 1) as u64)
}

fn tally(data: &Vec<WhaleTransaction>, by_weekday: bool) -> (counts: Vec<u64>)
    ensures
        counts.len() == if by_weekday {
            WEEKDAYS
        } else {
            HOURS
        },
        forall|b: int|
            0 <= b < counts.len() ==> #[trigger] counts[b] == count_where(
                batch_view(data@),
                data.len() as nat,
                if by_weekday {
                    Selection::Weekday(b)
                } else {
                    Selection::HourOfDay(b)
                },
            ),
{
    let size = if by_weekday {
        WEEKDAYS
    } else {
        HOURS
    };
    let n = data.len();
    let ghost list = batch_view(data@);
    let mut counts: Vec<u64> = Vec::new();
    let mut b: usize = 0;
    while b < size
        invariant
            b <= size,
            counts.len() == b,
            forall|j: int| 0 <= j < b ==> counts[j] == 0,
        decreases size - b,
    {
        counts.push(0);
        b = b + 1;
    }
    let mut k: usize = 0;
    while k < n
        invariant
            n == data.len(),
            list == batch_view(data@),
            k <= n,
            size == if by_weekday {
                WEEKDAYS
            } else {
                HOURS
            },
            counts.len() == size,
            forall|j: int|
                0 <= j < size ==> #[trigger] counts[j] == count_where(
                    list,
                    k as nat,
                    if by_weekday {
                        Selection::Weekday(j)
                    } else {
                        Selection::HourOfDay(j)
                    },
                ) && counts[j] <= k,
        decreases n - k,
    {
        let at = data[k].timestamp;
        assert(list[k as int].timestamp == at);
        let bucket = if by_weekday {
            weekday_of(at)
        } else {
            hour_of_day_of(at)
        };
        let raised = counts[bucket] + 1;
        counts.set(bucket, raised);
        k = k + 1;
    }
    counts
}

/// `months` holds the number `number`.
spec fn holds_month(months: Seq<i64>, number: int) -> bool {
    exists|i: int| 0 <= i < months.len() && #[trigger] months[i] == number
}

/// The numbers of the months that the transactions of `data` were made in,
/// each once, in ascending order.
fn months_of(data: &Vec<WhaleTransaction>) -> (months: Vec<i64>)
    ensures
        forall|i: int, j: int| 0 <= i < j < months.len() ==> months[i] < months[j],
        forall|i: int| 0 <= i < months.len() ==> month_occurs(batch_view(data@), #[trigger] months[i] as int),
        forall|j: int|
            0 <= j < data.len() && in_calendar((#[trigger] batch_view(data@)[j]).timestamp)
                ==> holds_month(months@, month_number(batch_view(data@)[j].timestamp)),
{
    let n = data.len();
    let ghost list = batch_view(data@);
    let mut months: Vec<i64> = Vec::new();
    let mut k: usize = 0;
    while k < n
        invariant
            n == data.len(),
            list == batch_view(data@),
            k <= n,
            forall|i: int, j: int| 0 <= i < j < months.len() ==> months[i] < months[j],
            forall|i: int| 0 <= i < months.len() ==> month_occurs(list, #[trigger] months[i] as int),
            forall|j: int|
                0 <= j < k && in_calendar((#[trigger] list[j]).timestamp) ==> holds_month(
                    months@,
                    month_number(list[j].timestamp),
                ),
        decreases n - k,
    {
        let at = data[k].timestamp;
        assert(list[k as int].timestamp == at);
        match month_number_of(at) {
            Some(number) => {
                assert(picks(Selection::Month(number as int), list[k as int]));
                let len = months.len();
                let mut p: usize = 0;
                while p < len && months[p] < number
                    invariant
                        len == months.len(),
                        p <= len,
                        forall|i: int| 0 <= i < p ==> months[i] < number,
                    decreases len - p,
                {
                    p = p + 1;
                }
                if p < len && months[p] == number {
                    assert(holds_month(months@, number as int));
                } else {
                    let ghost before = months@;
                    months.insert(p, number);
                    assert(months@[p as int] == number);
                    assert(holds_month(months@, number as int));
                    assert forall|j: int|
                        0 <= j < k && in_calendar((#[trigger] list[j]).timestamp) implies holds_month(
                        months@,
                        month_number(list[j].timestamp),
                    ) by {
                        let wanted = month_number(list[j].timestamp);
                        assert(holds_month(before, wanted));
                        let i0 = choose|i: int|
                            0 <= i < before.len() && #[trigger] before[i] == wanted;
                        if i0 < p {
                            assert(months@[i0] == wanted);
                        } else {
                            assert(months@[i0 + 1] == wanted);
                        }
                    }
                    assert forall|i: int| 0 <= i < months.len() implies month_occurs(
                        list,
                        #[trigger] months[i] as int,
                    ) by {
                        if i < p {
                            assert(months@[i] == before[i]);
                        } else if i > p {
                            assert(months@[i] == before[i - 1]);
                        }
                    }
                }
            },
            None => {},
        }
        k = k + 1;
    }
    months
}

/// Tells how `data` spreads over the clock and the calendar.
pub fn analyze_temporal_patterns(data: &Vec<WhaleTransaction>) -> (found: TemporalPatterns)
    ensures
        is_temporal_summary(found, batch_view(data@)),
{
    let ghost list = batch_view(data@);
    let hourly_distribution = tally(data, false);
    let daily_distribution = tally(data, true);
    let peak_hour = first_peak(&hourly_distribution);
    let peak_day = first_peak(&daily_distribution);
    let months = months_of(data);
    let count = months.len();
    let mut monthly_trends: Vec<MonthlyVolume> = Vec::new();
    let mut m: usize = 0;
    while m < count
        invariant
            count == months.len(),
            m <= count,
            list == batch_view(data@),
            list.len() == data.len(),
            monthly_trends.len() == m,
            forall|i: int| 0 <= i < months.len() ==> month_occurs(list, #[trigger] months[i] as int),
            forall|i: int|
                0 <= i < m ==> {
                    &&& (#[trigger] monthly_trends[i]).number() == months[i]
                    &&& 1 <= monthly_trends[i].month <= 12
                    &&& monthly_trends[i].volume == capped(
                        volume_where(list, list.len(), Selection::Month(months[i] as int)),
                    )
                },
        decreases count - m,
    {
        let number = months[m];
        let group = summarize(data, &Selector::Month(number));
        let year = match number.checked_div_euclid(12) {
            Some(y) => y,
            None => 0,
        };
        let month = match number.checked_rem_euclid(12) {
            Some(r) => (r + 1) as u32,
            None => 1,
        };
        monthly_trends.push(MonthlyVolume { year, month, volume: group.volume });
        m = m + 1;
    }
    let average_gap_between_transactions = calculate_average_gap(data);
    proof {
        let monthly = monthly_trends@;
        assert forall|j: int|
            0 <= j < list.len() && in_calendar((#[trigger] list[j]).timestamp) implies month_listed(
            monthly,
            month_number(list[j].timestamp),
        ) by {
            let wanted = month_number(list[j].timestamp);
            assert(holds_month(months@, wanted));
            let i0 = choose|i: int| 0 <= i < months.len() && #[trigger] months[i] == wanted;
            assert(monthly[i0].number() == wanted);
        }
    }
    TemporalPatterns {
        hourly_distribution,
        daily_distribution,
        monthly_trends,
        peak_hour,
        peak_day,
        average_gap_between_transactions,
    }
}

/// The z-score beyond which a volume outlier is of high severity: 3.0.
pub const VOLUME_HIGH_Z: u32 = 3_000;

/// The z-score beyond which a timing outlier is of high severity: 2.5.
pub const TIMING_HIGH_Z: u32 = 2_500;

/// Something out of the ordinary about a transaction.
#[derive(Clone, Debug, PartialEq, Eq)]
pub struct Anomaly {
    pub anomaly_type: AnomalyType,
    /// The hash of the transaction concerned; for a gap, that of the
    /// transaction the gap follows.
    pub transaction_hash: String,
    pub severity: AnomalySeverity,
    /// The z-score that makes the anomaly, in thousandths, rounded down.
    pub z_score: u64,
    /// The instant of the transaction concerned.
    pub timestamp: i64,
}

/// The mathematical content of an [`Anomaly`].
pub struct AnomalyView {
    pub anomaly_type: AnomalyType,
    pub transaction_hash: Seq<char>,
    pub severity: AnomalySeverity,
    pub z_score: nat,
    pub timestamp: int,
}

impl View for Anomaly {
    type V = AnomalyView;

    open spec fn view(&self) -> AnomalyView {
        AnomalyView {
            anomaly_type: self.anomaly_type,
            transaction_hash: self.transaction_hash@,
            severity: self.severity,
            z_score: self.z_score as nat,
            timestamp: self.timestamp as int,
        }
    }
}

/// The contents of a list of anomalies, element by element.
pub open spec fn anomaly_views(list: Seq<Anomaly>) -> Seq<AnomalyView> {
    Seq::new(list.len(), |i: int| list[i]@)
}

/// The place of a transaction made at `at` in `sorted`: behind all that
/// were made no later.
pub open spec fn slot_for(sorted: Seq<TransactionView>, at: int) -> nat
    decreases sorted.len(),
{
    if sorted.len() == 0 || sorted[0].timestamp > at {
        0
    } else {
        1 + slot_for(sorted.drop_first(), at)
    }
}

/// The first `k` transactions in the order of time; those of one instant
/// keep the order they came in.
pub open spec fn chronological(list: Seq<TransactionView>, k: nat) -> Seq<TransactionView>
    decreases k,
{
    if k == 0 {
        Seq::empty()
    } else {
        let before = chronological(list, (k - 1) as nat);
        before.insert(slot_for(before, list[k - 1].timestamp) as int, list[k - 1])
    }
}

/// `list` is in the order of time.
pub open spec fn in_time_order(list: Seq<TransactionView>) -> bool {
    forall|i: int, j: int| 0 <= i <= j < list.len() ==> list[i].timestamp <= list[j].timestamp
}

proof fn lemma_slot_is(sorted: Seq<TransactionView>, at: int, p: int)
    requires
        0 <= p <= sorted.len(),
        forall|i: int| 0 <= i < p ==> sorted[i].timestamp <= at,
        p < sorted.len() ==> sorted[p].timestamp > at,
    ensures
        slot_for(sorted, at) == p,
    decreases p,
{
    if p > 0 {
        let rest = sorted.drop_first();
        assert forall|i: int| 0 <= i < p - 1 implies rest[i].timestamp <= at by {
            assert(rest[i] == sorted[i + 1]);
        }
        if p - 1 < rest.len() {
            assert(rest[p - 1] == sorted[p]);
        }
        lemma_slot_is(rest, at, p - 1);
    }
}

proof fn lemma_slot_divides(sorted: Seq<TransactionView>, at: int)
    requires
        in_time_order(sorted),
    ensures
        slot_for(sorted, at) <= sorted.len(),
        forall|i: int| 0 <= i < slot_for(sorted, at) ==> sorted[i].timestamp <= at,
        forall|i: int| slot_for(sorted, at) <= i < sorted.len() ==> sorted[i].timestamp > at,
    decreases sorted.len(),
{
    if !(sorted.len() == 0 || sorted[0].timestamp > at) {
        let rest = sorted.drop_first();
        assert forall|i: int, j: int| 0 <= i <= j < rest.len() implies rest[i].timestamp
            <= rest[j].timestamp by {
            assert(rest[i] == sorted[i + 1]);
            assert(rest[j] == sorted[j + 1]);
        }
        lemma_slot_divides(rest, at);
        assert forall|i: int| 0 <= i < slot_for(sorted, at) implies sorted[i].timestamp <= at by {
            if i > 0 {
                assert(rest[i - 1] == sorted[i]);
            }
        }
        assert forall|i: int| slot_for(sorted, at) <= i < sorted.len() implies sorted[i].timestamp
            > at by {
            assert(rest[i - 1] == sorted[i]);
        }
    }
}

/// The chronological arrangement is in the order of time, and holds
/// exactly the transactions it was made of, each as often as it came.
pub proof fn lemma_chronological_rearranges(list: Seq<TransactionView>, k: nat)
    requires
        k <= list.len(),
    ensures
        in_time_order(chronological(list, k)),
        chronological(list, k).len() == k,
        chronological(list, k).to_multiset() == list.take(k as int).to_multiset(),
    decreases k,
{
    broadcast use vstd::seq_lib::group_to_multiset_ensures;

    if k == 0 {
        assert(list.take(0) =~= Seq::<TransactionView>::empty());
        assert(chronological(list, 0) =~= Seq::<TransactionView>::empty());
    } else {
        let before = chronological(list, (k - 1) as nat);
        let entry = list[k - 1];
        let p = slot_for(before, entry.timestamp) as int;
        let after = before.insert(p, entry);
        lemma_chronological_rearranges(list, (k - 1) as nat);
        lemma_slot_divides(before, entry.timestamp);
        assert forall|i: int, j: int| 0 <= i <= j < after.len() implies after[i].timestamp
            <= after[j].timestamp by {
            let oi = if i < p { i } else { i - 1 };
            let oj = if j < p { j } else { j - 1 };
            if i != p && j != p {
                assert(before[oi].timestamp <= before[oj].timestamp);
            }
        }
        assert(after.remove(p) =~= before);
        assert(after[p] == entry);
        assert(list.take(k as int) =~= list.take(k - 1).push(entry));
        assert(after.to_multiset() =~= before.to_multiset().insert(entry)) by {
            assert(after.remove(p).to_multiset() == after.to_multiset().remove(entry));
            assert(after.contains(entry));
        }
    }
}

/// Puts `data` in the order of time; transactions of one instant keep the
/// order they came in.
pub fn arrange_chronologically(data: &Vec<WhaleTransaction>) -> (sorted: Vec<WhaleTransaction>)
    ensures
        batch_view(sorted@) == chronological(batch_view(data@), data.len() as nat),
        in_time_order(batch_view(sorted@)),
        sorted.len() == data.len(),
{
    let n = data.len();
    let ghost list = batch_view(data@);
    let mut out: Vec<WhaleTransaction> = Vec::new();
    let mut k: usize = 0;
    while k < n
        invariant
            n == data.len(),
            list == batch_view(data@),
            k <= n,
            out.len() == k,
            batch_view(out@) == chronological(list, k as nat),
            in_time_order(batch_view(out@)),
        decreases n - k,
    {
        let entry = data[k].duplicate();
        let at = entry.timestamp;
        let mut p: usize = 0;
        while p < k && out[p].timestamp <= at
            invariant
                out.len() == k,
                p <= k,
                forall|i: int| 0 <= i < p ==> (#[trigger] batch_view(out@)[i]).timestamp <= at,
            decreases k - p,
        {
            assert(batch_view(out@)[p as int].timestamp == out[p as int].timestamp);
            p = p + 1;
        }
        let ghost before = batch_view(out@);
        proof {
            if p < k {
                assert(before[p as int].timestamp == out[p as int].timestamp);
            }
            lemma_slot_is(before, at as int, p as int);
            assert(entry@ == list[k as int]);
        }
        out.insert(p, entry);
        proof {
            let after = batch_view(out@);
            assert(after =~= before.insert(p as int, list[k as int]));
            assert forall|i: int, j: int| 0 <= i <= j < after.len() implies after[i].timestamp
                <= after[j].timestamp by {
                let oi = if i < p { i } else { i - 1 };
                let oj = if j < p { j } else { j - 1 };
                if i != p && j != p {
                    assert(before[oi].timestamp <= before[oj].timestamp);
                } else if i == p && j != p {
                    assert(before[p as int].timestamp <= before[oj].timestamp);
                }
            }
        }
        k = k + 1;
    }
    out
}

/// The values of the transactions, in their order.
pub open spec fn values_of(list: Seq<TransactionView>) -> Seq<u128> {
    Seq::new(list.len(), |i: int| list[i].value as u128)
}

/// The time from each transaction of `sorted` to the next, in seconds.
pub open spec fn gaps_of(sorted: Seq<TransactionView>) -> Seq<u128> {
    Seq::new(
        if sorted.len() == 0 {
            0
        } else {
            (sorted.len() - 1) as nat
        },
        |i: int| (sorted[i + 1].timestamp - sorted[i].timestamp) as u128,
    )
}

/// The anomalies that report the outliers `found`, each about the
/// transaction of `subjects` at the outlier's position.
pub open spec fn anomalies_from(
    kind: AnomalyType,
    subjects: Seq<TransactionView>,
    found: Seq<Outlier>,
) -> Seq<AnomalyView> {
    Seq::new(
        found.len(),
        |i: int|
            AnomalyView {
                anomaly_type: kind,
                transaction_hash: subjects[found[i].index as int].hash,
                severity: found[i].severity,
                z_score: found[i].z_score as nat,
                timestamp: subjects[found[i].index as int].timestamp,
            },
    )
}

/// The volume anomalies of a batch: the transactions whose value lies more
/// than `flag` thousandths of a standard deviation from the mean.
pub open spec fn volume_anomalies(list: Seq<TransactionView>, flag: nat) -> Seq<AnomalyView> {
    anomalies_from(
        AnomalyType::VolumeOutlier,
        list,
        outliers(values_of(list), flag, VOLUME_HIGH_Z as nat),
    )
}

/// The timing anomalies of a batch: the gaps between transactions next to
/// each other in time that lie more than `flag` thousandths of a standard
/// deviation from the mean gap, each reported about the transaction it
/// follows.
pub open spec fn timing_anomalies(list: Seq<TransactionView>, flag: nat) -> Seq<AnomalyView> {
    let sorted = chronological(list, list.len());
    anomalies_from(
        AnomalyType::TimingIrregularity,
        sorted,
        outliers(gaps_of(sorted), flag, TIMING_HIGH_Z as nat),
    )
}

/// The anomalies of a batch: those of volume, then those of timing.
pub open spec fn anomalies_of(list: Seq<TransactionView>, volume_flag: nat, timing_flag: nat) -> Seq<
    AnomalyView,
> {
    volume_anomalies(list, volume_flag) + timing_anomalies(list, timing_flag)
}

proof fn lemma_outliers_in_range(series: Seq<u128>, k: nat, flag: nat, high: nat)
    requires
        k <= usize::MAX,
    ensures
        forall|i: int|
            0 <= i < outliers_among(series, k, flag, high).len() ==> (#[trigger] outliers_among(
                series,
                k,
                flag,
                high,
            )[i]).index < k,
    decreases k,
{
    if k > 0 {
        lemma_outliers_in_range(series, (k - 1) as nat, flag, high);
    }
}

fn report_outliers(
    kind: AnomalyType,
    subjects: &Vec<WhaleTransaction>,
    found: &Vec<Outlier>,
    into: &mut Vec<Anomaly>,
)
    requires
        forall|i: int| 0 <= i < found.len() ==> (#[trigger] found[i]).index < subjects.len(),
    ensures
        anomaly_views(final(into)@) == anomaly_views(old(into)@) + anomalies_from(
            kind,
            batch_view(subjects@),
            found@,
        ),
{
    let n = found.len();
    let ghost start = anomaly_views(into@);
    let ghost expected = anomalies_from(kind, batch_view(subjects@), found@);
    let mut i: usize = 0;
    while i < n
        invariant
            n == found.len(),
            i <= n,
            forall|j: int| 0 <= j < found.len() ==> (#[trigger] found[j]).index < subjects.len(),
            expected == anomalies_from(kind, batch_view(subjects@), found@),
            anomaly_views(into@) == start + expected.take(i as int),
        decreases n - i,
    {
        let outlier = found[i];
        let subject = &subjects[outlier.index];
        let anomaly = Anomaly {
            anomaly_type: kind,
            transaction_hash: subject.hash.clone(),
            severity: outlier.severity,
            z_score: outlier.z_score,
            timestamp: subject.timestamp,
        };
        let ghost before = anomaly_views(into@);
        assert(anomaly@ == expected[i as int]);
        into.push(anomaly);
        assert(anomaly_views(into@) =~= before.push(expected[i as int]));
        assert(expected.take(i + 1) =~= expected.take(i as int).push(expected[i as int]));
        assert((start + expected.take(i as int)).push(expected[i as int]) =~= start
            + expected.take(i + 1));
        i = i + 1;
    }
    assert(expected.take(n as int) =~= expected);
}

/// The number of transactions from which on a report rests on data enough.
pub const FULL_SAMPLE: usize = 1_000;

/// What others supply to a report: two sections that are taken over as
/// they are, and how recent the data is held to be, in basis points.
#[derive(Clone, Debug, PartialEq, Eq)]
pub struct ExternalSections {
    pub ml_insights: String,
    pub risk_assessment: String,
    pub recency_confidence: u32,
}

/// Everything the analysis of a batch has found.
#[derive(Clone, Debug, PartialEq, Eq)]
pub struct ComprehensiveReport {
    pub anomaly_detection: Vec<Anomaly>,
    pub detected_patterns: Vec<WhalePattern>,
    pub temporal_patterns: TemporalPatterns,
    pub ml_insights: String,
    pub risk_assessment: String,
    /// When the report was made, in seconds since the epoch.
    pub generated_at: i64,
    /// How far the report can be relied on, in basis points.
    pub confidence_score: u32,
}

/// The confidence of a report on `sample_size` transactions, in basis
/// points: seven tenths for the share of a full sample that is there, three
/// tenths for the recency of the data (at most one), rounded down.
pub open spec fn overall_confidence(sample_size: nat, recency: nat) -> nat {
    let covered = if sample_size > FULL_SAMPLE {
        FULL_SAMPLE as nat
    } else {
        sample_size
    };
    let recent = if recency > 10_000 {
        10_000
    } else {
        recency
    };
    7 * covered + (3 * recent) / 10
}

/// The confidence of a report on `sample_size` transactions.
pub fn calculate_overall_confidence(sample_size: usize, recency_confidence: u32) -> (score: u32)
    ensures
        score == overall_confidence(sample_size as nat, recency_confidence as nat),
        score <= 10_000,
{
    let covered: u32 = if sample_size > FULL_SAMPLE {
        FULL_SAMPLE as u32
    } else {
        sample_size as u32
    };
    let recent: u32 = if recency_confidence > 10_000 {
        10_000
    } else {
        recency_confidence
    };
    7 * covered + (3 * recent) / 10
}

/// The analytics of a batch: anomalies, distributions, and the report that
/// gathers them. The thresholds are z-scores in thousandths.
#[derive(Clone, Copy, Debug, PartialEq, Eq, Structural)]
pub struct AnalyticsEngine {
    volume_z_threshold: u32,
    timing_z_threshold: u32,
}

impl AnalyticsEngine {
    /// The z-score beyond which a volume is reported.
    pub closed spec fn volume_flag(&self) -> nat {
        self.volume_z_threshold as nat
    }

    /// The z-score beyond which a gap is reported.
    pub closed spec fn timing_flag(&self) -> nat {
        self.timing_z_threshold as nat
    }

    /// An engine with the usual thresholds: 2.5 for volumes, 2.0 for gaps.
    pub fn new() -> (engine: AnalyticsEngine)
        ensures
            engine.volume_flag() == crate::DEFAULT_VOLUME_Z,
            engine.timing_flag() == crate::DEFAULT_TIMING_Z,
    {
        AnalyticsEngine {
            volume_z_threshold: crate::DEFAULT_VOLUME_Z,
            timing_z_threshold: crate::DEFAULT_TIMING_Z,
        }
    }

    /// An engine with the given thresholds.
    pub fn with_thresholds(volume_z_threshold: u32, timing_z_threshold: u32) -> (engine:
        AnalyticsEngine)
        ensures
            engine.volume_flag() == volume_z_threshold,
            engine.timing_flag() == timing_z_threshold,
    {
        AnalyticsEngine { volume_z_threshold, timing_z_threshold }
    }

    /// The outliers of a series of the given kind: volumes are held
    /// against the volume thresholds, gaps against the timing thresholds.
    /// The other kinds of anomaly are not found in a series.
    pub open spec fn outliers_of(&self, series: Seq<u128>, kind: AnomalyType) -> Seq<Outlier> {
        match kind {
            AnomalyType::VolumeOutlier => outliers(series, self.volume_flag(), VOLUME_HIGH_Z as nat),
            AnomalyType::TimingIrregularity => outliers(
                series,
                self.timing_flag(),
                TIMING_HIGH_Z as nat,
            ),
            AnomalyType::UnusualPattern => Seq::empty(),
            AnomalyType::NetworkAnomaly => Seq::empty(),
        }
    }

    /// Finds the outliers of a series of the given kind.
    pub fn detect_outliers(&self, series: &Vec<u128>, kind: AnomalyType) -> (found: Vec<Outlier>)
        ensures
            found@ == self.outliers_of(series@, kind),
    {
        match kind {
            AnomalyType::VolumeOutlier => zscore_outliers(
                series,
                self.volume_z_threshold,
                VOLUME_HIGH_Z,
            ),
            AnomalyType::TimingIrregularity => zscore_outliers(
                series,
                self.timing_z_threshold,
                TIMING_HIGH_Z,
            ),
            AnomalyType::UnusualPattern => Vec::new(),
            AnomalyType::NetworkAnomaly => Vec::new(),
        }
    }

    /// Finds the anomalies of a batch: the outliers in volume, in the order
    /// of the batch, then the outliers among the gaps between transactions
    /// next to each other in time, in the order of time.
    pub fn detect_anomalies(&self, data: &Vec<WhaleTransaction>) -> (found: Vec<Anomaly>)
        ensures
            anomaly_views(found@) == anomalies_of(
                batch_view(data@),
                self.volume_flag(),
                self.timing_flag(),
            ),
    {
        let n = data.len();
        let ghost list = batch_view(data@);
        let mut volumes: Vec<u128> = Vec::new();
        let mut k: usize = 0;
        while k < n
            invariant
                n == data.len(),
                list == batch_view(data@),
                k <= n,
                volumes@ == values_of(list).take(k as int),
            decreases n - k,
        {
            volumes.push(data[k].value);
            assert(volumes@ =~= values_of(list).take(k + 1));
            k = k + 1;
        }
        assert(values_of(list).take(n as int) =~= values_of(list));
        let by_volume = zscore_outliers(&volumes, self.volume_z_threshold, VOLUME_HIGH_Z);
        proof {
            lemma_outliers_in_range(
                volumes@,
                n as nat,
                self.volume_z_threshold as nat,
                VOLUME_HIGH_Z as nat,
            );
        }
        let mut found: Vec<Anomaly> = Vec::new();
        report_outliers(AnomalyType::VolumeOutlier, data, &by_volume, &mut found);
        assert(anomaly_views(found@) =~= volume_anomalies(list, self.volume_flag()));

        let sorted = arrange_chronologically(data);
        let ghost ordered = batch_view(sorted@);
        let mut gaps: Vec<u128> = Vec::new();
        let mut j: usize = 0;
        while j + 1 < n
            invariant
                n == sorted.len(),
                ordered == batch_view(sorted@),
                in_time_order(ordered),
                j <= n,
                n > 0 ==> j <= n - 1,
                gaps@ == gaps_of(ordered).take(j as int),
            decreases n - j,
        {
            let earlier = sorted[j].timestamp;
            let later = sorted[j + 1].timestamp;
            assert(ordered[j as int].timestamp == earlier);
            assert(ordered[j + 1].timestamp == later);
            let gap: u128 = ((later as i128) - (earlier as i128)) as u128;
            gaps.push(gap);
            assert(gaps@ =~= gaps_of(ordered).take(j + 1));
            j = j + 1;
        }
        assert(gaps@ =~= gaps_of(ordered));
        let by_timing = zscore_outliers(&gaps, self.timing_z_threshold, TIMING_HIGH_Z);
        proof {
            lemma_outliers_in_range(
                gaps@,
                gaps@.len(),
                self.timing_z_threshold as nat,
                TIMING_HIGH_Z as nat,
            );
        }
        report_outliers(AnomalyType::TimingIrregularity, &sorted, &by_timing, &mut found);
        found
    }

    /// Tells how `data` spreads over the clock and the calendar.
    pub fn analyze_temporal_patterns(&self, data: &Vec<WhaleTransaction>) -> (found:
        TemporalPatterns)
        ensures
            is_temporal_summary(found, batch_view(data@)),
    {
        analyze_temporal_patterns(data)
    }

    /// Makes the report on a batch: its anomalies and its distributions,
    /// the patterns found in it, and what others supply.
    pub fn generate_comprehensive_report(
        &self,
        data: &Vec<WhaleTransaction>,
        patterns: Vec<WhalePattern>,
        external: ExternalSections,
        generated_at: i64,
    ) -> (report: ComprehensiveReport)
        ensures
            anomaly_views(report.anomaly_detection@) == anomalies_of(
                batch_view(data@),
                self.volume_flag(),
                self.timing_flag(),
            ),
            report.detected_patterns == patterns,
            is_temporal_summary(report.temporal_patterns, batch_view(data@)),
            report.ml_insights == external.ml_insights,
            report.risk_assessment == external.risk_assessment,
            report.generated_at == generated_at,
            report.confidence_score == overall_confidence(
                data.len() as nat,
                external.recency_confidence as nat,
            ),
    {
        let anomaly_detection = self.detect_anomalies(data);
        let temporal_patterns = analyze_temporal_patterns(data);
        let confidence_score = calculate_overall_confidence(
            data.len(),
            external.recency_confidence,
        );
        ComprehensiveReport {
            anomaly_detection,
            detected_patterns: patterns,
            temporal_patterns,
            ml_insights: external.ml_insights,
            risk_assessment: external.risk_assessment,
            generated_at,
            confidence_score,
        }
    }
}

} // verus!
