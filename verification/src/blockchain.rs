//! Collection from several sources: the sliding-window rate limiter that
//! gates each source, and the merge of what the sources delivered.

use vstd::prelude::*;

use crate::order::{lemma_text_transitive, lemma_text_trichotomy, precedes, text_before};
use crate::{batch_view, texts, NetworkConfig, TransactionView, WhaleTransaction, ZKWatchError};

verus! {

/// The instant at which a request made at `now` is admitted, given the
/// admissions `recent` still on record, oldest first.
///
/// A request is never admitted before an earlier one, and when `limit`
/// admissions are on record it is admitted no sooner than `window` after the
/// oldest of them.
pub open spec fn admission_instant(recent: Seq<u64>, limit: nat, window: nat, now: int) -> int {
    let base = if recent.len() > 0 && recent.last() > now {
        recent.last() as int
    } else {
        now
    };
    if limit > 0 && recent.len() >= limit && recent[recent.len() - limit] + window > base {
        recent[recent.len() - limit] + window
    } else {
        base
    }
}

/// How many of the oldest entries of `recent` are at least `window` old at
/// the instant `at`.
pub open spec fn expired_count(recent: Seq<u64>, window: nat, at: int) -> nat
    decreases recent.len(),
{
    if recent.len() == 0 || at - recent[0] < window {
        0
    } else {
        1 + expired_count(recent.drop_first(), window, at)
    }
}

/// The admissions on record after one more is granted at the instant `at`:
/// the expired ones leave from the front, the new one joins at the back.
pub open spec fn record_after(recent: Seq<u64>, window: nat, at: u64) -> Seq<u64> {
    recent.skip(expired_count(recent, window, at as int) as int).push(at)
}

/// `recent` is in ascending order.
pub open spec fn ascending(recent: Seq<u64>) -> bool {
    forall|i: int, j: int| 0 <= i <= j < recent.len() ==> recent[i] <= recent[j]
}

/// Characterises `expired_count`: it is the position up to which the
/// entries are expired and at which the first entry stands that is not.
pub proof fn lemma_expired_count_is(recent: Seq<u64>, window: nat, at: int, k: int)
    requires
        0 <= k <= recent.len(),
        forall|i: int| 0 <= i < k ==> at - recent[i] >= window,
        k < recent.len() ==> at - recent[k] < window,
    ensures
        expired_count(recent, window, at) == k,
    decreases k,
{
    if k > 0 {
        let rest = recent.drop_first();
        assert forall|i: int| 0 <= i < k - 1 implies at - rest[i] >= window by {
            assert(rest[i] == recent[i + 1]);
        }
        if k - 1 < rest.len() {
            assert(rest[k - 1] == recent[k]);
        }
        lemma_expired_count_is(rest, window, at, k - 1);
    }
}

/// The instants at which the requests made at `nows`, one after the other,
/// are admitted by a limiter whose record is `recent`. A request whose
/// admission instant lies beyond the clock's range is refused and leaves no
/// trace.
pub open spec fn admissions(recent: Seq<u64>, limit: nat, window: nat, nows: Seq<u64>) -> Seq<u64>
    decreases nows.len(),
{
    if nows.len() == 0 {
        Seq::empty()
    } else {
        let at = admission_instant(recent, limit, window, nows[0] as int);
        if at > u64::MAX {
            admissions(recent, limit, window, nows.drop_first())
        } else {
            seq![at as u64] + admissions(
                record_after(recent, window, at as u64),
                limit,
                window,
                nows.drop_first(),
            )
        }
    }
}

/// Any two admissions that are `limit` or more places apart in `history`
/// are at least one `window` apart in time.
pub open spec fn spaced(history: Seq<u64>, limit: nat, window: nat) -> bool {
    forall|i: int, j: int|
        0 <= i < j < history.len() && j - i >= limit ==> history[j] - history[i] >= window
}

/// `instant` lies in the span `(lo, hi]`.
pub open spec fn within(instant: u64, lo: int, hi: int) -> bool {
    lo < instant <= hi
}

/// The number of admissions in `history` that fall in the span `(lo, hi]`.
pub open spec fn admitted_within(history: Seq<u64>, lo: int, hi: int) -> nat
    decreases history.len(),
{
    if history.len() == 0 {
        0
    } else {
        let counted: nat = if within(history.last(), lo, hi) {
            1
        } else {
            0
        };
        admitted_within(history.drop_last(), lo, hi) + counted
    }
}

proof fn lemma_expired_are_old(recent: Seq<u64>, window: nat, at: int)
    ensures
        expired_count(recent, window, at) <= recent.len(),
        forall|i: int| 0 <= i < expired_count(recent, window, at) ==> at - recent[i] >= window,
    decreases recent.len(),
{
    if !(recent.len() == 0 || at - recent[0] < window) {
        let rest = recent.drop_first();
        lemma_expired_are_old(rest, window, at);
        assert forall|i: int| 0 <= i < expired_count(recent, window, at) implies at - recent[i]
            >= window by {
            if i > 0 {
                assert(rest[i - 1] == recent[i]);
            }
        }
    }
}

/// What ties the record of a limiter to everything it ever admitted.
spec fn record_of(history: Seq<u64>, recent: Seq<u64>, limit: nat, window: nat) -> bool {
    &&& limit >= 1
    &&& ascending(history)
    &&& spaced(history, limit, window)
    &&& recent.len() <= limit
    &&& recent.len() <= history.len()
    &&& recent.len() == 0 ==> history.len() == 0
    &&& recent == history.skip(history.len() - recent.len())
    &&& forall|i: int|
        0 <= i < history.len() - recent.len() ==> history.last() - history[i] >= window
}

proof fn lemma_history_stays_spaced(
    history: Seq<u64>,
    recent: Seq<u64>,
    limit: nat,
    window: nat,
    nows: Seq<u64>,
)
    requires
        record_of(history, recent, limit, window),
    ensures
        ascending(history + admissions(recent, limit, window, nows)),
        spaced(history + admissions(recent, limit, window, nows), limit, window),
    decreases nows.len(),
{
    if nows.len() == 0 {
        assert(history + admissions(recent, limit, window, nows) == history);
    } else {
        let at = admission_instant(recent, limit, window, nows[0] as int);
        let rest = nows.drop_first();
        if at > u64::MAX {
            lemma_history_stays_spaced(history, recent, limit, window, rest);
        } else {
            let n = history.len() as int;
            let len = recent.len() as int;
            let k = expired_count(recent, window, at) as int;
            let longer = history.push(at as u64);
            let next = record_after(recent, window, at as u64);
            lemma_expired_are_old(recent, window, at);
            assert forall|i: int| 0 <= i < len implies recent[i] == history[n - len + i] by {}
            if len > 0 {
                assert(recent.last() == history.last());
            }
            if len >= limit {
                assert(at - recent[0] >= window);
                assert(k >= 1);
            }
            assert(ascending(longer));
            assert forall|i: int, j: int|
                0 <= i < j < longer.len() && j - i >= limit implies longer[j] - longer[i]
                >= window by {
                if j == n {
                    if i >= n - len {
                        assert(history[i] == recent[i - (n - len)]);
                    }
                }
            }
            assert(next == longer.skip(longer.len() - next.len()));
            assert forall|i: int| 0 <= i < longer.len() - next.len() implies longer.last()
                - longer[i] >= window by {
                if i >= n - len {
                    assert(history[i] == recent[i - (n - len)]);
                }
            }
            lemma_history_stays_spaced(longer, next, limit, window, rest);
            assert(history + admissions(recent, limit, window, nows) == longer + admissions(
                next,
                limit,
                window,
                rest,
            ));
        }
    }
}

proof fn lemma_count_skips_outsiders(history: Seq<u64>, lo: int, hi: int, m: int)
    requires
        0 <= m <= history.len(),
        forall|i: int| 0 <= i < m ==> !within(#[trigger] history[i], lo, hi),
    ensures
        admitted_within(history, lo, hi) <= history.len() - m,
    decreases history.len(),
{
    if history.len() > 0 {
        let shorter = history.drop_last();
        if m < history.len() {
            lemma_count_skips_outsiders(shorter, lo, hi, m);
        } else {
            lemma_count_skips_outsiders(shorter, lo, hi, m - 1);
        }
    }
}

/// On an ascending, spaced history no span of one window holds more than
/// `limit` admissions.
pub proof fn lemma_spaced_bounds_every_window(
    history: Seq<u64>,
    limit: nat,
    window: nat,
    lo: int,
    hi: int,
)
    requires
        limit >= 1,
        ascending(history),
        spaced(history, limit, window),
        hi - lo <= window,
    ensures
        admitted_within(history, lo, hi) <= limit,
    decreases history.len(),
{
    let n = history.len() as int;
    if n <= limit {
        lemma_count_skips_outsiders(history, lo, hi, 0);
    } else if within(history.last(), lo, hi) {
        assert forall|i: int| 0 <= i < n - limit implies !within(#[trigger] history[i], lo, hi) by {
            assert(history[n - 1] - history[i] >= window);
        }
        lemma_count_skips_outsiders(history, lo, hi, n - limit);
    } else {
        let shorter = history.drop_last();
        assert(ascending(shorter));
        assert(spaced(shorter, limit, window));
        lemma_spaced_bounds_every_window(shorter, limit, window, lo, hi);
    }
}

/// Sliding-window admission control for one source.
///
/// Instants and the window are in one unit of the caller's monotonic clock
/// (milliseconds, say). The limiter only decides; it neither reads a clock
/// nor sleeps. Deciding takes the limiter exclusively, so callers that
/// share one have to take turns; the order in which their requests arrive
/// does not matter to what is guaranteed.
pub struct RateLimiter {
    max_requests: u64,
    window: u64,
    requests: Vec<u64>,
}

impl RateLimiter {
    /// The number of admissions allowed in any span of one window.
    pub closed spec fn limit(&self) -> nat {
        self.max_requests as nat
    }

    /// The length of the window.
    pub closed spec fn window_len(&self) -> nat {
        self.window as nat
    }

    /// The admission instants on record, oldest first.
    pub closed spec fn recorded(&self) -> Seq<u64> {
        self.requests@
    }

    /// The invariant of a limiter: at least one admission is allowed, no more
    /// than the limit are on record, they are in order, and all but the
    /// newest are younger than one window at the newest.
    pub open spec fn wf(&self) -> bool {
        &&& self.limit() >= 1
        &&& self.recorded().len() <= self.limit()
        &&& ascending(self.recorded())
        &&& forall|i: int|
            0 <= i < self.recorded().len() - 1 ==> self.recorded().last() - self.recorded()[i]
                < self.window_len()
    }

    /// A limiter that admits at most `max_requests` requests in any span of
    /// `window`. A limit of zero would let nothing through and is refused.
    pub fn new(max_requests: u64, window: u64) -> (made: Result<RateLimiter, ZKWatchError>)
        ensures
            max_requests == 0 <==> made is Err,
            made matches Err(e) ==> e is ConfigurationInvalid,
            made matches Ok(limiter) ==> {
                &&& limiter.wf()
                &&& limiter.limit() == max_requests
                &&& limiter.window_len() == window
                &&& limiter.recorded() == Seq::<u64>::empty()
            },
    {
        if max_requests == 0 {
            Err(ZKWatchError::ConfigurationInvalid)
        } else {
            Ok(RateLimiter { max_requests, window, requests: Vec::new() })
        }
    }

    /// The configured limit.
    pub fn max_requests(&self) -> (n: u64)
        ensures
            n == self.limit(),
    {
        self.max_requests
    }

    /// The configured window.
    pub fn window(&self) -> (w: u64)
        ensures
            w == self.window_len(),
    {
        self.window
    }

    /// How many admissions are on record.
    pub fn pending(&self) -> (n: usize)
        ensures
            n == self.recorded().len(),
    {
        self.requests.len()
    }

    /// Decides a request made at `now`: returns how long the caller has to
    /// wait before it may proceed, and records the instant at which it does.
    ///
    /// Fails, leaving the record untouched, exactly when that instant lies
    /// beyond the clock's range.
    pub fn wait(&mut self, now: u64) -> (decision: Result<u64, ZKWatchError>)
        requires
            old(self).wf(),
        ensures
            final(self).wf(),
            final(self).limit() == old(self).limit(),
            final(self).window_len() == old(self).window_len(),
            decision is Ok <==> admission_instant(
                old(self).recorded(),
                old(self).limit(),
                old(self).window_len(),
                now as int,
            ) <= u64::MAX,
            decision matches Ok(delay) ==> {
                let at = admission_instant(
                    old(self).recorded(),
                    old(self).limit(),
                    old(self).window_len(),
                    now as int,
                );
                &&& delay == at - now
                &&& final(self).recorded() == record_after(
                    old(self).recorded(),
                    old(self).window_len(),
                    at as u64,
                )
            },
            decision matches Err(e) ==> e is RateLimiterClockFailure && final(self).recorded() == old(
                self,
            ).recorded(),
    {
        let len = self.requests.len();
        let mut at: u64 = now;
        if len > 0 && self.requests[len - 1] > now {
            at = self.requests[len - 1];
        }
        if len as u64 >= self.max_requests {
            let oldest = self.requests[0];
            match oldest.checked_add(self.window) {
                Some(earliest) => {
                    if earliest > at {
                        at = earliest;
                    }
                },
                None => {
                    return Err(ZKWatchError::RateLimiterClockFailure);
                },
            }
        }
        let mut kept: usize = 0;
        while kept < len && at - self.requests[kept] >= self.window
            invariant
                len == self.requests.len(),
                0 <= kept <= len,
                ascending(self.requests@),
                len > 0 ==> self.requests[len - 1] <= at,
                forall|i: int| 0 <= i < kept ==> at - self.requests[i] >= self.window,
            decreases len - kept,
        {
            kept = kept + 1;
        }
        proof {
            lemma_expired_count_is(self.requests@, self.window as nat, at as int, kept as int);
        }
        let mut fresh: Vec<u64> = Vec::new();
        let mut i: usize = kept;
        while i < len
            invariant
                len == self.requests.len(),
                kept <= i <= len,
                fresh@ == self.requests@.subrange(kept as int, i as int),
            decreases len - i,
        {
            fresh.push(self.requests[i]);
            i = i + 1;
        }
        fresh.push(at);
        assert(self.requests@.subrange(kept as int, len as int) == self.requests@.skip(kept as int));
        self.requests = fresh;
        Ok(at - now)
    }
}

/// The order of a scan's result: newest first, and among transactions of
/// one instant by hash.
pub open spec fn scan_before(a: TransactionView, b: TransactionView) -> bool {
    a.timestamp > b.timestamp || (a.timestamp == b.timestamp && text_before(a.hash, b.hash))
}

/// `list` is in scan order, strictly.
pub open spec fn scan_sorted(list: Seq<TransactionView>) -> bool {
    forall|i: int, j: int| 0 <= i < j < list.len() ==> scan_before(list[i], list[j])
}

/// No hash occurs twice in `list`.
pub open spec fn distinct_hashes(list: Seq<TransactionView>) -> bool {
    forall|i: int, j: int| 0 <= i < j < list.len() ==> list[i].hash != list[j].hash
}

/// How far the instant of `t` lies from `now`, in either direction.
pub open spec fn distance(t: TransactionView, now: int) -> int {
    if t.timestamp >= now {
        t.timestamp - now
    } else {
        now - t.timestamp
    }
}

/// Of two reports the one nearer to `now` is preferred, and of two equally
/// near the one that was delivered first.
pub open spec fn preferred_to(reports: Seq<TransactionView>, j: int, k: int, now: int) -> bool {
    distance(reports[j], now) < distance(reports[k], now) || (distance(reports[j], now)
        == distance(reports[k], now) && j < k)
}

/// Report `k` is the one that is kept for its hash: it is preferred to every
/// other report of the same hash.
pub open spec fn is_kept(reports: Seq<TransactionView>, k: int, now: int) -> bool {
    &&& 0 <= k < reports.len()
    &&& forall|j: int|
        0 <= j < reports.len() && j != k && #[trigger] reports[j].hash == reports[k].hash
            ==> preferred_to(reports, k, j, now)
}

/// `entry` is one of `reports`, and the one kept for its hash.
pub open spec fn is_kept_report(entry: TransactionView, reports: Seq<TransactionView>, now: int) -> bool {
    exists|k: int| #[trigger] is_kept(reports, k, now) && entry == reports[k]
}

/// Some entry of `list` has the hash `hash`.
pub open spec fn holds_hash(list: Seq<TransactionView>, hash: Seq<char>) -> bool {
    exists|i: int| 0 <= i < list.len() && (#[trigger] list[i]).hash == hash
}

/// `merged` is the merge of `reports`: in scan order, one entry for each
/// hash that was reported, and that entry the report kept for the hash.
pub open spec fn is_merge_of(
    merged: Seq<TransactionView>,
    reports: Seq<TransactionView>,
    now: int,
) -> bool {
    &&& scan_sorted(merged)
    &&& distinct_hashes(merged)
    &&& forall|i: int| 0 <= i < merged.len() ==> is_kept_report(#[trigger] merged[i], reports, now)
    &&& forall|k: int| 0 <= k < reports.len() ==> holds_hash(merged, (#[trigger] reports[k]).hash)
}

/// Some report with the hash `hash` is the one kept for it.
spec fn has_kept(reports: Seq<TransactionView>, hash: Seq<char>, now: int) -> bool {
    exists|w: int| #[trigger] is_kept(reports, w, now) && reports[w].hash == hash
}

/// Two transactions with different hashes are ordered one way or the other.
pub proof fn lemma_scan_order_total(a: TransactionView, b: TransactionView)
    requires
        a.hash != b.hash,
    ensures
        scan_before(a, b) || scan_before(b, a),
{
    lemma_text_trichotomy(a.hash, b.hash);
}

/// The scan order is transitive.
pub proof fn lemma_scan_order_transitive(a: TransactionView, b: TransactionView, c: TransactionView)
    requires
        scan_before(a, b),
        scan_before(b, c),
    ensures
        scan_before(a, c),
{
    if a.timestamp == b.timestamp && b.timestamp == c.timestamp {
        lemma_text_transitive(a.hash, b.hash, c.hash);
    }
}

/// Decides the scan order of two transactions.
pub fn in_scan_order(a: &WhaleTransaction, b: &WhaleTransaction) -> (before: bool)
    ensures
        before == scan_before(a@, b@),
{
    a.timestamp > b.timestamp || (a.timestamp == b.timestamp && precedes(&a.hash, &b.hash))
}

fn gap_to(t: &WhaleTransaction, now: i64) -> (d: i128)
    ensures
        d == distance(t@, now as int),
{
    let at = t.timestamp as i128;
    let reference = now as i128;
    if at >= reference {
        at - reference
    } else {
        reference - at
    }
}

/// The report that is kept for the hash of report `k`.
fn kept_for(reports: &Vec<WhaleTransaction>, k: usize, now: i64) -> (best: usize)
    requires
        k < reports.len(),
    ensures
        is_kept(batch_view(reports@), best as int, now as int),
        reports[best as int].hash@ == reports[k as int].hash@,
{
    let n = reports.len();
    let ghost all = batch_view(reports@);
    let mut best: usize = k;
    let mut best_gap = gap_to(&reports[k], now);
    let mut j: usize = 0;
    while j < n
        invariant
            n == reports.len(),
            all == batch_view(reports@),
            j <= n,
            best < n,
            k < n,
            best_gap == distance(all[best as int], now as int),
            all[best as int].hash == all[k as int].hash,
            forall|i: int|
                0 <= i < j && i != best && #[trigger] all[i].hash == all[best as int].hash
                    ==> preferred_to(all, best as int, i, now as int),
        decreases n - j,
    {
        if j != best && reports[j].hash == reports[best].hash {
            let gap = gap_to(&reports[j], now);
            if gap < best_gap || (gap == best_gap && j < best) {
                best = j;
                best_gap = gap;
            }
        }
        j = j + 1;
    }
    best
}

/// Merges what the sources reported: of the reports of one hash the one
/// nearest to `now` is kept (the first delivered, if several are as near),
/// and the kept reports are put in scan order.
pub fn merge_reports(reports: &Vec<WhaleTransaction>, now: i64) -> (merged: Vec<WhaleTransaction>)
    ensures
        is_merge_of(batch_view(merged@), batch_view(reports@), now as int),
{
    let n = reports.len();
    let ghost all = batch_view(reports@);
    let ghost at = now as int;
    let mut out: Vec<WhaleTransaction> = Vec::new();
    let ghost mut origin: Seq<int> = Seq::empty();
    let mut k: usize = 0;
    while k < n
        invariant
            n == reports.len(),
            all == batch_view(reports@),
            at == now as int,
            k <= n,
            origin.len() == out.len(),
            scan_sorted(batch_view(out@)),
            forall|i: int|
                0 <= i < out.len() ==> 0 <= #[trigger] origin[i] < k && is_kept(all, origin[i], at)
                    && out[i]@ == all[origin[i]],
            forall|w: int|
                0 <= w < k && #[trigger] is_kept(all, w, at) ==> exists|i: int|
                    0 <= i < origin.len() && #[trigger] origin[i] == w,
            forall|m: int| 0 <= m < k ==> has_kept(all, (#[trigger] all[m]).hash, at),
        decreases n - k,
    {
        let best = kept_for(reports, k, now);
        if best == k {
            let entry = reports[k].duplicate();
            let len = out.len();
            let mut p: usize = 0;
            while p < len && in_scan_order(&out[p], &entry)
                invariant
                    len == out.len(),
                    p <= len,
                    forall|i: int| 0 <= i < p ==> scan_before(#[trigger] out[i]@, entry@),
                decreases len - p,
            {
                p = p + 1;
            }
            let ghost before = out@;
            let ghost origin_before = origin;
            proof {
                assert forall|j: int| p <= j < len implies scan_before(
                    entry@,
                    #[trigger] before[j]@,
                ) by {
                    let o = origin_before[p as int];
                    assert(is_kept(all, o, at));
                    assert(before[p as int]@ == all[o]);
                    if all[o].hash == all[k as int].hash {
                        assert(preferred_to(all, o, k as int, at));
                        assert(preferred_to(all, k as int, o, at));
                    }
                    lemma_scan_order_total(entry@, before[p as int]@);
                    if j > p {
                        assert(scan_before(
                            batch_view(before)[p as int],
                            batch_view(before)[j],
                        ));
                        lemma_scan_order_transitive(entry@, before[p as int]@, before[j]@);
                    }
                }
            }
            out.insert(p, entry);
            proof {
                origin = origin_before.insert(p as int, k as int);
                let now_out = batch_view(out@);
                assert forall|i: int, j: int| 0 <= i < j < now_out.len() implies scan_before(
                    now_out[i],
                    now_out[j],
                ) by {
                    let oi = if i < p { i } else { i - 1 };
                    let oj = if j < p { j } else { j - 1 };
                    if i != p && j != p {
                        assert(scan_before(batch_view(before)[oi], batch_view(before)[oj]));
                    }
                }
                assert forall|w: int| 0 <= w < k + 1 && #[trigger] is_kept(all, w, at) implies exists|
                    i: int,
                |
                    0 <= i < origin.len() && #[trigger] origin[i] == w by {
                    if w == k {
                        assert(origin[p as int] == w);
                    } else {
                        let i0 = choose|i: int|
                            0 <= i < origin_before.len() && #[trigger] origin_before[i] == w;
                        if i0 < p {
                            assert(origin[i0] == w);
                        } else {
                            assert(origin[i0 + 1] == w);
                        }
                    }
                }
            }
        } else {
            proof {
                assert(all[k as int].hash == all[best as int].hash);
                assert(preferred_to(all, best as int, k as int, at));
                assert(!is_kept(all, k as int, at)) by {
                    if is_kept(all, k as int, at) {
                        assert(all[best as int].hash == all[k as int].hash);
                        assert(preferred_to(all, k as int, best as int, at));
                    }
                }
            }
        }
        proof {
            assert(is_kept(all, best as int, at) && all[best as int].hash == all[k as int].hash);
        }
        k = k + 1;
    }
    proof {
        let merged = batch_view(out@);
        assert forall|i: int, j: int| 0 <= i < j < merged.len() implies merged[i].hash
            != merged[j].hash by {
            let a = origin[i];
            let b = origin[j];
            assert(scan_before(merged[i], merged[j]));
            lemma_text_trichotomy(merged[i].hash, merged[j].hash);
            if merged[i].hash == merged[j].hash {
                if a != b {
                    assert(preferred_to(all, a, b, at));
                    assert(preferred_to(all, b, a, at));
                }
            }
        }
        assert forall|i: int| 0 <= i < merged.len() implies is_kept_report(
            #[trigger] merged[i],
            all,
            at,
        ) by {
            assert(is_kept(all, origin[i], at) && merged[i] == all[origin[i]]);
        }
        assert forall|m: int| 0 <= m < all.len() implies holds_hash(
            merged,
            (#[trigger] all[m]).hash,
        ) by {
            assert(has_kept(all, all[m].hash, at));
            let w = choose|w: int| #[trigger] is_kept(all, w, at) && all[w].hash == all[m].hash;
            let i = choose|i: int| 0 <= i < origin.len() && #[trigger] origin[i] == w;
            assert(merged[i].hash == all[m].hash);
        }
    }
    out
}

/// The kinds of value that can be extracted from the ordering of
/// transactions.
#[derive(Clone, Copy, Debug, PartialEq, Eq, Structural)]
pub enum MEVType {
    Arbitrage,
    Liquidation,
    Sandwich,
    FrontRun,
}

/// Admissions a scanner allows each source per window unless told otherwise.
pub const DEFAULT_MAX_REQUESTS: u64 = 100;

/// The window of a scanner's rate limiters unless told otherwise, in
/// milliseconds.
pub const DEFAULT_WINDOW_MILLIS: u64 = 60_000;

/// What the sources handed over, one entry per source in the order the
/// sources are configured; `None` where a source failed or timed out.
pub type Deliveries = Vec<Option<Vec<WhaleTransaction>>>;

/// Source `i` delivered something.
pub open spec fn delivered(fetched: Seq<Option<Vec<WhaleTransaction>>>, i: int) -> bool {
    0 <= i < fetched.len() && fetched[i] is Some
}

/// Source `i` is the first of the `count` sources that delivered nothing.
pub open spec fn is_first_failure(
    fetched: Seq<Option<Vec<WhaleTransaction>>>,
    i: int,
    count: int,
) -> bool {
    &&& 0 <= i < count
    &&& !delivered(fetched, i)
    &&& forall|j: int| 0 <= j < i ==> delivered(fetched, j)
}

/// The names of those among the first `m` sources that delivered nothing.
pub open spec fn failed_sources(
    names: Seq<Seq<char>>,
    fetched: Seq<Option<Vec<WhaleTransaction>>>,
    m: nat,
) -> Seq<Seq<char>>
    decreases m,
{
    if m == 0 {
        Seq::empty()
    } else {
        let before = failed_sources(names, fetched, (m - 1) as nat);
        if delivered(fetched, m - 1) {
            before
        } else {
            before.push(names[m - 1])
        }
    }
}

/// Those among the first `k` entries of `list` whose value is at least
/// `min_value`, in the order of the list.
pub open spec fn large_among(list: Seq<TransactionView>, k: nat, min_value: nat) -> Seq<
    TransactionView,
>
    decreases k,
{
    if k == 0 {
        Seq::empty()
    } else {
        let before = large_among(list, (k - 1) as nat, min_value);
        if list[k - 1].value >= min_value {
            before.push(list[k - 1])
        } else {
            before
        }
    }
}

/// Everything of value `min_value` or more that the first `m` sources
/// delivered, source after source.
pub open spec fn gathered(
    fetched: Seq<Option<Vec<WhaleTransaction>>>,
    m: nat,
    min_value: nat,
) -> Seq<TransactionView>
    decreases m,
{
    if m == 0 {
        Seq::empty()
    } else {
        let before = gathered(fetched, (m - 1) as nat, min_value);
        if delivered(fetched, m - 1) {
            let list = batch_view(fetched[m - 1]->0@);
            before + large_among(list, list.len(), min_value)
        } else {
            before
        }
    }
}

/// The result of a scan: the merged transactions, and the names of the
/// sources that could not be queried.
#[derive(Debug)]
pub struct ScanOutcome {
    pub transactions: Vec<WhaleTransaction>,
    pub unavailable: Vec<String>,
}

/// Scans several sources, each behind a rate limiter of its own.
///
/// The scanner decides and computes; querying a source and waiting are the
/// caller's part. For each source in turn the caller asks [`Self::reserve`]
/// how long to wait, waits, queries the source, and at the end hands all
/// that was delivered to [`Self::scan_whale_transactions`].
pub struct MultiChainScanner {
    networks: Vec<NetworkConfig>,
    rate_limiters: Vec<RateLimiter>,
}

impl MultiChainScanner {
    /// The configured sources, in order.
    pub closed spec fn sources(&self) -> Seq<NetworkConfig> {
        self.networks@
    }

    /// The rate limiters, one per source.
    pub closed spec fn limiters(&self) -> Seq<RateLimiter> {
        self.rate_limiters@
    }

    /// The names of the configured sources, in order.
    pub open spec fn names(&self) -> Seq<Seq<char>> {
        Seq::new(self.sources().len(), |i: int| self.sources()[i].name@)
    }

    /// Every source has its limiter, and every limiter is in order.
    pub open spec fn wf(&self) -> bool {
        &&& self.limiters().len() == self.sources().len()
        &&& forall|i: int| 0 <= i < self.limiters().len() ==> (#[trigger] self.limiters()[i]).wf()
    }

    /// A scanner over `networks` that allows each of them `max_requests`
    /// requests per `window`. A limit of zero is refused.
    pub fn with_limits(networks: Vec<NetworkConfig>, max_requests: u64, window: u64) -> (made:
        Result<MultiChainScanner, ZKWatchError>)
        ensures
            max_requests == 0 <==> made is Err,
            made matches Err(e) ==> e is ConfigurationInvalid,
            made matches Ok(scanner) ==> {
                &&& scanner.wf()
                &&& scanner.sources() == networks@
                &&& forall|i: int|
                    0 <= i < networks.len() ==> {
                        &&& (#[trigger] scanner.limiters()[i]).limit() == max_requests
                        &&& scanner.limiters()[i].window_len() == window
                        &&& scanner.limiters()[i].recorded() == Seq::<u64>::empty()
                    }
            },
    {
        if max_requests == 0 {
            return Err(ZKWatchError::ConfigurationInvalid);
        }
        let n = networks.len();
        let mut rate_limiters: Vec<RateLimiter> = Vec::new();
        let mut i: usize = 0;
        while i < n
            invariant
                max_requests != 0,
                i <= n,
                rate_limiters.len() == i,
                forall|j: int|
                    0 <= j < i ==> {
                        &&& (#[trigger] rate_limiters[j]).wf()
                        &&& rate_limiters[j].limit() == max_requests
                        &&& rate_limiters[j].window_len() == window
                        &&& rate_limiters[j].recorded() == Seq::<u64>::empty()
                    },
            decreases n - i,
        {
            match RateLimiter::new(max_requests, window) {
                Ok(limiter) => {
                    rate_limiters.push(limiter);
                },
                Err(e) => {
                    return Err(e);
                },
            }
            i = i + 1;
        }
        Ok(MultiChainScanner { networks, rate_limiters })
    }

    /// A scanner over `networks` with the default limit of
    /// [`DEFAULT_MAX_REQUESTS`] requests per [`DEFAULT_WINDOW_MILLIS`].
    pub fn new(networks: Vec<NetworkConfig>) -> (scanner: MultiChainScanner)
        ensures
            scanner.wf(),
            scanner.sources() == networks@,
            forall|i: int|
                0 <= i < networks.len() ==> {
                    &&& (#[trigger] scanner.limiters()[i]).limit() == DEFAULT_MAX_REQUESTS
                    &&& scanner.limiters()[i].window_len() == DEFAULT_WINDOW_MILLIS
                    &&& scanner.limiters()[i].recorded() == Seq::<u64>::empty()
                },
    {
        let made = MultiChainScanner::with_limits(
            networks,
            DEFAULT_MAX_REQUESTS,
            DEFAULT_WINDOW_MILLIS,
        );
        made.unwrap()
    }

    /// The number of configured sources.
    pub fn source_count(&self) -> (n: usize)
        ensures
            n == self.sources().len(),
    {
        self.networks.len()
    }

    /// The configured sources.
    pub fn networks(&self) -> (list: &Vec<NetworkConfig>)
        ensures
            list@ == self.sources(),
    {
        &self.networks
    }

    /// Asks the limiter of source `source` to decide a request made at
    /// `now`: the answer is how long to wait before querying the source.
    ///
    /// Fails with `ConfigurationInvalid` where there is no such source, and
    /// as the limiter does where the clock is out of range; the scanner is
    /// then unchanged.
    pub fn reserve(&mut self, source: usize, now: u64) -> (decision: Result<u64, ZKWatchError>)
        requires
            old(self).wf(),
        ensures
            final(self).wf(),
            final(self).sources() == old(self).sources(),
            final(self).limiters().len() == old(self).limiters().len(),
            forall|i: int|
                0 <= i < old(self).limiters().len() && i != source ==> final(self).limiters()[i]
                    == old(self).limiters()[i],
            source >= old(self).limiters().len() ==> (decision matches Err(e)
                && e is ConfigurationInvalid),
            source < old(self).limiters().len() ==> {
                let before = old(self).limiters()[source as int];
                let after = final(self).limiters()[source as int];
                let at = admission_instant(
                    before.recorded(),
                    before.limit(),
                    before.window_len(),
                    now as int,
                );
                &&& after.limit() == before.limit()
                &&& after.window_len() == before.window_len()
                &&& decision is Ok <==> at <= u64::MAX
                &&& (decision matches Ok(delay) ==> delay == at - now && after.recorded()
                    == record_after(before.recorded(), before.window_len(), at as u64))
                &&& (decision matches Err(e) ==> e is RateLimiterClockFailure && after.recorded()
                    == before.recorded())
            },
    {
        if source >= self.rate_limiters.len() {
            return Err(ZKWatchError::ConfigurationInvalid);
        }
        self.rate_limiters[source].wait(now)
    }

    /// Turns what the sources delivered into the result of the scan.
    ///
    /// Only transactions of value `min_value` or more count. A source for
    /// which `fetched` holds `None`, or nothing at all, could not be
    /// queried. With `abort_on_failure` the first such source fails the
    /// scan; without it the scan goes on and names those sources in its
    /// outcome. The transactions are merged as [`merge_reports`] says.
    pub fn scan_whale_transactions(
        &self,
        fetched: &Deliveries,
        min_value: u128,
        now: i64,
        abort_on_failure: bool,
    ) -> (scan: Result<ScanOutcome, ZKWatchError>)
        ensures
            scan is Err <==> abort_on_failure && exists|i: int|
                0 <= i < self.sources().len() && !#[trigger] delivered(fetched@, i),
            scan matches Err(e) ==> (e matches ZKWatchError::SourceUnavailable(name) && exists|
                i: int,
            |
                #[trigger] is_first_failure(fetched@, i, self.sources().len() as int) && name@
                    == self.names()[i]),
            scan matches Ok(outcome) ==> {
                &&& texts(outcome.unavailable@) == failed_sources(
                    self.names(),
                    fetched@,
                    self.sources().len(),
                )
                &&& is_merge_of(
                    batch_view(outcome.transactions@),
                    gathered(fetched@, self.sources().len(), min_value as nat),
                    now as int,
                )
            },
    {
        let n = self.networks.len();
        let mut reports: Vec<WhaleTransaction> = Vec::new();
        let mut unavailable: Vec<String> = Vec::new();
        let mut i: usize = 0;
        while i < n
            invariant
                n == self.networks.len(),
                i <= n,
                abort_on_failure ==> forall|j: int| 0 <= j < i ==> delivered(fetched@, j),
                texts(unavailable@) == failed_sources(self.names(), fetched@, i as nat),
                batch_view(reports@) == gathered(fetched@, i as nat, min_value as nat),
            decreases n - i,
        {
            let mut arrived = false;
            if i < fetched.len() {
                match &fetched[i] {
                    Some(list) => {
                        arrived = true;
                        let len = list.len();
                        let ghost before = batch_view(reports@);
                        let ghost views = batch_view(list@);
                        let mut k: usize = 0;
                        while k < len
                            invariant
                                len == list.len(),
                                k <= len,
                                views == batch_view(list@),
                                batch_view(reports@) == before + large_among(
                                    views,
                                    k as nat,
                                    min_value as nat,
                                ),
                            decreases len - k,
                        {
                            if list[k].value >= min_value {
                                let copy = list[k].duplicate();
                                let ghost earlier = batch_view(reports@);
                                reports.push(copy);
                                proof {
                                    let chosen = large_among(views, k as nat, min_value as nat);
                                    assert(views[k as int] == copy@);
                                    assert(batch_view(reports@) =~= earlier.push(copy@));
                                    assert((before + chosen).push(copy@) =~= before + chosen.push(
                                        copy@,
                                    ));
                                }
                            }
                            k = k + 1;
                        }
                    },
                    None => {},
                }
            }
            if !arrived {
                if abort_on_failure {
                    proof {
                        assert(is_first_failure(fetched@, i as int, n as int));
                    }
                    return Err(ZKWatchError::SourceUnavailable(self.networks[i].name.clone()));
                }
                unavailable.push(self.networks[i].name.clone());
            }
            i = i + 1;
        }
        let transactions = merge_reports(&reports, now);
        Ok(ScanOutcome { transactions, unavailable })
    }
}

/// Rate-limiter safety: whatever requests follow, at whatever instants, the
/// admissions on record together with those then granted never number more
/// than the limit within any span `(lo, hi]` no longer than the window.
pub proof fn lemma_rate_limit_never_exceeded(limiter: RateLimiter, nows: Seq<u64>, lo: int, hi: int)
    requires
        limiter.wf(),
        hi - lo <= limiter.window_len(),
    ensures
        admitted_within(
            limiter.recorded() + admissions(
                limiter.recorded(),
                limiter.limit(),
                limiter.window_len(),
                nows,
            ),
            lo,
            hi,
        ) <= limiter.limit(),
{
    let recent = limiter.recorded();
    assert(recent == recent.skip(0));
    lemma_history_stays_spaced(recent, recent, limiter.limit(), limiter.window_len(), nows);
    lemma_spaced_bounds_every_window(
        recent + admissions(recent, limiter.limit(), limiter.window_len(), nows),
        limiter.limit(),
        limiter.window_len(),
        lo,
        hi,
    );
}

/// The same safety law in terms of spacing: among the admissions on record
/// and those then granted, any two that are `limit` or more places apart
/// are at least one window apart in time.
pub proof fn lemma_rate_limit_spacing(limiter: RateLimiter, nows: Seq<u64>)
    requires
        limiter.wf(),
    ensures
        spaced(
            limiter.recorded() + admissions(
                limiter.recorded(),
                limiter.limit(),
                limiter.window_len(),
                nows,
            ),
            limiter.limit(),
            limiter.window_len(),
        ),
{
    let recent = limiter.recorded();
    assert(recent == recent.skip(0));
    lemma_history_stays_spaced(recent, recent, limiter.limit(), limiter.window_len(), nows);
}

} // verus!
