//! Load testing: statistics over measured latencies and the plan that spreads
//! requests over concurrent workers.
//!
//! Every duration here is a whole number of nanoseconds (`u128`), which holds
//! any `std::time::Duration` exactly.
use vstd::prelude::*;
use vstd::relations::*;

verus! {

broadcast use vstd::seq_lib::group_to_multiset_ensures;

/// Nanoseconds in one second.
pub const NANOS_PER_SEC: u128 = 1_000_000_000;

/// The largest `std::time::Duration`, in nanoseconds.
pub open spec fn max_duration_nanos() -> int {
    (u64::MAX as int + 1) * NANOS_PER_SEC - 1
}

/// Load testing errors.
#[derive(Debug)]
pub enum LoadTestError {
    TestFailed(String),
    Timeout(String),
}

/// Ascending order on latencies.
pub open spec fn ascending() -> spec_fn(u128, u128) -> bool {
    |a: u128, b: u128| a <= b
}

/// Each element is at most every later one.
pub open spec fn is_sorted(s: Seq<u128>) -> bool {
    forall|i: int, j: int| 0 <= i <= j < s.len() ==> s[i] <= s[j]
}

/// The latencies in ascending order.
pub open spec fn sorted_times(s: Seq<u128>) -> Seq<u128> {
    s.sort_by(ascending())
}

/// Sum of the latencies.
pub open spec fn sum_nanos(s: Seq<u128>) -> int
    decreases s.len(),
{
    if s.len() == 0 {
        0
    } else {
        sum_nanos(s.drop_last()) + s.last()
    }
}

/// Nearest-rank position of the `percent`-th percentile among `len` sorted
/// samples: `ceil(percent * len / 100) - 1`, clamped into `0 .. len`.
pub open spec fn nearest_rank_index(len: int, percent: int) -> int {
    let rank = (percent * len + 99) / 100;
    let idx = if rank >= 1 {
        rank - 1
    } else {
        0
    };
    if idx <= len - 1 {
        idx
    } else {
        len - 1
    }
}

/// Nearest-rank percentile of an ascending sequence; zero when it is empty.
pub open spec fn quantile_of(sorted: Seq<u128>, percent: int) -> u128 {
    if sorted.len() == 0 {
        0
    } else {
        sorted[nearest_rank_index(sorted.len() as int, percent)]
    }
}

/// What `Duration / u32` gives: the floor of the quotient, in nanoseconds.
pub open spec fn average_of(s: Seq<u128>) -> u128 {
    if s.len() == 0 {
        0
    } else {
        (sum_nanos(s) / ((s.len() % 0x1_0000_0000) as int)) as u128
    }
}

/// Load test statistics.
#[derive(Debug, Clone)]
pub struct LoadTestStats {
    /// Total number of requests.
    pub total_requests: u64,
    /// Successful requests.
    pub successful: u64,
    /// Failed requests.
    pub failed: u64,
    /// Total duration.
    pub duration: u128,
    /// Min response time.
    pub min_response_time: u128,
    /// Max response time.
    pub max_response_time: u128,
    /// Average response time.
    pub avg_response_time: u128,
    /// Median response time (p50).
    pub median_response_time: u128,
    /// 95th percentile response time.
    pub p95_response_time: u128,
    /// 99th percentile response time.
    pub p99_response_time: u128,
}

/// Sorts latencies in place.
///
/// Calls `slice::sort` (through `Vec`'s deref), whose documentation promises an
/// ascending order; as a sort it keeps the same elements. The contract claims
/// exactly that: the result is ascending and a permutation of the input.
#[verifier::external_body]
fn sort_ascending(v: &mut Vec<u128>)
    ensures
        is_sorted(final(v)@),
        final(v)@.to_multiset() == old(v)@.to_multiset(),
{
    v.sort();
}

impl LoadTestStats {
    /// Calculate statistics from response times.
    ///
    /// `response_times` are the latencies of the successful requests; the
    /// quantiles use the nearest-rank rule for all of median, p95 and p99.
    #[verifier::rlimit(30)]
    pub fn from_response_times(response_times: &[u128], failed: u64, total_duration: u128) -> (stats:
        Self)
        requires
            sum_nanos(response_times@) <= max_duration_nanos(),
            response_times@.len() > 0 ==> response_times@.len() % 0x1_0000_0000 != 0,
            response_times@.len() + failed <= u64::MAX,
        ensures
            stats.successful == response_times@.len(),
            stats.failed == failed,
            stats.total_requests == response_times@.len() + failed,
            stats.duration == total_duration,
            stats.min_response_time == (if response_times@.len() == 0 {
                0
            } else {
                sorted_times(response_times@)[0]
            }),
            stats.max_response_time == (if response_times@.len() == 0 {
                0
            } else {
                sorted_times(response_times@).last()
            }),
            stats.avg_response_time == average_of(response_times@),
            stats.median_response_time == quantile_of(sorted_times(response_times@), 50),
            stats.p95_response_time == quantile_of(sorted_times(response_times@), 95),
            stats.p99_response_time == quantile_of(sorted_times(response_times@), 99),
            forall|i: int|
                0 <= i < response_times@.len() ==> stats.min_response_time
                    <= #[trigger] response_times@[i] <= stats.max_response_time,
            stats.min_response_time <= stats.median_response_time <= stats.p95_response_time
                <= stats.p99_response_time <= stats.max_response_time,
            response_times@.len() > 0 ==> stats.avg_response_time * (response_times@.len()
                % 0x1_0000_0000) <= sum_nanos(response_times@) < (stats.avg_response_time + 1) * (
            response_times@.len() % 0x1_0000_0000),
            0 < response_times@.len() < 0x1_0000_0000 ==> stats.avg_response_time
                * response_times@.len() <= sum_nanos(response_times@) < (stats.avg_response_time
                + 1) * response_times@.len(),
            response_times@.len() == 0 ==> stats.successful == 0 && stats.total_requests == failed
                && stats.min_response_time == 0 && stats.max_response_time == 0
                && stats.avg_response_time == 0 && stats.median_response_time == 0
                && stats.p95_response_time == 0 && stats.p99_response_time == 0,
    {
        let mut sorted: Vec<u128> = Vec::new();
        let mut k: usize = 0;
        while k < response_times.len()
            invariant
                k <= response_times@.len(),
                sorted@ == response_times@.subrange(0, k as int),
            decreases response_times@.len() - k,
        {
            sorted.push(response_times[k]);
            k = k + 1;
            assert(sorted@ =~= response_times@.subrange(0, k as int));
        }
        assert(sorted@ =~= response_times@);
        sort_ascending(&mut sorted);
        proof {
            lemma_sorted_is_sorted_times(response_times@, sorted@);
            assert(sorted@.len() == sorted@.to_multiset().len());
            assert(response_times@.len() == response_times@.to_multiset().len());
        }
        let n = sorted.len();
        assert(n == response_times@.len());
        let total = n as u64;
        let sum = sum_of(response_times);

        let min = if n == 0 {
            0
        } else {
            sorted[0]
        };
        let max = if n == 0 {
            0
        } else {
            sorted[n - 1]
        };
        let avg = if n > 0 {
            let divisor = (n as u64 % 0x1_0000_0000u64) as u32;
            sum / (divisor as u128)
        } else {
            0
        };

        proof {
            if n > 0 {
                let d = (n as int) % 0x1_0000_0000;
                assert(d > 0);
                assert(avg as int == sum as int / d);
                assert(avg * d <= sum < (avg + 1) * d) by (nonlinear_arith)
                    requires
                        d > 0,
                        avg as int == sum as int / d,
                ;
            }
        }
        let median = Self::quantile(&sorted, 50);
        let p95 = Self::quantile(&sorted, 95);
        let p99 = Self::quantile(&sorted, 99);

        proof {
            lemma_quantile_monotone(sorted@, 50, 95);
            lemma_quantile_monotone(sorted@, 95, 99);
            lemma_quantile_bounds(sorted@, 50);
            lemma_quantile_bounds(sorted@, 99);
            assert forall|i: int| 0 <= i < response_times@.len() implies min
                <= #[trigger] response_times@[i] <= max by {
                lemma_element_within_sorted(response_times@, sorted@, i);
            }
        }

        LoadTestStats {
            total_requests: total + failed,
            successful: total,
            failed,
            duration: total_duration,
            min_response_time: min,
            max_response_time: max,
            avg_response_time: avg,
            median_response_time: median,
            p95_response_time: p95,
            p99_response_time: p99,
        }
    }

    /// Nearest-rank quantile over an ascending-sorted slice; zero when empty.
    fn quantile(sorted: &Vec<u128>, percent: u64) -> (q: u128)
        requires
            percent <= 100,
        ensures
            q == quantile_of(sorted@, percent as int),
    {
        let n = sorted.len();
        if n == 0 {
            return 0;
        }
        assert((percent as u128) * (n as u128) <= 100 * 0x1_0000_0000_0000_0000) by (nonlinear_arith)
            requires
                percent <= 100,
                n < 0x1_0000_0000_0000_0000,
        ;
        let rank = ((percent as u128) * (n as u128) + 99) / 100;
        let idx = if rank >= 1 {
            rank - 1
        } else {
            0
        };
        let idx = if idx <= (n - 1) as u128 {
            idx as usize
        } else {
            n - 1
        };
        sorted[idx]
    }
}

/// Load test configuration.
#[derive(Debug, Clone)]
pub struct LoadTestConfig {
    /// Number of concurrent workers.
    pub concurrency: usize,
    /// Total number of requests.
    pub total_requests: u64,
    /// Duration of the test, in nanoseconds (alternative to `total_requests`).
    pub duration: Option<u128>,
    /// Timeout per request, in nanoseconds.
    pub timeout: u128,
}

/// Default per-request timeout: thirty seconds.
pub const DEFAULT_TIMEOUT_NANOS: u128 = 30_000_000_000;

/// Requests given to worker `idx` when `total` requests are spread over
/// `concurrency` workers: the quotient, plus one for the first
/// `total % concurrency` workers (a concurrency of zero counts as one).
pub open spec fn spec_worker_quota(total: u64, concurrency: usize, idx: int) -> int {
    let c = if concurrency == 0 {
        1int
    } else {
        concurrency as int
    };
    total as int / c + if idx < total as int % c {
        1int
    } else {
        0int
    }
}

/// Sum of the quotas of workers `0 .. k`.
pub open spec fn quota_sum(total: u64, concurrency: usize, k: int) -> int
    decreases k,
{
    if k <= 0 {
        0
    } else {
        quota_sum(total, concurrency, k - 1) + spec_worker_quota(total, concurrency, k - 1)
    }
}

impl LoadTestConfig {
    /// Create a config running `total_requests` over `concurrency` workers,
    /// with a thirty-second timeout and no duration limit.
    pub fn new(concurrency: usize, total_requests: u64) -> (c: Self)
        ensures
            c.concurrency == concurrency,
            c.total_requests == total_requests,
            c.duration is None,
            c.timeout == DEFAULT_TIMEOUT_NANOS,
    {
        LoadTestConfig { concurrency, total_requests, duration: None, timeout: DEFAULT_TIMEOUT_NANOS }
    }

    /// Run for `duration` nanoseconds instead of a request count.
    pub fn with_duration(self, duration: u128) -> (c: Self)
        ensures
            c == (LoadTestConfig { duration: Some(duration), ..self }),
    {
        LoadTestConfig { duration: Some(duration), ..self }
    }

    /// Set the timeout per request, in nanoseconds.
    pub fn with_timeout(self, timeout: u128) -> (c: Self)
        ensures
            c == (LoadTestConfig { timeout, ..self }),
    {
        LoadTestConfig { timeout, ..self }
    }

    /// How many requests worker `worker_idx` runs: none when the test is
    /// bounded by a duration, otherwise its share of `total_requests`.
    pub fn requests_for_worker(&self, worker_idx: usize) -> (q: Option<u64>)
        ensures
            q == (if self.duration is Some {
                None
            } else {
                Some(spec_worker_quota(self.total_requests, self.concurrency, worker_idx as int) as u64)
            }),
            q matches Some(n) ==> n == spec_worker_quota(
                self.total_requests,
                self.concurrency,
                worker_idx as int,
            ),
    {
        if self.duration.is_some() {
            return None;
        }
        let c: u64 = if self.concurrency == 0 {
            1
        } else {
            self.concurrency as u64
        };
        let base = self.total_requests / c;
        let remainder = self.total_requests % c;
        proof {
            lemma_quota_fits(self.total_requests, c as int);
        }
        if (worker_idx as u64) < remainder {
            Some(base + 1)
        } else {
            Some(base)
        }
    }
}

/// A quotient that receives one extra still fits in `u64`.
proof fn lemma_quota_fits(total: u64, c: int)
    requires
        c >= 1,
    ensures
        total as int % c > 0 ==> total as int / c + 1 <= u64::MAX,
{
    if total as int % c > 0 {
        assert(c >= 2);
        assert(total as int / c <= total as int / 2) by (nonlinear_arith)
            requires
                c >= 2,
                total >= 0,
        ;
    }
}

impl Default for LoadTestConfig {
    /// Ten workers, one hundred requests.
    fn default() -> (c: Self)
        ensures
            c.concurrency == 10,
            c.total_requests == 100,
            c.duration is None,
            c.timeout == DEFAULT_TIMEOUT_NANOS,
    {
        Self::new(10, 100)
    }
}

/// Law: spreading the requests over the workers runs exactly
/// `total_requests` of them, and no two workers' shares differ by more than one.
pub proof fn lemma_worker_quotas_cover_total(total: u64, concurrency: usize)
    requires
        concurrency > 0,
    ensures
        quota_sum(total, concurrency, concurrency as int) == total,
        forall|i: int, j: int|
            0 <= i < concurrency && 0 <= j < concurrency ==> #[trigger] spec_worker_quota(
                total,
                concurrency,
                i,
            ) <= #[trigger] spec_worker_quota(total, concurrency, j) + 1,
{
    let c = concurrency as int;
    let base = total as int / c;
    let rem = total as int % c;
    lemma_quota_sum_closed(total, concurrency, c);
    assert(base * c + rem == total) by (nonlinear_arith)
        requires
            base == total as int / c,
            rem == total as int % c,
            c > 0,
    ;
    assert(c * base == base * c) by (nonlinear_arith);
}

/// Law: without a duration limit, a worker stops exactly once it has run its
/// quota of requests; with `lemma_worker_quotas_cover_total`, the workers of
/// a run together make exactly `total_requests` requests.
pub proof fn lemma_worker_stops_after_its_quota(
    config: LoadTestConfig,
    worker_idx: usize,
    count: u64,
    elapsed: u128,
)
    requires
        config.duration is None,
    ensures
        ({
            let q = spec_worker_quota(config.total_requests, config.concurrency, worker_idx as int);
            &&& 0 <= q <= u64::MAX
            &&& spec_should_stop(count, elapsed, Some(q as u64), config.duration) <==> count >= q
        }),
{
    let c: int = if config.concurrency == 0 {
        1
    } else {
        config.concurrency as int
    };
    lemma_quota_fits(config.total_requests, c);
    assert(config.total_requests as int / c <= config.total_requests) by (nonlinear_arith)
        requires
            c >= 1,
            config.total_requests >= 0,
    ;
    assert(config.total_requests as int / c >= 0) by (nonlinear_arith)
        requires
            c >= 1,
            config.total_requests >= 0,
    ;
}

/// The quota sum of the first `k` workers, in closed form.
proof fn lemma_quota_sum_closed(total: u64, concurrency: usize, k: int)
    requires
        concurrency > 0,
        0 <= k <= concurrency,
    ensures
        quota_sum(total, concurrency, k) == k * (total as int / concurrency as int) + if k
            < total as int % concurrency as int {
            k
        } else {
            total as int % concurrency as int
        },
    decreases k,
{
    let c = concurrency as int;
    let base = total as int / c;
    let rem = total as int % c;
    if k > 0 {
        lemma_quota_sum_closed(total, concurrency, k - 1);
        assert(k * base == (k - 1) * base + base) by (nonlinear_arith);
        assert(spec_worker_quota(total, concurrency, k - 1) == base + if k - 1 < rem {
            1int
        } else {
            0int
        });
        let prev = quota_sum(total, concurrency, k - 1);
        assert(prev == (k - 1) * base + if k - 1 < rem {
            k - 1
        } else {
            rem
        });
        assert(quota_sum(total, concurrency, k) == prev + spec_worker_quota(
            total,
            concurrency,
            k - 1,
        ));
        if k < rem {
        } else if k - 1 < rem {
            assert(rem == k);
        } else {
        }
        assert(quota_sum(total, concurrency, k) == k * base + if k < rem {
            k
        } else {
            rem
        });
    } else {
        assert(k == 0);
        assert(k * base == 0) by (nonlinear_arith)
            requires
                k == 0,
        ;
    }
}

/// Latencies of the successful requests among `outcomes`, in order.
pub open spec fn successes(outcomes: Seq<Option<u128>>) -> Seq<u128>
    decreases outcomes.len(),
{
    if outcomes.len() == 0 {
        Seq::empty()
    } else {
        successes(outcomes.drop_last()) + match outcomes.last() {
            Some(t) => seq![t],
            None => Seq::empty(),
        }
    }
}

/// How many of `outcomes` are failures (errors or timeouts).
pub open spec fn failures(outcomes: Seq<Option<u128>>) -> nat
    decreases outcomes.len(),
{
    if outcomes.len() == 0 {
        0
    } else {
        failures(outcomes.drop_last()) + if outcomes.last() is None {
            1nat
        } else {
            0nat
        }
    }
}

/// The outcome of one request: its latency when it finished in time and
/// succeeded, a failure (`None`) when it returned an error or timed out.
pub fn request_outcome(finished_in_time: bool, succeeded: bool, latency: u128) -> (r: Option<u128>)
    ensures
        r == (if finished_in_time && succeeded {
            Some(latency)
        } else {
            None
        }),
{
    if finished_in_time && succeeded {
        Some(latency)
    } else {
        None
    }
}

/// Per-worker bookkeeping while a load test runs: the driver asks
/// `should_stop` before each request and reports each outcome to `record`.
pub struct WorkerRun {
    /// Requests started so far.
    pub request_count: u64,
    /// Latencies of the successful requests, in order.
    pub times: Vec<u128>,
    /// Requests that failed or timed out.
    pub failed: u64,
    /// Request budget of this worker, when the test is count-bounded.
    pub quota: Option<u64>,
    /// Time budget, in nanoseconds, when the test is duration-bounded.
    pub duration: Option<u128>,
    /// Every outcome recorded so far, in order.
    pub outcomes: Ghost<Seq<Option<u128>>>,
}

/// The worker's tallies are those of the outcomes it recorded: one request
/// per outcome, the latencies of the successes in order, and one failure per
/// error or timeout.
pub open spec fn tallies_match(w: WorkerRun) -> bool {
    &&& w.request_count == w.outcomes@.len()
    &&& w.times@ == successes(w.outcomes@)
    &&& w.failed == failures(w.outcomes@)
}

/// Law: every recorded outcome is counted exactly once, as a success or as a
/// failure.
pub proof fn lemma_outcomes_counted_once(outcomes: Seq<Option<u128>>)
    ensures
        successes(outcomes).len() + failures(outcomes) == outcomes.len(),
    decreases outcomes.len(),
{
    if outcomes.len() > 0 {
        lemma_outcomes_counted_once(outcomes.drop_last());
    }
}

/// Whether a worker stops before another request, having run `count`
/// requests for `elapsed` nanoseconds.
pub open spec fn spec_should_stop(
    count: u64,
    elapsed: u128,
    quota: Option<u64>,
    duration: Option<u128>,
) -> bool {
    match duration {
        Some(d) => elapsed >= d,
        None => match quota {
            Some(m) => count >= m,
            None => false,
        },
    }
}

impl WorkerRun {
    /// Start the bookkeeping of worker `worker_idx` under `config`.
    pub fn new(config: &LoadTestConfig, worker_idx: usize) -> (w: Self)
        ensures
            w.request_count == 0,
            w.times@ == Seq::<u128>::empty(),
            w.failed == 0,
            w.outcomes@ == Seq::<Option<u128>>::empty(),
            tallies_match(w),
            w.duration == config.duration,
            w.quota == (if config.duration is Some {
                None
            } else {
                Some(
                    spec_worker_quota(config.total_requests, config.concurrency, worker_idx as int)
                        as u64,
                )
            }),
    {
        WorkerRun {
            request_count: 0,
            times: Vec::new(),
            failed: 0,
            quota: config.requests_for_worker(worker_idx),
            duration: config.duration,
            outcomes: Ghost(Seq::empty()),
        }
    }

    /// Whether the worker should stop before starting another request,
    /// `elapsed` nanoseconds after it started.
    pub fn should_stop(&self, elapsed: u128) -> (b: bool)
        ensures
            b == spec_should_stop(self.request_count, elapsed, self.quota, self.duration),
    {
        match self.duration {
            Some(d) => elapsed >= d,
            None => match self.quota {
                Some(m) => self.request_count >= m,
                None => false,
            },
        }
    }

    /// Record one request: `Some(latency)` when it succeeded in time, `None`
    /// when it failed or timed out.
    pub fn record(&mut self, outcome: Option<u128>)
        requires
            old(self).request_count < u64::MAX,
            outcome is None ==> old(self).failed < u64::MAX,
        ensures
            final(self).request_count == old(self).request_count + 1,
            final(self).quota == old(self).quota,
            final(self).duration == old(self).duration,
            final(self).outcomes@ == old(self).outcomes@.push(outcome),
            tallies_match(*old(self)) ==> tallies_match(*final(self)),
            match outcome {
                Some(t) => final(self).times@ == old(self).times@.push(t) && final(self).failed
                    == old(self).failed,
                None => final(self).times@ == old(self).times@ && final(self).failed == old(
                    self,
                ).failed + 1,
            },
    {
        match outcome {
            Some(t) => self.times.push(t),
            None => self.failed = self.failed + 1,
        }
        self.request_count = self.request_count + 1;
        proof {
            let ghost prev = self.outcomes@;
            self.outcomes@ = prev.push(outcome);
            assert(self.outcomes@.drop_last() =~= prev);
            if tallies_match(*old(self)) {
                match outcome {
                    Some(t) => {
                        assert(successes(self.outcomes@) =~= old(self).times@.push(t));
                    },
                    None => {
                        assert(successes(self.outcomes@) =~= old(self).times@);
                    },
                }
            }
        }
    }

    /// How long to pause after a request before the next one, to keep the
    /// worker at one request per `interval` nanoseconds: no pause when there
    /// is no interval, when the worker should stop anyway (the last request
    /// needs no gap after it), or when the request already took the whole
    /// interval; otherwise the rest of the interval. `worker_elapsed` is the
    /// time since the worker started, `request_elapsed` since the request
    /// started.
    pub fn pause_after(&self, worker_elapsed: u128, request_elapsed: u128, interval: Option<u128>) -> (p:
        Option<u128>)
        ensures
            p == (match interval {
                Some(i) => if spec_should_stop(
                    self.request_count,
                    worker_elapsed,
                    self.quota,
                    self.duration,
                ) || request_elapsed >= i {
                    None
                } else {
                    Some((i - request_elapsed) as u128)
                },
                None => None,
            }),
    {
        match interval {
            Some(i) => {
                if self.should_stop(worker_elapsed) || request_elapsed >= i {
                    None
                } else {
                    Some(i - request_elapsed)
                }
            },
            None => None,
        }
    }
}

/// Latencies of the workers that finished, concatenated in worker order.
pub open spec fn merged_times(results: Seq<Option<(Vec<u128>, u64)>>) -> Seq<u128>
    decreases results.len(),
{
    if results.len() == 0 {
        Seq::empty()
    } else {
        merged_times(results.drop_last()) + match results.last() {
            Some(r) => r.0@,
            None => Seq::empty(),
        }
    }
}

/// Failures counted by the workers that finished.
pub open spec fn merged_failed(results: Seq<Option<(Vec<u128>, u64)>>) -> int
    decreases results.len(),
{
    if results.len() == 0 {
        0
    } else {
        merged_failed(results.drop_last()) + match results.last() {
            Some(r) => r.1 as int,
            None => 0,
        }
    }
}

/// Requests made by the workers that finished: the outcomes of worker `i`
/// are `runs[i]`, and it finished when `results[i]` is `Some`.
pub open spec fn finished_requests(
    results: Seq<Option<(Vec<u128>, u64)>>,
    runs: Seq<Seq<Option<u128>>>,
) -> int
    decreases results.len(),
{
    if results.len() == 0 || runs.len() == 0 {
        0
    } else {
        finished_requests(results.drop_last(), runs.drop_last()) + if results.last() is Some {
            runs.last().len() as int
        } else {
            0
        }
    }
}

/// Worker `i` that finished handed back the tallies of its outcomes `runs[i]`.
pub open spec fn results_tally(
    results: Seq<Option<(Vec<u128>, u64)>>,
    runs: Seq<Seq<Option<u128>>>,
) -> bool {
    &&& results.len() == runs.len()
    &&& forall|i: int|
        0 <= i < results.len() && #[trigger] results[i] is Some ==> results[i].unwrap().0@ == successes(
            runs[i],
        ) && results[i].unwrap().1 == failures(runs[i])
}

/// The merged latencies and failures count every request of the workers
/// that finished, once.
proof fn lemma_merged_counts(results: Seq<Option<(Vec<u128>, u64)>>, runs: Seq<Seq<Option<u128>>>)
    requires
        results_tally(results, runs),
    ensures
        merged_times(results).len() + merged_failed(results) == finished_requests(results, runs),
    decreases results.len(),
{
    if results.len() > 0 {
        let r0 = results.drop_last();
        let s0 = runs.drop_last();
        assert forall|i: int| 0 <= i < r0.len() && #[trigger] r0[i] is Some implies r0[i].unwrap().0@
            == successes(s0[i]) && r0[i].unwrap().1 == failures(s0[i]) by {
            assert(r0[i] == results[i] && s0[i] == runs[i]);
        }
        lemma_merged_counts(r0, s0);
        lemma_outcomes_counted_once(runs.last());
        assert(results.last() == results[results.len() - 1]);
    }
}

/// The finished requests of the first `k` workers, each of which finished
/// with its quota of outcomes, add up to their quotas.
proof fn lemma_finished_is_quota_sum(
    total: u64,
    concurrency: usize,
    results: Seq<Option<(Vec<u128>, u64)>>,
    runs: Seq<Seq<Option<u128>>>,
    k: int,
)
    requires
        0 <= k <= results.len(),
        results.len() == runs.len(),
        forall|i: int|
            0 <= i < results.len() ==> #[trigger] results[i] is Some && runs[i].len()
                == spec_worker_quota(total, concurrency, i),
    ensures
        finished_requests(results.take(k), runs.take(k)) == quota_sum(total, concurrency, k),
    decreases k,
{
    if k > 0 {
        lemma_finished_is_quota_sum(total, concurrency, results, runs, k - 1);
        assert(results.take(k).drop_last() =~= results.take(k - 1));
        assert(runs.take(k).drop_last() =~= runs.take(k - 1));
        assert(results[k - 1] is Some);
    }
}

/// Law: a load test bounded by a request count, whose workers all finish
/// and each run their quota of requests, accounts for exactly
/// `total_requests` requests: the merged latencies (one per success) and the
/// merged failures (one per error or timeout) add up to it.
pub proof fn lemma_load_run_counts_every_request(
    total: u64,
    concurrency: usize,
    results: Seq<Option<(Vec<u128>, u64)>>,
    runs: Seq<Seq<Option<u128>>>,
)
    requires
        concurrency > 0,
        results.len() == concurrency,
        results_tally(results, runs),
        forall|i: int|
            0 <= i < results.len() ==> #[trigger] results[i] is Some && runs[i].len()
                == spec_worker_quota(total, concurrency, i),
    ensures
        merged_times(results).len() + merged_failed(results) == total,
{
    lemma_merged_counts(results, runs);
    lemma_finished_is_quota_sum(total, concurrency, results, runs, results.len() as int);
    assert(results.take(results.len() as int) =~= results);
    assert(runs.take(runs.len() as int) =~= runs);
    lemma_worker_quotas_cover_total(total, concurrency);
}

/// Merge per-worker results after every worker joined; a worker that did
/// not finish (`None`) contributes nothing.
pub fn merge_worker_results(results: Vec<Option<(Vec<u128>, u64)>>) -> (merged: (Vec<u128>, u64))
    requires
        merged_failed(results@) <= u64::MAX,
    ensures
        merged.0@ == merged_times(results@),
        merged.1 == merged_failed(results@),
{
    let mut times: Vec<u128> = Vec::new();
    let mut failed: u64 = 0;
    let mut i: usize = 0;
    while i < results.len()
        invariant
            i <= results@.len(),
            times@ == merged_times(results@.subrange(0, i as int)),
            failed == merged_failed(results@.subrange(0, i as int)),
            merged_failed(results@) <= u64::MAX,
        decreases results@.len() - i,
    {
        proof {
            assert(results@.subrange(0, i as int + 1).drop_last() =~= results@.subrange(0, i as int));
            lemma_merged_failed_prefix(results@, i as int + 1);
        }
        match &results[i] {
            Some(r) => {
                let mut j: usize = 0;
                let ghost before = times@;
                while j < r.0.len()
                    invariant
                        j <= r.0@.len(),
                        times@ == before + r.0@.subrange(0, j as int),
                    decreases r.0@.len() - j,
                {
                    times.push(r.0[j]);
                    j = j + 1;
                    assert(times@ =~= before + r.0@.subrange(0, j as int));
                }
                assert(r.0@.subrange(0, j as int) =~= r.0@);
                failed = failed + r.1;
            },
            None => {},
        }
        i = i + 1;
    }
    assert(results@.subrange(0, i as int) =~= results@);
    (times, failed)
}

/// Failures of a prefix never exceed those of the whole.
proof fn lemma_merged_failed_prefix(results: Seq<Option<(Vec<u128>, u64)>>, k: int)
    requires
        0 <= k <= results.len(),
    ensures
        merged_failed(results.subrange(0, k)) <= merged_failed(results),
    decreases results.len() - k,
{
    if k < results.len() {
        lemma_merged_failed_prefix(results, k + 1);
        assert(results.subrange(0, k + 1).drop_last() =~= results.subrange(0, k));
    } else {
        assert(results.subrange(0, k) =~= results);
    }
}

/// Load test runner: a configuration and the request to drive.
pub struct LoadTestRunner<F> {
    config: LoadTestConfig,
    test_fn: std::sync::Arc<F>,
}

impl<F> LoadTestRunner<F> {
    /// Create a runner for `test_fn` under `config`.
    pub fn new(config: LoadTestConfig, test_fn: F) -> (r: Self)
        ensures
            r.config() == config,
            *r.test_fn() == test_fn,
    {
        LoadTestRunner { config, test_fn: std::sync::Arc::new(test_fn) }
    }

    /// The configuration this runner was made with.
    pub closed spec fn config(&self) -> LoadTestConfig {
        self.config
    }

    /// The request driver.
    pub closed spec fn test_fn(&self) -> std::sync::Arc<F> {
        self.test_fn
    }

    /// The configuration.
    pub fn get_config(&self) -> (c: &LoadTestConfig)
        ensures
            *c == self.config(),
    {
        &self.config
    }

    /// The request driver, shared.
    pub fn get_test_fn(&self) -> (f: &std::sync::Arc<F>)
        ensures
            *f == self.test_fn(),
    {
        &self.test_fn
    }
}

/// The concurrency levels a stress test steps through: `initial`, then
/// `initial + step`, ... while they do not exceed `max`.
pub open spec fn levels_from(c: int, max: int, step: int) -> Seq<int>
    decreases (if c > max {
        0
    } else {
        max - c + 1
    }),
{
    if step <= 0 || c > max {
        Seq::empty()
    } else {
        seq![c] + levels_from(c + step, max, step)
    }
}

/// Stepping from `c` by `step` past `max` never overflows `usize`.
pub open spec fn levels_fit(c: int, max: int, step: int) -> bool
    decreases (if c > max {
        0
    } else {
        max - c + 1
    }),
{
    if step <= 0 || c > max {
        true
    } else {
        c + step <= usize::MAX && levels_fit(c + step, max, step)
    }
}

/// Stress test runner: load tests at rising concurrency.
pub struct StressTestRunner<F> {
    initial_concurrency: usize,
    max_concurrency: usize,
    step_size: usize,
    step_duration: u128,
    test_fn: std::sync::Arc<F>,
}

impl<F> StressTestRunner<F> {
    /// Create a stress test runner; `step_duration` is in nanoseconds.
    pub fn new(
        initial_concurrency: usize,
        max_concurrency: usize,
        step_size: usize,
        step_duration: u128,
        test_fn: F,
    ) -> (r: Self)
        ensures
            r.initial_concurrency() == initial_concurrency,
            r.max_concurrency() == max_concurrency,
            r.step_size() == step_size,
            r.step_duration() == step_duration,
            *r.test_fn() == test_fn,
    {
        StressTestRunner {
            initial_concurrency,
            max_concurrency,
            step_size,
            step_duration,
            test_fn: std::sync::Arc::new(test_fn),
        }
    }

    pub closed spec fn initial_concurrency(&self) -> usize {
        self.initial_concurrency
    }

    pub closed spec fn max_concurrency(&self) -> usize {
        self.max_concurrency
    }

    pub closed spec fn step_size(&self) -> usize {
        self.step_size
    }

    pub closed spec fn step_duration(&self) -> u128 {
        self.step_duration
    }

    pub closed spec fn test_fn(&self) -> std::sync::Arc<F> {
        self.test_fn
    }

    /// The request driver, shared.
    pub fn get_test_fn(&self) -> (f: &std::sync::Arc<F>)
        ensures
            *f == self.test_fn(),
    {
        &self.test_fn
    }

    /// The concurrency levels, in the order the stress test runs them.
    ///
    /// A zero step with `initial <= max` would repeat the first level forever,
    /// and a step past `usize::MAX` overflows; neither is a valid input.
    pub fn concurrency_levels(&self) -> (levels: Vec<usize>)
        requires
            self.initial_concurrency() > self.max_concurrency() || self.step_size() > 0,
            levels_fit(
                self.initial_concurrency() as int,
                self.max_concurrency() as int,
                self.step_size() as int,
            ),
        ensures
            levels@.map_values(|c: usize| c as int) == levels_from(
                self.initial_concurrency() as int,
                self.max_concurrency() as int,
                self.step_size() as int,
            ),
    {
        let mut levels: Vec<usize> = Vec::new();
        let mut concurrency = self.initial_concurrency;
        let ghost lo = self.initial_concurrency as int;
        let ghost hi = self.max_concurrency as int;
        let ghost step = self.step_size as int;
        while concurrency <= self.max_concurrency
            invariant
                step > 0 || concurrency as int > hi,
                step == self.step_size,
                hi == self.max_concurrency,
                levels_fit(concurrency as int, hi, step),
                levels@.map_values(|c: usize| c as int) + levels_from(concurrency as int, hi, step)
                    == levels_from(lo, hi, step),
            decreases (if concurrency > hi {
                0
            } else {
                hi - concurrency + 1
            }),
        {
            let ghost prev = levels@.map_values(|c: usize| c as int);
            levels.push(concurrency);
            assert(levels@.map_values(|c: usize| c as int) =~= prev.push(concurrency as int));
            assert(levels_from(concurrency as int, hi, step) == seq![concurrency as int]
                + levels_from(concurrency + step, hi, step));
            assert(prev.push(concurrency as int) + levels_from(concurrency + step, hi, step)
                =~= prev + levels_from(concurrency as int, hi, step));
            concurrency = concurrency + self.step_size;
        }
        assert(levels_from(concurrency as int, hi, step) =~= Seq::<int>::empty());
        assert(levels@.map_values(|c: usize| c as int) + Seq::<int>::empty() =~= levels@.map_values(
            |c: usize| c as int,
        ));
        levels
    }

    /// The concurrency levels when they can be stepped through: `None` when a
    /// zero step with `initial <= max` would repeat the first level forever,
    /// or when stepping would overflow `usize`.
    pub fn try_concurrency_levels(&self) -> (r: Option<Vec<usize>>)
        ensures
            r is Some <==> ((self.initial_concurrency() > self.max_concurrency()
                || self.step_size() > 0) && levels_fit(
                self.initial_concurrency() as int,
                self.max_concurrency() as int,
                self.step_size() as int,
            )),
            r matches Some(levels) ==> levels@.map_values(|c: usize| c as int) == levels_from(
                self.initial_concurrency() as int,
                self.max_concurrency() as int,
                self.step_size() as int,
            ),
    {
        if self.initial_concurrency <= self.max_concurrency && self.step_size == 0 {
            return None;
        }
        let ghost lo = self.initial_concurrency as int;
        let ghost hi = self.max_concurrency as int;
        let ghost step = self.step_size as int;
        let mut concurrency = self.initial_concurrency;
        while concurrency <= self.max_concurrency
            invariant
                step > 0 || concurrency as int > hi,
                step == self.step_size,
                hi == self.max_concurrency,
                levels_fit(lo, hi, step) == levels_fit(concurrency as int, hi, step),
                lo == self.initial_concurrency,
                self.initial_concurrency > self.max_concurrency || self.step_size > 0,
            decreases (if concurrency > hi {
                0
            } else {
                hi - concurrency + 1
            }),
        {
            match concurrency.checked_add(self.step_size) {
                Some(next) => {
                    concurrency = next;
                },
                None => {
                    assert(!levels_fit(concurrency as int, hi, step));
                    return None;
                },
            }
        }
        Some(self.concurrency_levels())
    }

    /// Whether the stress test runs a level at `level`: while it does not
    /// exceed the maximum.
    pub fn runs_level(&self, level: usize) -> (b: bool)
        ensures
            b == (level <= self.max_concurrency()),
    {
        level <= self.max_concurrency
    }

    /// The level after `level`: one step higher, or `None` when that
    /// overflows `usize`.
    pub fn level_after(&self, level: usize) -> (r: Option<usize>)
        ensures
            r == (if level + self.step_size() <= usize::MAX {
                Some((level + self.step_size()) as usize)
            } else {
                None
            }),
    {
        level.checked_add(self.step_size)
    }

    /// The first concurrency level.
    pub fn get_initial_concurrency(&self) -> (c: usize)
        ensures
            c == self.initial_concurrency(),
    {
        self.initial_concurrency
    }

    /// The highest concurrency level allowed.
    pub fn get_max_concurrency(&self) -> (c: usize)
        ensures
            c == self.max_concurrency(),
    {
        self.max_concurrency
    }

    /// How much the concurrency grows between levels.
    pub fn get_step_size(&self) -> (s: usize)
        ensures
            s == self.step_size(),
    {
        self.step_size
    }

    /// How long each level runs, in nanoseconds.
    pub fn get_step_duration(&self) -> (d: u128)
        ensures
            d == self.step_duration(),
    {
        self.step_duration
    }

    /// The configuration of the step at `concurrency`: unbounded request
    /// count, limited by the step duration.
    pub fn step_config(&self, concurrency: usize) -> (c: LoadTestConfig)
        ensures
            c.concurrency == concurrency,
            c.total_requests == u64::MAX,
            c.duration == Some(self.step_duration()),
            c.timeout == DEFAULT_TIMEOUT_NANOS,
    {
        LoadTestConfig::new(concurrency, u64::MAX).with_duration(self.step_duration)
    }
}

/// Sum of a slice of latencies, as `Duration`'s summation computes it.
fn sum_of(times: &[u128]) -> (s: u128)
    requires
        sum_nanos(times@) <= max_duration_nanos(),
    ensures
        s == sum_nanos(times@),
{
    let mut s: u128 = 0;
    let mut i: usize = 0;
    while i < times.len()
        invariant
            i <= times@.len(),
            s == sum_nanos(times@.subrange(0, i as int)),
            sum_nanos(times@) <= max_duration_nanos(),
        decreases times@.len() - i,
    {
        proof {
            lemma_sum_prefix_bounded(times@, i as int + 1);
            assert(times@.subrange(0, i as int + 1).drop_last() =~= times@.subrange(0, i as int));
        }
        s = s + times[i];
        i = i + 1;
    }
    assert(times@.subrange(0, i as int) =~= times@);
    s
}

/// A prefix never sums to more than the whole.
proof fn lemma_sum_prefix_bounded(s: Seq<u128>, k: int)
    requires
        0 <= k <= s.len(),
    ensures
        sum_nanos(s.subrange(0, k)) <= sum_nanos(s),
    decreases s.len() - k,
{
    if k < s.len() {
        lemma_sum_prefix_bounded(s, k + 1);
        assert(s.subrange(0, k + 1).drop_last() =~= s.subrange(0, k));
    } else {
        assert(s.subrange(0, k) =~= s);
    }
}

/// `ascending` is a total order.
proof fn lemma_ascending_total()
    ensures
        total_ordering(ascending()),
{
    reveal(total_ordering);
}

/// Two ascending sequences with the same elements are equal.
proof fn lemma_sorted_unique(a: Seq<u128>, b: Seq<u128>)
    requires
        is_sorted(a),
        is_sorted(b),
        a.to_multiset() == b.to_multiset(),
    ensures
        a == b,
    decreases a.len(),
{
    assert(a.len() == a.to_multiset().len());
    assert(b.len() == b.to_multiset().len());
    if a.len() == 0 {
        assert(a =~= b);
    } else {
        assert(a.contains(a[0]));
        assert(b.to_multiset().count(a[0]) > 0);
        assert(b.contains(a[0]));
        let j = choose|j: int| 0 <= j < b.len() && b[j] == a[0];
        assert(b[0] <= b[j]);
        assert(b.contains(b[0]));
        assert(a.to_multiset().count(b[0]) > 0);
        assert(a.contains(b[0]));
        let i = choose|i: int| 0 <= i < a.len() && a[i] == b[0];
        assert(a[0] <= a[i]);
        assert(a[0] == b[0]);
        assert(a.remove(0) =~= a.drop_first());
        assert(b.remove(0) =~= b.drop_first());
        assert(a.drop_first().to_multiset() =~= a.to_multiset().remove(a[0]));
        assert(b.drop_first().to_multiset() =~= b.to_multiset().remove(b[0]));
        lemma_sorted_unique(a.drop_first(), b.drop_first());
        assert(a =~= seq![a[0]] + a.drop_first());
        assert(b =~= seq![b[0]] + b.drop_first());
    }
}

/// A sorted permutation of `s` is `sorted_times(s)`.
proof fn lemma_sorted_is_sorted_times(s: Seq<u128>, t: Seq<u128>)
    requires
        is_sorted(t),
        t.to_multiset() == s.to_multiset(),
    ensures
        t == sorted_times(s),
{
    lemma_ascending_total();
    s.lemma_sort_by_ensures(ascending());
    let u = sorted_times(s);
    assert forall|i: int, j: int| 0 <= i <= j < u.len() implies u[i] <= u[j] by {
        if i < j {
            assert(sorted_by(u, ascending()));
            assert((ascending())(u[i], u[j]));
        }
    }
    lemma_sorted_unique(t, u);
}

/// Every element of `s` lies between the ends of its sorted permutation.
proof fn lemma_element_within_sorted(s: Seq<u128>, t: Seq<u128>, i: int)
    requires
        is_sorted(t),
        t.to_multiset() == s.to_multiset(),
        0 <= i < s.len(),
    ensures
        t.len() > 0,
        t[0] <= s[i] <= t[t.len() - 1],
{
    assert(s.contains(s[i]));
    assert(t.to_multiset().count(s[i]) > 0);
    assert(t.contains(s[i]));
    let j = choose|j: int| 0 <= j < t.len() && t[j] == s[i];
}

/// A higher percentile never picks an earlier sample.
proof fn lemma_quantile_monotone(t: Seq<u128>, p: int, q: int)
    requires
        is_sorted(t),
        0 <= p <= q <= 100,
    ensures
        quantile_of(t, p) <= quantile_of(t, q),
{
    if t.len() > 0 {
        let n = t.len() as int;
        assert(p * n <= q * n) by (nonlinear_arith)
            requires
                p <= q,
                0 <= n,
        ;
        assert((p * n + 99) / 100 <= (q * n + 99) / 100) by (nonlinear_arith)
            requires
                p * n <= q * n,
        ;
    }
}

/// Percentiles lie between the smallest and the largest sample.
proof fn lemma_quantile_bounds(t: Seq<u128>, p: int)
    requires
        is_sorted(t),
        0 <= p <= 100,
    ensures
        t.len() > 0 ==> t[0] <= quantile_of(t, p) <= t[t.len() - 1],
{
}

} // verus!
