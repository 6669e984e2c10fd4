//! The bookkeeping of a pool or client and the decisions of its request path.
//!
//! A handle owns `total` in-flight permits (`max_in_flight` for a pool, 1 for a client).
//! Each request waits for a permit, runs, and is counted as a success or a failure;
//! closing refuses new requests for good and waits until every permit is back. The
//! waiting, the timers and the HTTP exchange belong to the caller, which reports their
//! outcome to the functions here.
use vstd::prelude::*;

use crate::config::{config_check, opt_str_view, ClickHouseConfig};
use crate::error::{ClickHouseError, ClickHouseResult, ErrorView};
use crate::response::server_version;
use crate::text::{decimal, decimal_string, trim};
use crate::types::{ClickHouseHealth, ClickHousePoolStats};

verus! {

/// The number of permits of a single-connection client.
pub const CLIENT_PERMITS: usize = 1;

/// Counters and state of a pool or client.
#[derive(Clone, Copy, Debug, PartialEq, Eq)]
pub struct PoolCounters {
    /// Permits of the handle.
    pub total: usize,
    /// Requests being executed.
    pub in_flight: usize,
    /// Requests waiting for a permit.
    pub waiters: usize,
    /// Requests that succeeded.
    pub ok: u64,
    /// Requests that failed.
    pub error: u64,
    /// Whether the handle was closed.
    pub closed: bool,
}

/// How waiting for a request permit ended.
#[derive(Clone, Copy, Debug, PartialEq, Eq)]
pub enum PermitOutcome {
    /// A permit was granted.
    Granted,
    /// The permit semaphore was closed.
    SemaphoreClosed,
    /// The acquire timeout elapsed first.
    TimedOut,
}

/// How waiting for every permit while closing ended.
#[derive(Clone, Copy, Debug, PartialEq, Eq)]
pub enum DrainOutcome {
    /// Every permit came back: nothing is in flight any more.
    Drained,
    /// The permit semaphore was closed.
    SemaphoreClosed,
    /// The drain deadline elapsed first.
    TimedOut,
}

/// `x + 1`, wrapping at the end of the range (as an atomic `fetch_add` does).
pub open spec fn bump_usize(x: usize) -> usize {
    if x == usize::MAX {
        0
    } else {
        (x + 1) as usize
    }
}

/// `x - 1`, wrapping at 0 (as an atomic `fetch_sub` does).
pub open spec fn drop_usize(x: usize) -> usize {
    if x == 0 {
        usize::MAX
    } else {
        (x - 1) as usize
    }
}

/// `x + 1`, wrapping at the end of the range.
pub open spec fn bump_u64(x: u64) -> u64 {
    if x == u64::MAX {
        0
    } else {
        (x + 1) as u64
    }
}

/// The state of a fresh handle with `permits` permits.
pub open spec fn fresh_counters(permits: usize) -> PoolCounters {
    PoolCounters { total: permits, in_flight: 0, waiters: 0, ok: 0, error: 0, closed: false }
}

/// The error of a handle built with no permit.
pub open spec fn no_permits_error() -> ErrorView {
    ErrorView::Config("并发额度必须 ≥ 1"@)
}

/// The outcome of building a handle: the configuration check, then at least one permit.
pub open spec fn handle_check(
    config: crate::config::ConfigView,
    permits: usize,
    plain_http_hosts: Option<Seq<char>>,
) -> Result<(), ErrorView> {
    if config_check(config, plain_http_hosts) is Err {
        config_check(config, plain_http_hosts)
    } else if permits == 0 {
        Err(no_permits_error())
    } else {
        Ok(())
    }
}

/// The error of a request on a closed handle.
pub open spec fn closed_error() -> ErrorView {
    ErrorView::Closed("连接已关闭"@)
}

/// The error when the permit semaphore itself was closed.
pub open spec fn semaphore_closed_error() -> ErrorView {
    ErrorView::Closed("背压信号量已关闭"@)
}

/// The error when no permit was granted within the acquire timeout.
pub open spec fn permit_timeout_error(total: usize) -> ErrorView {
    ErrorView::Timeout("等待 in-flight 许可超时（total="@ + decimal(total as nat) + "）"@)
}

/// The outcome of waiting for a permit, in a state whose `closed` flag is `closed`.
pub open spec fn permit_result(closed: bool, total: usize, outcome: PermitOutcome) -> Result<
    (),
    ErrorView,
> {
    match outcome {
        PermitOutcome::Granted => if closed {
            Err(closed_error())
        } else {
            Ok(())
        },
        PermitOutcome::SemaphoreClosed => Err(semaphore_closed_error()),
        PermitOutcome::TimedOut => Err(permit_timeout_error(total)),
    }
}

/// The drain deadline of `close`: twice the request timeout, in milliseconds.
pub open spec fn drain_deadline(timeout_ms: u64) -> nat {
    2 * (timeout_ms as nat)
}

/// The error when in-flight requests did not finish before the drain deadline.
pub open spec fn drain_timeout_error(timeout_ms: u64) -> ErrorView {
    ErrorView::Timeout(
        "close 等待在途操作排空超时（"@ + decimal(drain_deadline(timeout_ms))
            + "ms）；closed 位已置位，可稍后重试或查 stats().in_flight"@,
    )
}

/// The outcome of waiting for every permit while closing.
pub open spec fn drain_result(outcome: DrainOutcome, timeout_ms: u64) -> Result<(), ErrorView> {
    match outcome {
        DrainOutcome::Drained => Ok(()),
        DrainOutcome::SemaphoreClosed => Err(semaphore_closed_error()),
        DrainOutcome::TimedOut => Err(drain_timeout_error(timeout_ms)),
    }
}

/// The state once a request has started.
pub open spec fn after_begin(s: PoolCounters) -> PoolCounters {
    PoolCounters { in_flight: bump_usize(s.in_flight), ..s }
}

/// The state once a request has finished, successfully or not.
pub open spec fn after_finish(s: PoolCounters, succeeded: bool) -> PoolCounters {
    if succeeded {
        PoolCounters { in_flight: drop_usize(s.in_flight), ok: bump_u64(s.ok), ..s }
    } else {
        PoolCounters { in_flight: drop_usize(s.in_flight), error: bump_u64(s.error), ..s }
    }
}

/// The snapshot of `s` while `available` permits are free: none once closed.
pub open spec fn stats_of(s: PoolCounters, available: usize) -> ClickHousePoolStats {
    ClickHousePoolStats {
        total: s.total,
        open: if s.closed {
            0
        } else {
            available
        },
        in_flight: s.in_flight,
        waiters: s.waiters,
        ok: s.ok,
        error: s.error,
        closed: s.closed,
    }
}

fn bump(x: usize) -> (r: usize)
    ensures
        r == bump_usize(x),
{
    if x == usize::MAX {
        0
    } else {
        x + 1
    }
}

fn drop_one(x: usize) -> (r: usize)
    ensures
        r == drop_usize(x),
{
    if x == 0 {
        usize::MAX
    } else {
        x - 1
    }
}

fn bump64(x: u64) -> (r: u64)
    ensures
        r == bump_u64(x),
{
    if x == u64::MAX {
        0
    } else {
        x + 1
    }
}

impl PoolCounters {
    /// Builds the state of a handle with `permits` permits: the configuration must pass
    /// [`ClickHouseConfig::validate`] and there must be at least one permit.
    pub fn new(config: &ClickHouseConfig, permits: usize, plain_http_hosts: Option<&str>) -> (r:
        ClickHouseResult<PoolCounters>)
        ensures
            r is Ok <==> handle_check(config@, permits, opt_str_view(plain_http_hosts)) is Ok,
            r matches Err(e) ==> handle_check(config@, permits, opt_str_view(plain_http_hosts))
                == Err::<(), ErrorView>(e@),
            r matches Ok(c) ==> c == fresh_counters(permits),
    {
        match config.validate(plain_http_hosts) {
            Err(e) => {
                return Err(e);
            },
            Ok(()) => {},
        }
        if permits == 0 {
            return Err(ClickHouseError::Config(String::from_str("并发额度必须 ≥ 1")));
        }
        Ok(PoolCounters { total: permits, in_flight: 0, waiters: 0, ok: 0, error: 0, closed: false })
    }

    /// Refuses work on a closed handle.
    pub fn ensure_open(&self) -> (r: ClickHouseResult<()>)
        ensures
            r is Ok <==> !self.closed,
            r matches Err(e) ==> e@ == closed_error(),
    {
        if self.closed {
            return Err(ClickHouseError::Closed(String::from_str("连接已关闭")));
        }
        Ok(())
    }

    /// A request starts waiting for a permit.
    pub fn begin_wait(&mut self)
        ensures
            *final(self) == (PoolCounters { waiters: bump_usize(old(self).waiters), ..*old(self) }),
    {
        self.waiters = bump(self.waiters);
    }

    /// A request stops waiting for a permit, whatever the outcome.
    pub fn end_wait(&mut self)
        ensures
            *final(self) == (PoolCounters { waiters: drop_usize(old(self).waiters), ..*old(self) }),
    {
        self.waiters = drop_one(self.waiters);
    }

    /// Decides what a finished wait for a permit means: a granted permit is only used while
    /// the handle is still open (otherwise the caller gives it back).
    pub fn permit_outcome(&self, outcome: PermitOutcome) -> (r: ClickHouseResult<()>)
        ensures
            r is Ok <==> permit_result(self.closed, self.total, outcome) is Ok,
            r matches Err(e) ==> permit_result(self.closed, self.total, outcome) == Err::<
                (),
                ErrorView,
            >(e@),
    {
        match outcome {
            PermitOutcome::Granted => self.ensure_open(),
            PermitOutcome::SemaphoreClosed => Err(
                ClickHouseError::Closed(String::from_str("背压信号量已关闭")),
            ),
            PermitOutcome::TimedOut => {
                let msg = String::from_str("等待 in-flight 许可超时（total=").concat(
                    decimal_string(self.total as u128).as_str(),
                ).concat("）");
                Err(ClickHouseError::Timeout(msg))
            },
        }
    }

    /// A request holding a permit starts.
    pub fn begin_request(&mut self)
        ensures
            *final(self) == after_begin(*old(self)),
    {
        self.in_flight = bump(self.in_flight);
    }

    /// A started request finished; it counts as a success or a failure.
    pub fn finish_request(&mut self, succeeded: bool)
        ensures
            *final(self) == after_finish(*old(self), succeeded),
    {
        self.in_flight = drop_one(self.in_flight);
        if succeeded {
            self.ok = bump64(self.ok);
        } else {
            self.error = bump64(self.error);
        }
    }

    /// The snapshot of the counters while `available` permits are free.
    pub fn stats(&self, available: usize) -> (r: ClickHousePoolStats)
        ensures
            r == stats_of(*self, available),
    {
        ClickHousePoolStats {
            total: self.total,
            open: if self.closed {
                0
            } else {
                available
            },
            in_flight: self.in_flight,
            waiters: self.waiters,
            ok: self.ok,
            error: self.error,
            closed: self.closed,
        }
    }

    /// Marks the handle closed; nothing reopens it.
    pub fn close(&mut self)
        ensures
            *final(self) == (PoolCounters { closed: true, ..*old(self) }),
    {
        self.closed = true;
    }

    /// How many permits `close` waits for: all of them, at most `u32::MAX`.
    pub fn drain_permits(&self) -> (r: u32)
        ensures
            r == if self.total > u32::MAX {
                u32::MAX
            } else {
                self.total as u32
            },
    {
        if self.total > u32::MAX as usize {
            u32::MAX
        } else {
            self.total as u32
        }
    }
}

/// Decides what a finished drain of `close` means; `timeout_ms` is the request timeout,
/// whose double is the drain deadline.
pub fn drain_outcome(outcome: DrainOutcome, timeout_ms: u64) -> (r: ClickHouseResult<()>)
    ensures
        r is Ok <==> drain_result(outcome, timeout_ms) is Ok,
        r matches Err(e) ==> drain_result(outcome, timeout_ms) == Err::<(), ErrorView>(e@),
{
    match outcome {
        DrainOutcome::Drained => Ok(()),
        DrainOutcome::SemaphoreClosed => Err(
            ClickHouseError::Closed(String::from_str("背压信号量已关闭")),
        ),
        DrainOutcome::TimedOut => {
            let deadline: u128 = 2 * (timeout_ms as u128);
            let msg = String::from_str("close 等待在途操作排空超时（").concat(
                decimal_string(deadline).as_str(),
            ).concat("ms）；closed 位已置位，可稍后重试或查 stats().in_flight");
            Err(ClickHouseError::Timeout(msg))
        },
    }
}

/// The follow-up query of a health check: `SELECT version()`, asked only of a server that
/// answered the ping.
pub fn version_query(healthy: bool) -> (q: Option<&'static str>)
    ensures
        healthy ==> (q matches Some(s) && s@ == "SELECT version()"@),
        !healthy ==> q is None,
{
    if healthy {
        Some("SELECT version()")
    } else {
        None
    }
}

/// The health check result: whether `SELECT 1` succeeded, its round trip in milliseconds
/// (saturated to `u64::MAX`), and the trimmed answer of `SELECT version()` when the
/// server is healthy, answered, and the answer is not blank.
pub fn health_report(healthy: bool, elapsed_ms: u128, version_body: Option<&str>) -> (r:
    ClickHouseHealth)
    ensures
        r.healthy == healthy,
        r.latency_ms == if elapsed_ms > u64::MAX {
            u64::MAX as u128
        } else {
            elapsed_ms
        },
        !healthy ==> r.version is None,
        healthy && version_body is None ==> r.version is None,
        healthy ==> (version_body matches Some(b) ==> (if trim(b@).len() == 0 {
            r.version is None
        } else {
            r.version matches Some(v) && v@ == trim(b@)
        })),
{
    let latency_ms: u64 = if elapsed_ms > u64::MAX as u128 {
        u64::MAX
    } else {
        elapsed_ms as u64
    };
    let version = if healthy {
        match version_body {
            Some(b) => server_version(b),
            None => None,
        }
    } else {
        None
    };
    ClickHouseHealth { healthy, version, latency_ms }
}

/// Every request that starts and then finishes leaves the in-flight count where it was
/// and adds one to exactly one of the success and failure counts.
pub proof fn lemma_request_round_trip(s: PoolCounters, succeeded: bool)
    requires
        s.in_flight < usize::MAX,
        s.ok < u64::MAX,
        s.error < u64::MAX,
    ensures
        after_finish(after_begin(s), succeeded).in_flight == s.in_flight,
        after_finish(after_begin(s), succeeded).ok + after_finish(after_begin(s), succeeded).error
            == s.ok + s.error + 1,
        succeeded ==> after_finish(after_begin(s), succeeded).ok == s.ok + 1,
        !succeeded ==> after_finish(after_begin(s), succeeded).error == s.error + 1,
        after_finish(after_begin(s), succeeded).closed == s.closed,
        after_finish(after_begin(s), succeeded).total == s.total,
{
}

/// A closed handle stays closed through every request step and reports no free permit.
pub proof fn lemma_closed_is_final(s: PoolCounters, succeeded: bool, available: usize)
    requires
        s.closed,
    ensures
        after_begin(s).closed,
        after_finish(s, succeeded).closed,
        stats_of(s, available).open == 0,
        stats_of(s, available).closed,
        permit_result(s.closed, s.total, PermitOutcome::Granted) == Err::<(), ErrorView>(
            closed_error(),
        ),
{
}

/// Closing is idempotent: closing a closed handle changes nothing, and a drained close
/// succeeds however often it is repeated.
pub proof fn lemma_close_idempotent(s: PoolCounters, timeout_ms: u64)
    ensures
        (PoolCounters { closed: true, ..(PoolCounters { closed: true, ..s }) }) == (PoolCounters {
            closed: true,
            ..s
        }),
        drain_result(DrainOutcome::Drained, timeout_ms) == Ok::<(), ErrorView>(()),
{
}

} // verus!
