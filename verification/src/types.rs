//! Public data types of the clients: batch insert options, the runtime statistics
//! snapshot and the health check result.
use vstd::prelude::*;

verus! {

/// Chunking options of a batch insert.
#[derive(Clone, Copy, Debug, PartialEq, Eq)]
pub struct BatchInsertOptions {
    /// Maximum rows per HTTP request (0 is raised to 1).
    pub max_rows_per_chunk: usize,
    /// Maximum bytes per HTTP request (0: no limit; a row over the limit still forms a chunk).
    pub max_bytes_per_chunk: usize,
    /// Maximum total rows of one batch insert (0: no limit).
    pub batch_size: usize,
}

impl Default for BatchInsertOptions {
    fn default() -> (r: Self)
        ensures
            r.max_rows_per_chunk == 1000,
            r.max_bytes_per_chunk == 0,
            r.batch_size == 0,
    {
        BatchInsertOptions { max_rows_per_chunk: 1000, max_bytes_per_chunk: 0, batch_size: 0 }
    }
}

impl BatchInsertOptions {
    /// Sets the maximum rows per HTTP request.
    pub fn max_rows_per_chunk(self, max_rows_per_chunk: usize) -> (r: Self)
        ensures
            r == (BatchInsertOptions { max_rows_per_chunk, ..self }),
    {
        BatchInsertOptions { max_rows_per_chunk, ..self }
    }

    /// Sets the maximum bytes per HTTP request (0: no limit).
    pub fn max_bytes_per_chunk(self, max_bytes_per_chunk: usize) -> (r: Self)
        ensures
            r == (BatchInsertOptions { max_bytes_per_chunk, ..self }),
    {
        BatchInsertOptions { max_bytes_per_chunk, ..self }
    }

    /// Sets the maximum total rows of one batch insert (0: no limit).
    pub fn batch_size(self, batch_size: usize) -> (r: Self)
        ensures
            r == (BatchInsertOptions { batch_size, ..self }),
    {
        BatchInsertOptions { batch_size, ..self }
    }
}

/// Runtime snapshot of a pool or client.
#[derive(Clone, Copy, Debug, PartialEq, Eq)]
pub struct ClickHousePoolStats {
    /// Concurrency limit (`max_in_flight` for a pool, 1 for a client).
    pub total: usize,
    /// Permits usable right now (0 once closed).
    pub open: usize,
    /// Requests being executed.
    pub in_flight: usize,
    /// Requests waiting for a permit.
    pub waiters: usize,
    /// Requests completed successfully so far.
    pub ok: u64,
    /// Requests failed so far.
    pub error: u64,
    /// Whether the handle is closed.
    pub closed: bool,
}

/// Result of a health check.
#[derive(Clone, Debug, PartialEq, Eq)]
pub struct ClickHouseHealth {
    /// Whether `SELECT 1` succeeded.
    pub healthy: bool,
    /// Server version (`SELECT version()`; `None` on failure).
    pub version: Option<String>,
    /// Round trip of `SELECT 1`, in milliseconds.
    pub latency_ms: u64,
}

} // verus!
