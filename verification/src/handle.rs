//! The lifecycle of asynchronous results.
//!
//! A query submitted to the pool yields an [`AsyncResultHandle`], which can
//! be claimed for awaiting exactly once; the second claim fails. A
//! [`ResultSet`] carries the query's metadata and a payload that moves one
//! way: pending behind a handle, awaited, materialized as a batch, and
//! finally taken by the consumer. The actual waiting is the caller's: it
//! claims the handle, blocks on its task, and hands the batch back.

use vstd::prelude::*;

use crate::batch::ColumnBatch;
use crate::errors::{Error, ErrorSpec};

verus! {

/// A claim on an in-flight query: the scheduler task it stands for, when
/// the query started, and whether the handle was already consumed.
pub struct AsyncResultHandle {
    /// The caller's key for the scheduler task behind this handle.
    pub task_id: u64,
    /// The caller's clock reading when the query was submitted, in
    /// milliseconds.
    pub started_ms: u64,
    /// Whether the handle was already claimed for awaiting.
    pub consumed: bool,
}

/// The handle after a successful claim.
pub open spec fn consumed_handle(h: AsyncResultHandle) -> AsyncResultHandle {
    AsyncResultHandle { task_id: h.task_id, started_ms: h.started_ms, consumed: true }
}

impl AsyncResultHandle {
    /// A fresh, unconsumed handle over a scheduler task.
    pub fn new(task_id: u64, started_ms: u64) -> (r: Self)
        ensures
            r == (AsyncResultHandle { task_id, started_ms, consumed: false }),
    {
        AsyncResultHandle { task_id, started_ms, consumed: false }
    }

    /// Claims the handle for awaiting: hands out the task key once, and
    /// fails every later claim.
    pub fn consume(&mut self) -> (r: Result<u64, Error>)
        ensures
            old(self).consumed ==> (r matches Err(e) && e@ == ErrorSpec::HandleConsumed
                && *final(self) == *old(self)),
            !old(self).consumed ==> r == Ok::<u64, Error>(old(self).task_id) && *final(self)
                == consumed_handle(*old(self)),
    {
        if self.consumed {
            Err(Error::HandleConsumed)
        } else {
            self.consumed = true;
            Ok(self.task_id)
        }
    }
}

/// Single-consumption law: a successful claim leaves the handle consumed,
/// and [`AsyncResultHandle::consume`] promises the handle-consumed error
/// for every consumed handle — so the second of two claims always fails
/// with it.
pub proof fn lemma_single_consumption(h: AsyncResultHandle)
    requires
        !h.consumed,
    ensures
        consumed_handle(h).consumed,
        consumed_handle(h).task_id == h.task_id,
        consumed_handle(h).started_ms == h.started_ms,
{
}

/// Where a result set's payload stands: pending behind a handle, claimed
/// and being awaited, materialized, or already handed to the consumer.
pub enum QueryPayload {
    /// The query is in flight behind this handle.
    Pending(AsyncResultHandle),
    /// The handle was claimed; the caller is blocking on the task.
    Awaiting,
    /// The batch arrived.
    Ready(ColumnBatch),
    /// The batch was handed to the consumer.
    Taken,
}

/// One query's outcome: the cells it asked for, the window cell it belongs
/// to if a sliding window issued it, its payload, and how long it took.
pub struct ResultSet {
    pub h3indexes_queried: Option<Vec<u64>>,
    pub window_h3index: Option<u64>,
    pub payload: QueryPayload,
    /// How long the query took, in milliseconds; measured only for queries
    /// that went through a handle.
    pub query_duration_ms: Option<u64>,
}

impl ResultSet {
    /// A result set over an already materialized batch.
    pub fn from_batch(batch: ColumnBatch) -> (r: ResultSet)
        ensures
            r.h3indexes_queried is None,
            r.window_h3index is None,
            r.payload == QueryPayload::Ready(batch),
            r.query_duration_ms is None,
    {
        ResultSet {
            h3indexes_queried: None,
            window_h3index: None,
            payload: QueryPayload::Ready(batch),
            query_duration_ms: None,
        }
    }

    /// A result set over an in-flight query.
    pub fn from_handle(handle: AsyncResultHandle) -> (r: ResultSet)
        ensures
            r.h3indexes_queried is None,
            r.window_h3index is None,
            r.payload == QueryPayload::Pending(handle),
            r.query_duration_ms is None,
    {
        ResultSet {
            h3indexes_queried: None,
            window_h3index: None,
            payload: QueryPayload::Pending(handle),
            query_duration_ms: None,
        }
    }

    /// Claims the pending handle so the caller can block on its task:
    /// `Ok(Some(task_id))` the first time, `Ok(None)` once the batch is
    /// there or was taken, and the handle-consumed error when the payload
    /// is already being awaited or its handle was claimed before.
    pub fn begin_await(&mut self) -> (r: Result<Option<u64>, Error>)
        ensures
            match old(self).payload {
                QueryPayload::Pending(h) => {
                    if h.consumed {
                        r matches Err(e) && e@ == ErrorSpec::HandleConsumed
                            && *final(self) == *old(self)
                    } else {
                        r == Ok::<Option<u64>, Error>(Some(h.task_id)) && *final(self) == (
                        ResultSet { payload: QueryPayload::Awaiting, ..*old(self) })
                    }
                },
                QueryPayload::Awaiting => (r matches Err(e) && e@ == ErrorSpec::HandleConsumed
                    && *final(self) == *old(self)),
                _ => r == Ok::<Option<u64>, Error>(None) && *final(self) == *old(self),
            },
    {
        match &mut self.payload {
            QueryPayload::Pending(h) => {
                let id = h.consume()?;
                self.payload = QueryPayload::Awaiting;
                Ok(Some(id))
            },
            QueryPayload::Awaiting => Err(Error::HandleConsumed),
            _ => Ok(None),
        }
    }

    /// Hands the awaited batch back: the payload becomes ready and the
    /// duration is recorded.
    pub fn finish_await(&mut self, batch: ColumnBatch, duration_ms: u64)
        requires
            old(self).payload is Awaiting,
        ensures
            *final(self) == (ResultSet {
                payload: QueryPayload::Ready(batch),
                query_duration_ms: Some(duration_ms),
                ..*old(self)
            }),
    {
        self.payload = QueryPayload::Ready(batch);
        self.query_duration_ms = Some(duration_ms);
    }

    /// How many cells the query asked for, if it went through the planner.
    pub fn get_num_h3indexes_queried(&self) -> (r: Option<usize>)
        ensures
            match self.h3indexes_queried {
                Option::Some(v) => r == Some(v@.len() as usize),
                Option::None => r is None,
            },
    {
        match &self.h3indexes_queried {
            Option::Some(a) => Some(a.len()),
            Option::None => None,
        }
    }

    /// The cells the query asked for; empty when none were recorded.
    pub fn get_h3indexes_queried(&self) -> (r: Vec<u64>)
        ensures
            match self.h3indexes_queried {
                Option::Some(v) => r@ == v@,
                Option::None => r@ == Seq::<u64>::empty(),
            },
    {
        match &self.h3indexes_queried {
            Option::Some(a) => a.clone(),
            Option::None => {
                let r: Vec<u64> = Vec::new();
                proof {
                    assert(r@ =~= Seq::<u64>::empty());
                }
                r
            },
        }
    }

    /// The window cell this result belongs to, when a sliding window issued
    /// the query.
    pub fn get_window_index(&self) -> (r: Option<u64>)
        ensures
            r == self.window_h3index,
    {
        self.window_h3index
    }

    /// Whether the materialized batch is empty; `None` until the caller
    /// awaited the payload.
    pub fn get_empty(&self) -> (r: Option<bool>)
        ensures
            match self.payload {
                QueryPayload::Ready(b) => r == Some(b.is_empty_spec()),
                _ => r is None,
            },
    {
        match &self.payload {
            QueryPayload::Ready(b) => Some(b.is_empty()),
            _ => None,
        }
    }

    /// The column names and type names of the materialized batch; `None`
    /// until the caller awaited the payload.
    pub fn get_column_types(&self) -> (r: Option<Vec<(String, String)>>)
        ensures
            match self.payload {
                QueryPayload::Ready(b) => r matches Some(v) && v@.len() == b@.len() && (forall|
                    i: int,
                |
                    0 <= i < v@.len() ==> (#[trigger] v@[i]).0@ == b@[i].0 && v@[i].1@
                        == b@[i].1.kind_name_spec()),
                _ => r is None,
            },
    {
        match &self.payload {
            QueryPayload::Ready(b) => Some(b.column_types()),
            _ => None,
        }
    }

    /// Hands the batch to the consumer, once: ownership moves out and later
    /// calls return `None`.
    pub fn to_columnset(&mut self) -> (r: Option<ColumnBatch>)
        ensures
            match old(self).payload {
                QueryPayload::Ready(b) => r == Some(b) && *final(self) == (ResultSet {
                    payload: QueryPayload::Taken,
                    ..*old(self)
                }),
                _ => r is None && *final(self) == *old(self),
            },
    {
        let mut payload = QueryPayload::Taken;
        core::mem::swap(&mut payload, &mut self.payload);
        match payload {
            QueryPayload::Ready(b) => Some(b),
            QueryPayload::Pending(h) => {
                self.payload = QueryPayload::Pending(h);
                None
            },
            QueryPayload::Awaiting => {
                self.payload = QueryPayload::Awaiting;
                None
            },
            QueryPayload::Taken => None,
        }
    }

    /// How long the query took, in milliseconds; measured only for queries
    /// that went through a handle.
    pub fn get_query_duration_ms(&self) -> (r: Option<u64>)
        ensures
            r == self.query_duration_ms,
    {
        self.query_duration_ms
    }
}

} // verus!
