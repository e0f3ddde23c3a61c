//! Settlement-layer counters, the windows of a backward scan for commit
//! events, the choice of an interop message, and the JSON-RPC shapes that
//! carry rollup data.
use vstd::prelude::*;

verus! {

/// Batch counters of the settlement contract.
#[derive(Clone, Copy, Debug, PartialEq, Eq, Structural)]
pub struct BatchInfo {
    pub total_batches_committed: u64,
    pub total_batches_verified: u64,
    pub total_batches_executed: u64,
}

impl BatchInfo {
    /// Batches committed but not yet proved, as an inclusive range.
    pub fn pending_prove_range(&self) -> (r: Option<(u64, u64)>)
        ensures
            r is Some <==> self.total_batches_verified < self.total_batches_committed,
            r matches Some((a, b)) ==> a == self.total_batches_verified + 1 && b
                == self.total_batches_committed,
    {
        if self.total_batches_verified < self.total_batches_committed {
            Some((self.total_batches_verified + 1, self.total_batches_committed))
        } else {
            None
        }
    }

    /// Batches committed but not yet executed, as an inclusive range.
    pub fn pending_execute_range(&self) -> (r: Option<(u64, u64)>)
        ensures
            r is Some <==> self.total_batches_executed < self.total_batches_committed,
            r matches Some((a, b)) ==> a == self.total_batches_executed + 1 && b
                == self.total_batches_committed,
    {
        if self.total_batches_executed < self.total_batches_committed {
            Some((self.total_batches_executed + 1, self.total_batches_committed))
        } else {
            None
        }
    }
}

/// The next window `(from, to)` of a backward scan over blocks that stands at
/// `current_block` and goes down to `start_block` (exclusive): at most
/// `chunk_size` blocks ending at `current_block`, never below block 1.
/// `None` once the scan has passed `start_block`. After a window, the scan
/// goes on from `from - 1` unless `from` is 1.
pub fn next_scan_window(current_block: u64, start_block: u64, chunk_size: u64) -> (r: Option<
    (u64, u64),
>)
    requires
        chunk_size >= 1,
    ensures
        r is Some <==> current_block > start_block,
        r matches Some((from, to)) ==> to == current_block && from == (if current_block
            > chunk_size {
            current_block - chunk_size + 1
        } else {
            1
        }),
{
    if current_block <= start_block {
        None
    } else if current_block > chunk_size {
        Some((current_block - chunk_size + 1, current_block))
    } else {
        Some((1, current_block))
    }
}

/// Why no interop message could be chosen.
#[derive(Clone, Copy, Debug, PartialEq, Eq, Structural)]
pub enum InteropSelectError {
    /// The transaction sent no message.
    NoMessages,
    /// The transaction sent several messages and none was named.
    AmbiguousMessage,
}

/// Index of the interop message to prove among `count` messages of a
/// transaction: `message_index`, or the only one when none is named. A
/// named message must exist.
pub fn select_interop_message(count: usize, message_index: Option<u64>) -> (r: Result<
    usize,
    InteropSelectError,
>)
    requires
        count > 0 ==> (message_index matches Some(i) ==> i < count),
    ensures
        count == 0 ==> r == Err::<usize, InteropSelectError>(InteropSelectError::NoMessages),
        count > 1 && message_index is None ==> r == Err::<usize, InteropSelectError>(
            InteropSelectError::AmbiguousMessage,
        ),
        count == 1 && message_index is None ==> r == Ok::<usize, InteropSelectError>(0),
        count > 0 ==> (message_index matches Some(i) ==> r == Ok::<usize, InteropSelectError>(
            i as usize,
        )),
{
    if count == 0 {
        return Err(InteropSelectError::NoMessages);
    }
    match message_index {
        None => if count > 1 {
            Err(InteropSelectError::AmbiguousMessage)
        } else {
            Ok(0)
        },
        Some(i) => Ok(i as usize),
    }
}

/// A JSON-RPC response envelope.
#[derive(Clone, Debug)]
pub struct JsonResponse<T> {
    pub jsonrpc: String,
    pub id: u32,
    pub result: T,
}

/// Inclusion proof of an L2-to-L1 log, as the rollup node returns it.
#[derive(Clone, Debug)]
pub struct L2ToL1LogProof {
    pub proof: Vec<String>,
    pub id: u32,
    pub root: String,
}

} // verus!
