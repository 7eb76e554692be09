//! The progress cursor.
//!
//! As a run completes each operation it appends one record to
//! `<id>.progress`: the index of the operation in four bytes, the least first,
//! and a marker. The cursor is never flushed record by record, so that after a
//! crash it may lag behind by one and may end in part of a record. Recovery
//! looks at the backups instead and does not trust it.

use crate::utf8_path::join_path;
use crate::utf8_path::path_joined;
use super::names::PROGRESS_SUFFIX;
use super::names::journal_file;
use super::names::progress_name;
use vstd::prelude::*;

verus! {

/// The marker of a completed operation.
const COMPLETED_MARKER: u8 = 1;

/// The length of one record.
pub const RECORD_LEN: usize = 5;

/// The record of a completed operation.
pub open spec fn completion(op_index: u32) -> Seq<u8> {
    seq![
        (op_index % 256) as u8,
        (op_index / 256 % 256) as u8,
        (op_index / 65536 % 256) as u8,
        (op_index / 16777216) as u8,
        1u8,
    ]
}

/// The index in the first four bytes of a record.
pub open spec fn recorded_index(record: Seq<u8>) -> int {
    record[0] + 256 * record[1] + 65536 * record[2] + 16777216 * record[3]
}

/// The indices of the whole records in `bytes` that carry the marker.
pub open spec fn completed(bytes: Seq<u8>) -> Seq<u32>
    decreases bytes.len(),
{
    if bytes.len() < RECORD_LEN {
        Seq::empty()
    } else if bytes[4] == 1 {
        seq![recorded_index(bytes) as u32] + completed(bytes.skip(5))
    } else {
        completed(bytes.skip(5))
    }
}

/// The records of a row of completed operations.
pub open spec fn completions(indices: Seq<u32>) -> Seq<u8>
    decreases indices.len(),
{
    if indices.len() == 0 {
        Seq::empty()
    } else {
        completion(indices[0]) + completions(indices.drop_first())
    }
}

/// A cursor reads back as the operations that were recorded, in order, whatever
/// part of a record a crash left behind them.
pub proof fn cursor_round_trip(indices: Seq<u32>, tail: Seq<u8>)
    requires
        tail.len() < RECORD_LEN,
    ensures
        completed(completions(indices) + tail) == indices,
    decreases indices.len(),
{
    let bytes = completions(indices) + tail;
    if indices.len() == 0 {
        assert(bytes =~= tail);
        assert(completed(bytes) =~= indices);
    } else {
        let first = indices[0];
        cursor_round_trip(indices.drop_first(), tail);
        assert(bytes.skip(5) =~= completions(indices.drop_first()) + tail);
        assert(bytes.take(5) =~= completion(first));
        assert(forall|i: int| 0 <= i < 5 ==> bytes[i] == #[trigger] bytes.take(5)[i]);
        assert(recorded_index(bytes) == first);
        assert(completed(bytes) =~= indices);
    }
}

/// Where one run's progress is appended.
#[derive(Debug)]
pub struct ProgressCursor {
    path: String,
}

impl View for ProgressCursor {
    type V = Seq<char>;

    closed spec fn view(&self) -> Seq<char> {
        self.path@
    }
}

impl ProgressCursor {
    /// The cursor of the run `timestamp` in the journal directory `dir`.
    pub fn create(dir: &str, timestamp: &str) -> (r: Self)
        ensures
            r@ == path_joined(dir@, progress_name(timestamp@)),
    {
        ProgressCursor { path: join_path(dir, journal_file(timestamp, PROGRESS_SUFFIX).as_str()) }
    }

    /// The bytes to append when the operation `op_index` has completed.
    pub fn record(&self, op_index: u32) -> (bytes: Vec<u8>)
        ensures
            bytes@ == completion(op_index),
    {
        let mut bytes: Vec<u8> = Vec::new();
        bytes.push((op_index % 256) as u8);
        bytes.push((op_index / 256 % 256) as u8);
        bytes.push((op_index / 65536 % 256) as u8);
        bytes.push((op_index / 16777216) as u8);
        bytes.push(COMPLETED_MARKER);
        assert(bytes@ =~= completion(op_index));
        bytes
    }

    /// The path of the cursor.
    #[must_use]
    pub fn path(&self) -> (path: &str)
        ensures
            path@ == self@,
    {
        self.path.as_str()
    }

    /// The indices of the completed operations in `bytes`. A record that is
    /// shorter than [`RECORD_LEN`] or carries another marker does not count.
    #[must_use]
    pub fn decode_completed(bytes: &[u8]) -> (indices: Vec<u32>)
        ensures
            indices@ == completed(bytes@),
    {
        let mut indices: Vec<u32> = Vec::new();
        let mut at: usize = 0;
        assert(bytes@.skip(0) =~= bytes@);
        while bytes.len() - at >= RECORD_LEN
            invariant
                at <= bytes@.len(),
                completed(bytes@) == indices@ + completed(bytes@.skip(at as int)),
            decreases bytes@.len() - at,
        {
            let ghost rest = bytes@.skip(at as int);
            assert(rest.skip(5) =~= bytes@.skip(at + 5));
            assert(forall|k: int| 0 <= k < 5 ==> #[trigger] rest[k] == bytes@[at + k]);
            if bytes[at + 4] == COMPLETED_MARKER {
                let index: u32 = bytes[at] as u32 + 256 * (bytes[at + 1] as u32) + 65536 * (bytes[at
                    + 2] as u32) + 16777216 * (bytes[at + 3] as u32);
                let ghost before = indices@;
                indices.push(index);
                assert(indices@ + completed(rest.skip(5)) =~= before + (seq![index] + completed(
                    rest.skip(5),
                )));
            }
            at = at + 5;
        }
        assert(indices@ + Seq::<u32>::empty() =~= indices@);
        indices
    }
}

} // verus!
