//! Why parallel chunks add up to the file: a model of the received file as a
//! sequence of bytes that connections write into at their own offsets.
//!
//! The receiver creates the file with its final length before any chunk
//! arrives. Each connection then writes what it reads at the offset where it
//! stands, independently of the others. The laws below say that the outcome
//! does not depend on how the writes of different connections interleave.

use crate::sender::{chunk_plan, lemma_plan_contiguous, lemma_plan_covers_file, ChunkAssignment};
use vstd::prelude::*;

verus! {

/// One write into the file: `data` goes to the positions from `offset` on.
pub struct FileWrite {
    pub offset: int,
    pub data: Seq<u8>,
}

impl FileWrite {
    /// Whether the write touches `position`.
    pub open spec fn covers(self, position: int) -> bool {
        self.offset <= position < self.offset + self.data.len()
    }

    /// Whether the write puts bytes of `source` where they are in `source`.
    pub open spec fn faithful_to(self, source: Seq<u8>) -> bool {
        &&& 0 <= self.offset
        &&& self.offset + self.data.len() <= source.len()
        &&& self.data == source.subrange(self.offset, self.offset + self.data.len())
    }
}

/// The file after one write. The file keeps its length.
pub open spec fn write_at(file: Seq<u8>, write: FileWrite) -> Seq<u8> {
    Seq::new(
        file.len(),
        |position: int|
            if write.covers(position) {
                write.data[position - write.offset]
            } else {
                file[position]
            },
    )
}

/// The file after a series of writes, first to last.
pub open spec fn after_writes(file: Seq<u8>, writes: Seq<FileWrite>) -> Seq<u8>
    decreases writes.len(),
{
    if writes.len() == 0 {
        file
    } else {
        write_at(after_writes(file, writes.drop_last()), writes.last())
    }
}

/// Whether one of the writes touches `position`.
pub open spec fn covered(writes: Seq<FileWrite>, position: int) -> bool {
    exists|k: int| 0 <= k < writes.len() && (#[trigger] writes[k]).covers(position)
}

/// The write that sends a whole chunk of `source`.
pub open spec fn chunk_write(source: Seq<u8>, chunk: ChunkAssignment) -> FileWrite {
    FileWrite {
        offset: chunk.offset as int,
        data: source.subrange(chunk.offset as int, chunk.offset + chunk.length),
    }
}

/// The writes of the workers of a plan, in the order in which they happen to
/// finish: `order` names the worker of each write.
pub open spec fn chunk_writes(source: Seq<u8>, plan: Seq<ChunkAssignment>, order: Seq<int>) -> Seq<
    FileWrite,
> {
    Seq::new(order.len(), |k: int| chunk_write(source, plan[order[k]]))
}

/// Whether `order` names workers of a plan of `workers` workers only, and
/// each of them at least once.
pub open spec fn names_every_worker(order: Seq<int>, workers: int) -> bool {
    &&& forall|k: int| 0 <= k < order.len() ==> 0 <= #[trigger] order[k] < workers
    &&& forall|i: int| 0 <= i < workers ==> order.contains(i)
}

/// Writes `data` into a file image held in memory, from `offset` on. A write
/// that would reach beyond the end of the image is not carried out, and the
/// answer is `false`.
pub fn store_at(file: &mut Vec<u8>, offset: u64, data: &[u8]) -> (stored: bool)
    ensures
        stored == (offset + data@.len() <= old(file)@.len()),
        stored ==> final(file)@ == write_at(
            old(file)@,
            FileWrite { offset: offset as int, data: data@ },
        ),
        !stored ==> final(file)@ == old(file)@,
{
    let size = file.len();
    let count = data.len();
    if count > size {
        return false;
    }
    if offset > (size - count) as u64 {
        return false;
    }
    let start: usize = offset as usize;
    let ghost write = FileWrite { offset: offset as int, data: data@ };
    let mut i: usize = 0;
    while i < count
        invariant
            i <= count,
            count == data@.len(),
            start + count <= size,
            size == old(file)@.len(),
            file@.len() == size,
            start == offset,
            forall|p: int|
                0 <= p < size ==> #[trigger] file@[p] == if start <= p < start + i {
                    data@[p - start]
                } else {
                    old(file)@[p]
                },
        decreases count - i,
    {
        file.set(start + i, data[i]);
        i = i + 1;
    }
    assert(file@ =~= write_at(old(file)@, write));
    true
}

/// After any series of writes that are faithful to a source of the file's
/// length, the file has kept its length, holds the source's byte wherever a
/// write touched it, and is unchanged everywhere else.
pub proof fn lemma_faithful_writes(file: Seq<u8>, source: Seq<u8>, writes: Seq<FileWrite>)
    requires
        file.len() == source.len(),
        forall|k: int| 0 <= k < writes.len() ==> (#[trigger] writes[k]).faithful_to(source),
    ensures
        after_writes(file, writes).len() == file.len(),
        forall|position: int|
            0 <= position < file.len() ==> #[trigger] after_writes(file, writes)[position]
                == if covered(writes, position) {
                source[position]
            } else {
                file[position]
            },
    decreases writes.len(),
{
    if writes.len() > 0 {
        let earlier = writes.drop_last();
        let last = writes.last();
        assert forall|k: int| 0 <= k < earlier.len() implies (#[trigger] earlier[k]).faithful_to(
            source,
        ) by {
            assert(earlier[k] == writes[k]);
        }
        lemma_faithful_writes(file, source, earlier);
        let before = after_writes(file, earlier);
        assert(last == writes[writes.len() - 1]);
        assert(last.faithful_to(source));
        assert forall|position: int| 0 <= position < file.len() implies #[trigger] after_writes(
            file,
            writes,
        )[position] == if covered(writes, position) {
            source[position]
        } else {
            file[position]
        } by {
            if last.covers(position) {
                assert(writes[writes.len() - 1].covers(position));
                assert(last.data[position - last.offset] == source[position]);
            } else if covered(earlier, position) {
                let k = choose|k: int|
                    0 <= k < earlier.len() && (#[trigger] earlier[k]).covers(position);
                assert(writes[k] == earlier[k]);
                assert(writes[k].covers(position));
            } else {
                if covered(writes, position) {
                    let k = choose|k: int|
                        0 <= k < writes.len() && (#[trigger] writes[k]).covers(position);
                    if k < earlier.len() {
                        assert(earlier[k] == writes[k]);
                        assert(earlier[k].covers(position));
                    }
                }
            }
        }
    }
}

/// A transfer that writes every byte of the file faithfully ends with the
/// source, whatever the file held before and however the writes interleave.
pub proof fn lemma_complete_transfer(file: Seq<u8>, source: Seq<u8>, writes: Seq<FileWrite>)
    requires
        file.len() == source.len(),
        forall|k: int| 0 <= k < writes.len() ==> (#[trigger] writes[k]).faithful_to(source),
        forall|position: int| 0 <= position < source.len() ==> covered(writes, position),
    ensures
        after_writes(file, writes) == source,
{
    lemma_faithful_writes(file, source, writes);
    assert(after_writes(file, writes) =~= source);
}

/// The chunks of a plan, written in any order, rebuild the source: the file
/// that the receiver ends up with is the file that the sender read.
pub proof fn lemma_chunks_rebuild_source(
    file: Seq<u8>,
    source: Seq<u8>,
    workers: u64,
    order: Seq<int>,
)
    requires
        workers >= 1,
        source.len() <= u64::MAX,
        file.len() == source.len(),
        names_every_worker(order, workers as int),
    ensures
        after_writes(
            file,
            chunk_writes(source, chunk_plan(source.len() as u64, workers), order),
        ) == source,
{
    let size = source.len() as u64;
    let plan = chunk_plan(size, workers);
    let writes = chunk_writes(source, plan, order);
    lemma_plan_contiguous(size, workers);
    assert forall|k: int| 0 <= k < writes.len() implies (#[trigger] writes[k]).faithful_to(
        source,
    ) by {
        let i = order[k];
        lemma_chunk_within_file(size, workers, i);
    }
    assert forall|position: int| 0 <= position < source.len() implies covered(
        writes,
        position,
    ) by {
        lemma_plan_covers_file(size, workers, position);
        let i = choose|i: int|
            0 <= i < workers && (#[trigger] plan[i]).offset <= position < plan[i].offset
                + plan[i].length;
        assert(order.contains(i));
        let k = choose|k: int| 0 <= k < order.len() && order[k] == i;
        lemma_chunk_within_file(size, workers, i);
        assert(writes[k] == chunk_write(source, plan[i]));
        assert(writes[k].covers(position));
    }
    lemma_complete_transfer(file, source, writes);
}

/// Every chunk of a plan lies within the file.
pub proof fn lemma_chunk_within_file(file_size: u64, workers: u64, index: int)
    requires
        workers >= 1,
        0 <= index < workers,
    ensures
        chunk_plan(file_size, workers)[index].offset + chunk_plan(
            file_size,
            workers,
        )[index].length <= file_size,
{
    crate::sender::lemma_share_within_file(file_size, workers, index);
}

/// Sending the same file again over what an earlier transfer left behind
/// ends with the source once more.
pub proof fn lemma_resend_rebuilds_source(
    file: Seq<u8>,
    source: Seq<u8>,
    workers_first: u64,
    order_first: Seq<int>,
    workers_second: u64,
    order_second: Seq<int>,
)
    requires
        workers_first >= 1,
        workers_second >= 1,
        source.len() <= u64::MAX,
        file.len() == source.len(),
        names_every_worker(order_first, workers_first as int),
        names_every_worker(order_second, workers_second as int),
    ensures
        after_writes(
            after_writes(
                file,
                chunk_writes(source, chunk_plan(source.len() as u64, workers_first), order_first),
            ),
            chunk_writes(source, chunk_plan(source.len() as u64, workers_second), order_second),
        ) == source,
{
    lemma_chunks_rebuild_source(file, source, workers_first, order_first);
    lemma_chunks_rebuild_source(source, source, workers_second, order_second);
}

} // verus!
