use vstd::prelude::*;

use bytes::Bytes;

use crate::buffer::{bytes_clone, bytes_len, bytes_slice, bytes_view};
use crate::error::ErrorCode;
use crate::metadata::ColumnMeta;

verus! {

/// The bytes fetched for one column of one row group, in one of two
/// shapes: the column's whole extent, or a set of page ranges.
pub enum ColumnChunkData {
    /// A subset of the column's pages. Each entry pairs a page range's
    /// absolute file offset with its bytes; `length` is the byte length
    /// of the full column chunk.
    Sparse { length: usize, entries: Vec<(usize, Bytes)> },
    /// The full column chunk and its absolute starting offset.
    Dense { offset: usize, data: Bytes },
}

/// Offsets of sparse entries are strictly ascending.
pub open spec fn offsets_ascending(entries: Seq<(usize, Bytes)>) -> bool {
    forall|i: int, j: int|
        0 <= i < j < entries.len() ==> (#[trigger] entries[i]).0 < (#[trigger] entries[j]).0
}

impl ColumnChunkData {
    /// Sparse entries are strictly ascending in offset (so an offset
    /// names at most one entry); a dense extent fits the address space.
    pub open spec fn wf(self) -> bool {
        match self {
            ColumnChunkData::Sparse { length, entries } => offsets_ascending(entries@),
            ColumnChunkData::Dense { offset, data } => offset + bytes_view(data).len()
                <= usize::MAX,
        }
    }

    /// Whether the chunk advertises byte offset `start` (a recorded page
    /// start for a sparse chunk, any offset inside the extent for a dense
    /// one).
    pub open spec fn spec_has_offset(self, start: int) -> bool {
        match self {
            ColumnChunkData::Sparse { length, entries } => exists|i: int|
                0 <= i < entries.len() && (#[trigger] entries[i]).0 == start,
            ColumnChunkData::Dense { offset, data } => offset <= start <= offset + bytes_view(
                data,
            ).len(),
        }
    }

    /// Every byte the chunk holds equals the file's byte at the same
    /// absolute offset, and lies inside column `col`'s extent.
    pub open spec fn from_file(self, file: Seq<u8>, col: ColumnMeta) -> bool {
        match self {
            ColumnChunkData::Sparse { length, entries } => {
                &&& length == col.length
                &&& forall|i: int|
                    0 <= i < entries.len() ==> col.start <= (#[trigger] entries[i]).0
                        && entries[i].0 + bytes_view(entries[i].1).len() <= col.start + col.length
                &&& forall|i: int|
                    0 <= i < entries.len() ==> bytes_view((#[trigger] entries[i]).1)
                        == file.subrange(
                        entries[i].0 as int,
                        entries[i].0 + bytes_view(entries[i].1).len(),
                    )
            },
            ColumnChunkData::Dense { offset, data } => {
                &&& offset == col.start
                &&& col.start + col.length <= file.len()
                &&& bytes_view(data) == file.subrange(
                    col.start as int,
                    col.start + col.length as int,
                )
            },
        }
    }

    /// Lookup that a `get` with an in-extent dense start cannot fail on.
    pub open spec fn dense_in_bounds(self, start: int) -> bool {
        self matches ColumnChunkData::Dense { offset, data } ==> offset <= start <= offset
            + bytes_view(data).len()
    }

    /// The bytes recorded at absolute offset `start`: for a sparse chunk
    /// the entry whose range begins exactly there, for a dense chunk the
    /// tail of the buffer from `start` on. A sparse lookup of an offset
    /// no entry advertises is an internal-consistency error.
    pub fn get(&self, start: usize) -> (r: Result<Bytes, ErrorCode>)
        requires
            self.wf(),
            self.dense_in_bounds(start as int),
        ensures
            *self is Sparse ==> ((r is Ok) <==> self.spec_has_offset(start as int)),
            *self is Sparse ==> (r matches Result::Ok(b) ==> exists|i: int|
                0 <= i < self->entries.len() && (#[trigger] self->entries[i]).0 == start
                    && bytes_view(b) == bytes_view(self->entries[i].1)),
            *self is Sparse && r is Err ==> r == Result::<Bytes, ErrorCode>::Err(
                ErrorCode::InvalidOffset,
            ),
            *self is Dense ==> r is Ok,
            *self is Dense ==> (r matches Result::Ok(b) ==> bytes_view(b) == bytes_view(
                self->data,
            ).subrange(start - self->offset, bytes_view(self->data).len() as int)),
    {
        match self {
            ColumnChunkData::Sparse { length, entries } => {
                proof {
                    assert(offsets_ascending(entries@));
                }
                let mut lo: usize = 0;
                let mut hi: usize = entries.len();
                while lo < hi
                    invariant
                        offsets_ascending(entries@),
                        *self == (ColumnChunkData::Sparse { length: *length, entries: *entries }),
                        lo <= hi <= entries.len(),
                        forall|i: int| 0 <= i < lo ==> (#[trigger] entries@[i]).0 < start,
                        forall|i: int|
                            hi <= i < entries.len() ==> (#[trigger] entries@[i]).0 > start,
                    decreases hi - lo,
                {
                    let mid = lo + (hi - lo) / 2;
                    let key = entries[mid].0;
                    if key < start {
                        proof {
                            assert forall|i: int| 0 <= i < mid + 1 implies (
                            #[trigger] entries@[i]).0 < start by {
                                if i < mid {
                                    assert(entries@[i].0 < entries@[mid as int].0);
                                }
                            }
                        }
                        lo = mid + 1;
                    } else if key > start {
                        proof {
                            assert forall|i: int| mid <= i < entries.len() implies (
                            #[trigger] entries@[i]).0 > start by {
                                if i > mid {
                                    assert(entries@[mid as int].0 < entries@[i].0);
                                }
                            }
                        }
                        hi = mid;
                    } else {
                        let b = bytes_clone(&entries[mid].1);
                        proof {
                            let es = self->entries;
                            assert(es == *entries);
                            assert((#[trigger] es@[mid as int]).0 == start);
                            assert(bytes_view(b) == bytes_view(es@[mid as int].1));
                            assert(self.spec_has_offset(start as int));
                        }
                        return Result::Ok(b);
                    }
                }
                Result::Err(ErrorCode::InvalidOffset)
            },
            ColumnChunkData::Dense { offset, data } => {
                let begin = start - *offset;
                let end = bytes_len(data);
                Result::Ok(bytes_slice(data, begin, end))
            },
        }
    }

    /// Byte length of the full column chunk this value stands for.
    pub fn len(&self) -> (r: usize)
        ensures
            r == match *self {
                ColumnChunkData::Sparse { length, entries } => length as int,
                ColumnChunkData::Dense { offset, data } => bytes_view(data).len() as int,
            },
    {
        match self {
            ColumnChunkData::Sparse { length, .. } => *length,
            ColumnChunkData::Dense { data, .. } => bytes_len(data),
        }
    }

    /// Whether `get_bytes(start, length)` stays inside the bytes recorded
    /// at `start`.
    pub open spec fn can_slice(self, start: int, length: int) -> bool {
        match self {
            ColumnChunkData::Sparse { length: l, entries } => forall|i: int|
                0 <= i < entries.len() && (#[trigger] entries[i]).0 == start ==> length
                    <= bytes_view(entries[i].1).len(),
            ColumnChunkData::Dense { offset, data } => start + length <= offset + bytes_view(
                data,
            ).len(),
        }
    }

    /// The first `length` bytes recorded at absolute offset `start`.
    pub fn get_bytes(&self, start: usize, length: usize) -> (r: Result<Bytes, ErrorCode>)
        requires
            self.wf(),
            self.dense_in_bounds(start as int),
            self.can_slice(start as int, length as int),
        ensures
            *self is Sparse ==> ((r is Ok) <==> self.spec_has_offset(start as int)),
            *self is Sparse ==> (r matches Result::Ok(b) ==> exists|i: int|
                0 <= i < self->entries.len() && (#[trigger] self->entries[i]).0 == start
                    && bytes_view(b) == bytes_view(self->entries[i].1).subrange(0, length as int)),
            *self is Sparse && r is Err ==> r == Result::<Bytes, ErrorCode>::Err(
                ErrorCode::InvalidOffset,
            ),
            *self is Dense ==> r is Ok,
            *self is Dense ==> (r matches Result::Ok(b) ==> bytes_view(b) == bytes_view(
                self->data,
            ).subrange(start - self->offset, start - self->offset + length)),
    {
        match self.get(start) {
            Result::Ok(b) => {
                let r = bytes_slice(&b, 0, length);
                Result::Ok(r)
            },
            Result::Err(e) => Result::Err(e),
        }
    }
}

/// Dense/sparse agreement: two chunks of the same column, both carrying
/// the same file's bytes, agree at every offset the sparse chunk
/// advertises — the sparse entry's bytes are exactly the dense buffer's
/// bytes at the same absolute offsets.
pub proof fn lemma_dense_sparse_agree(
    dense: ColumnChunkData,
    sparse: ColumnChunkData,
    file: Seq<u8>,
    col: ColumnMeta,
)
    requires
        dense is Dense,
        sparse is Sparse,
        dense.from_file(file, col),
        sparse.from_file(file, col),
    ensures
        forall|i: int|
            0 <= i < sparse->entries.len() ==> bytes_view((#[trigger] sparse->entries[i]).1)
                == bytes_view(dense->data).subrange(
                sparse->entries[i].0 - col.start,
                sparse->entries[i].0 - col.start + bytes_view(sparse->entries[i].1).len(),
            ),
{
    let entries = sparse->entries;
    let ddata = dense->data;
    assert forall|i: int| 0 <= i < entries.len() implies bytes_view((#[trigger] entries[i]).1)
        == bytes_view(ddata).subrange(
        entries[i].0 - col.start,
        entries[i].0 - col.start + bytes_view(entries[i].1).len(),
    ) by {
        let o = entries[i].0 as int;
        let l = bytes_view(entries[i].1).len() as int;
        assert(bytes_view(entries[i].1) =~= bytes_view(ddata).subrange(
            o - col.start,
            o - col.start + l,
        ));
    }
}

} // verus!
