use vstd::prelude::*;

use std::sync::Arc;

use bytes::Bytes;

use crate::buffer::{bytes_clone, bytes_from_vec, bytes_view};
use crate::chunk::ColumnChunkData;
use crate::error::ErrorCode;
use crate::metadata::{wf_page_locations, ColumnMeta, PageLocation, ProjectionMask, RowGroupMetaData};
use crate::selection::{lemma_selects_in_bounds, RowSelection};

verus! {

/// The storage read capability this layer consumes: batched absolute
/// byte-range reads against a located object. Retries, auth and
/// connection pooling are the implementor's concern; this layer only
/// relies on a successful batch returning, positionally, exactly the
/// bytes of each requested range.
pub trait StorageReader {
    /// The bytes of the object stored at location `loc`. The default
    /// stands for a reader modelling no object at all; a verified
    /// implementor gives the real contents.
    open spec fn contents(&self, loc: Seq<char>) -> Seq<u8> {
        Seq::empty()
    }

    /// How many range reads have been issued through this reader. The
    /// default counts nothing; a verified implementor gives the real
    /// count.
    open spec fn reads_issued(&self) -> nat {
        0
    }

    /// Read the byte ranges `[start, end)` of the object at `loc`, one
    /// buffer per range, in submission order. Success means every range
    /// lay inside the object and every buffer holds its range's bytes;
    /// the implementor decides when to fail instead.
    fn read_batch(&mut self, loc: &str, ranges: &Vec<(usize, usize)>) -> (r: Result<
        Vec<Bytes>,
        ErrorCode,
    >)
        ensures
            forall|l: Seq<char>| #[trigger] final(self).contents(l) == old(self).contents(l),
            r matches Ok(v) ==> v.len() == ranges.len(),
            r matches Ok(v) ==> forall|i: int|
                0 <= i < ranges.len() ==> (#[trigger] ranges[i]).0 <= ranges[i].1 && ranges[i].1
                    <= old(self).contents(loc@).len(),
            r matches Ok(v) ==> forall|i: int|
                0 <= i < ranges.len() ==> bytes_view(#[trigger] v[i]) == old(self).contents(
                    loc@,
                ).subrange(ranges@[i].0 as int, ranges@[i].1 as int),
            r is Ok ==> final(self).reads_issued() == old(self).reads_issued() + ranges.len(),
    ;
}

/// A storage backend over one in-memory object, served for any location.
/// It counts the range reads it has performed, so a caller can observe
/// how many reads a `fetch` issued.
pub struct InMemoryStorage {
    pub data: Vec<u8>,
    pub reads: usize,
}

impl InMemoryStorage {
    pub fn new(data: Vec<u8>) -> (r: InMemoryStorage)
        ensures
            r.data == data,
            r.reads == 0,
    {
        InMemoryStorage { data, reads: 0 }
    }

    /// Number of range reads served so far.
    pub fn read_count(&self) -> (r: usize)
        ensures
            r == self.reads,
    {
        self.reads
    }
}

impl StorageReader for InMemoryStorage {
    open spec fn contents(&self, loc: Seq<char>) -> Seq<u8> {
        self.data@
    }

    open spec fn reads_issued(&self) -> nat {
        self.reads as nat
    }

    fn read_batch(&mut self, loc: &str, ranges: &Vec<(usize, usize)>) -> (r: Result<
        Vec<Bytes>,
        ErrorCode,
    >) {
        if usize::MAX - self.reads < ranges.len() {
            return Result::Err(ErrorCode::StorageError);
        }
        let mut out: Vec<Bytes> = Vec::new();
        let mut i: usize = 0;
        while i < ranges.len()
            invariant
                i <= ranges.len(),
                out.len() == i,
                *self == *old(self),
                usize::MAX - self.reads >= ranges.len(),
                forall|k: int|
                    0 <= k < i ==> (#[trigger] ranges@[k]).0 <= ranges@[k].1 && ranges@[k].1
                        <= self.data@.len(),
                forall|k: int|
                    0 <= k < i ==> bytes_view(#[trigger] out@[k]) == self.data@.subrange(
                        ranges@[k].0 as int,
                        ranges@[k].1 as int,
                    ),
            decreases ranges.len() - i,
        {
            let (s, e) = ranges[i];
            if s > e || e > self.data.len() {
                return Result::Err(ErrorCode::StorageError);
            }
            let mut buf: Vec<u8> = Vec::new();
            let mut p: usize = s;
            while p < e
                invariant
                    s <= p <= e,
                    e <= self.data@.len(),
                    *self == *old(self),
                    buf@ == self.data@.subrange(s as int, p as int),
                decreases e - p,
            {
                buf.push(self.data[p]);
                proof {
                    assert(self.data@.subrange(s as int, p + 1 as int) =~= self.data@.subrange(
                        s as int,
                        p as int,
                    ).push(self.data@[p as int]));
                }
                p += 1;
            }
            out.push(bytes_from_vec(buf));
            i += 1;
        }
        self.reads = self.reads + ranges.len();
        Result::Ok(out)
    }
}

/// Whether any selected row falls into page `j`'s row window. The window
/// of the last page is unbounded below the selection's end.
pub open spec fn page_needed(locs: Seq<PageLocation>, j: int, sel: RowSelection) -> bool {
    exists|row: int|
        #[trigger] sel.selects(row) && locs[j].first_row_index <= row && (j + 1 < locs.len()
            ==> row < locs[j + 1].first_row_index)
}

/// The byte range page `j` occupies.
pub open spec fn page_range(locs: Seq<PageLocation>, j: int) -> (usize, usize) {
    (locs[j].offset, (locs[j].offset + locs[j].compressed_page_size) as usize)
}

/// Byte ranges of the needed pages among pages `j..`, in page order.
pub open spec fn needed_page_ranges(locs: Seq<PageLocation>, sel: RowSelection, j: int) -> Seq<
    (usize, usize),
>
    decreases locs.len() - j when 0 <= j <= locs.len()
{
    if j >= locs.len() {
        Seq::empty()
    } else if page_needed(locs, j, sel) {
        seq![page_range(locs, j)] + needed_page_ranges(locs, sel, j + 1)
    } else {
        needed_page_ranges(locs, sel, j + 1)
    }
}

/// The byte ranges a selective fetch reads for one column: a leading
/// dictionary prefix when the first page starts past the column's start,
/// then the ranges of exactly the needed pages.
pub open spec fn spec_sparse_ranges(
    col: ColumnMeta,
    locs: Seq<PageLocation>,
    sel: RowSelection,
) -> Seq<(usize, usize)> {
    let pages = needed_page_ranges(locs, sel, 0);
    if locs.len() > 0 && locs[0].offset != col.start {
        seq![(col.start, locs[0].offset)] + pages
    } else {
        pages
    }
}

/// Under a well-formed offset index, every page lies inside the column's
/// byte extent.
proof fn lemma_page_extents(locs: Seq<PageLocation>, col: ColumnMeta, j: int)
    requires
        wf_page_locations(locs, col),
        0 <= j < locs.len(),
    ensures
        col.start <= locs[j].offset,
        locs[j].offset + locs[j].compressed_page_size <= col.start + col.length,
    decreases j, locs.len() - j,
{
    if j > 0 {
        lemma_page_extents(locs, col, j - 1);
        assert(locs[j - 1].offset + locs[j - 1].compressed_page_size <= locs[j].offset);
    }
    if j < locs.len() - 1 {
        lemma_page_extents_upper(locs, col, j);
    }
}

proof fn lemma_page_extents_upper(locs: Seq<PageLocation>, col: ColumnMeta, j: int)
    requires
        wf_page_locations(locs, col),
        0 <= j < locs.len(),
    ensures
        locs[j].offset + locs[j].compressed_page_size <= col.start + col.length,
    decreases locs.len() - j,
{
    if j < locs.len() - 1 {
        assert(locs[j].offset + locs[j].compressed_page_size <= locs[j + 1].offset);
        lemma_page_extents_upper(locs, col, j + 1);
    }
}

/// The needed-page ranges of pages `j..` are in-extent, non-empty,
/// non-overlapping and ascending, and start no earlier than page `j`.
proof fn lemma_needed_ranges_props(
    locs: Seq<PageLocation>,
    col: ColumnMeta,
    sel: RowSelection,
    j: int,
)
    requires
        wf_page_locations(locs, col),
        0 <= j <= locs.len(),
    ensures
        forall|a: int|
            0 <= a < needed_page_ranges(locs, sel, j).len() ==> {
                let rg = #[trigger] needed_page_ranges(locs, sel, j)[a];
                &&& col.start <= rg.0
                &&& rg.0 < rg.1
                &&& rg.1 <= col.start + col.length
                &&& (j < locs.len() ==> locs[j].offset <= rg.0)
            },
        forall|a: int, b: int|
            0 <= a < b < needed_page_ranges(locs, sel, j).len() ==> (
            #[trigger] needed_page_ranges(locs, sel, j)[a]).1 <= (#[trigger] needed_page_ranges(
                locs,
                sel,
                j,
            )[b]).0,
    decreases locs.len() - j,
{
    if j < locs.len() {
        lemma_needed_ranges_props(locs, col, sel, j + 1);
        lemma_page_extents(locs, col, j);
        let rest = needed_page_ranges(locs, sel, j + 1);
        if page_needed(locs, j, sel) {
            let cur = needed_page_ranges(locs, sel, j);
            assert(cur == seq![page_range(locs, j)] + rest);
            assert(cur[0] == page_range(locs, j));
            assert forall|a: int| 0 <= a < rest.len() implies (#[trigger] rest[a]).0
                >= locs[j].offset + locs[j].compressed_page_size by {
                if j + 1 < locs.len() {
                    assert(rest[a].0 >= locs[j + 1].offset);
                    assert(locs[j].offset + locs[j].compressed_page_size <= locs[j + 1].offset);
                }
            }
            assert forall|a: int| 0 <= a < cur.len() implies {
                let rg = #[trigger] cur[a];
                &&& col.start <= rg.0
                &&& rg.0 < rg.1
                &&& rg.1 <= col.start + col.length
                &&& locs[j].offset <= rg.0
            } by {
                if a > 0 {
                    assert(cur[a] == rest[a - 1]);
                }
            }
            assert forall|a: int, b: int| 0 <= a < b < cur.len() implies (#[trigger] cur[a]).1 <= (
            #[trigger] cur[b]).0 by {
                if a > 0 {
                    assert(cur[a] == rest[a - 1] && cur[b] == rest[b - 1]);
                } else {
                    assert(cur[b] == rest[b - 1]);
                    assert(cur[0].1 == locs[j].offset + locs[j].compressed_page_size);
                }
            }
        } else {
            assert(needed_page_ranges(locs, sel, j) == rest);
            assert forall|a: int| 0 <= a < rest.len() implies locs[j].offset <= (
            #[trigger] rest[a]).0 by {
                if j + 1 < locs.len() {
                    assert(rest[a].0 >= locs[j + 1].offset);
                    assert(locs[j].offset + locs[j].compressed_page_size <= locs[j + 1].offset);
                }
            }
        }
    }
}

/// The full planned range list of one column: in-extent, non-empty,
/// non-overlapping, ascending ranges.
pub proof fn lemma_sparse_ranges_props(col: ColumnMeta, locs: Seq<PageLocation>, sel: RowSelection)
    requires
        wf_page_locations(locs, col),
    ensures
        forall|a: int|
            0 <= a < spec_sparse_ranges(col, locs, sel).len() ==> {
                let rg = #[trigger] spec_sparse_ranges(col, locs, sel)[a];
                &&& col.start <= rg.0
                &&& rg.0 < rg.1
                &&& rg.1 <= col.start + col.length
            },
        forall|a: int, b: int|
            0 <= a < b < spec_sparse_ranges(col, locs, sel).len() ==> (#[trigger] spec_sparse_ranges(
                col,
                locs,
                sel,
            )[a]).1 <= (#[trigger] spec_sparse_ranges(col, locs, sel)[b]).0,
{
    lemma_needed_ranges_props(locs, col, sel, 0);
    let pages = needed_page_ranges(locs, sel, 0);
    let all = spec_sparse_ranges(col, locs, sel);
    if locs.len() > 0 && locs[0].offset != col.start {
        lemma_page_extents(locs, col, 0);
        assert(all == seq![(col.start, locs[0].offset)] + pages);
        assert(all[0] == (col.start, locs[0].offset));
        assert forall|a: int| 0 <= a < all.len() implies {
            let rg = #[trigger] all[a];
            &&& col.start <= rg.0
            &&& rg.0 < rg.1
            &&& rg.1 <= col.start + col.length
        } by {
            if a > 0 {
                assert(all[a] == pages[a - 1]);
            }
        }
        assert forall|a: int, b: int| 0 <= a < b < all.len() implies (#[trigger] all[a]).1 <= (
        #[trigger] all[b]).0 by {
            if a > 0 {
                assert(all[a] == pages[a - 1] && all[b] == pages[b - 1]);
            } else {
                assert(all[b] == pages[b - 1]);
                assert(pages[b - 1].0 >= locs[0].offset);
            }
        }
    }
}

/// Whether page `j` of `locs` holds any selected row.
fn page_needed_exec(locs: &Vec<PageLocation>, j: usize, sel: &RowSelection) -> (r: bool)
    requires
        j < locs.len(),
        sel.wf(),
    ensures
        r == page_needed(locs@, j as int, *sel),
{
    let lo = locs[j].first_row_index;
    if j + 1 < locs.len() {
        let hi = locs[j + 1].first_row_index;
        let r = sel.overlaps(lo, hi);
        proof {
            if r {
                let row = choose|row: int| lo <= row < hi && sel.selects(row);
                assert(sel.selects(row) && locs@[j as int].first_row_index <= row);
            }
            if page_needed(locs@, j as int, *sel) {
                let row = choose|row: int|
                    #[trigger] sel.selects(row) && locs@[j as int].first_row_index <= row && row
                        < locs@[j + 1 as int].first_row_index;
                assert(lo <= row < hi && sel.selects(row));
            }
        }
        r
    } else {
        let total = sel.total();
        if total <= lo {
            proof {
                if page_needed(locs@, j as int, *sel) {
                    let row = choose|row: int|
                        #[trigger] sel.selects(row) && locs@[j as int].first_row_index <= row;
                    lemma_selects_in_bounds(sel.selectors@, row);
                }
            }
            false
        } else {
            let r = sel.overlaps(lo, total);
            proof {
                if r {
                    let row = choose|row: int| lo <= row < total && sel.selects(row);
                    assert(sel.selects(row) && locs@[j as int].first_row_index <= row);
                }
                if page_needed(locs@, j as int, *sel) {
                    let row = choose|row: int|
                        #[trigger] sel.selects(row) && locs@[j as int].first_row_index <= row;
                    lemma_selects_in_bounds(sel.selectors@, row);
                    assert(lo <= row < total && sel.selects(row));
                }
            }
            r
        }
    }
}

/// The byte ranges a selective fetch reads for one column.
fn plan_column_sparse(col: &ColumnMeta, locs: &Vec<PageLocation>, sel: &RowSelection) -> (r: Vec<
    (usize, usize),
>)
    requires
        wf_page_locations(locs@, *col),
        sel.wf(),
    ensures
        r@ == spec_sparse_ranges(*col, locs@, *sel),
{
    let mut r: Vec<(usize, usize)> = Vec::new();
    if locs.len() > 0 && locs[0].offset != col.start {
        r.push((col.start, locs[0].offset));
    }
    let mut j: usize = 0;
    while j < locs.len()
        invariant
            j <= locs.len(),
            wf_page_locations(locs@, *col),
            sel.wf(),
            r@ + needed_page_ranges(locs@, *sel, j as int) == spec_sparse_ranges(
                *col,
                locs@,
                *sel,
            ),
        decreases locs.len() - j,
    {
        proof {
            lemma_page_extents(locs@, *col, j as int);
        }
        let ghost r0 = r@;
        if page_needed_exec(locs, j, sel) {
            let start = locs[j].offset;
            let end = locs[j].offset + locs[j].compressed_page_size;
            r.push((start, end));
            proof {
                assert(needed_page_ranges(locs@, *sel, j as int) == seq![
                    page_range(locs@, j as int),
                ] + needed_page_ranges(locs@, *sel, j + 1 as int));
                assert((start, end) == page_range(locs@, j as int));
                assert(r@ == r0.push((start, end)));
                assert(r@ + needed_page_ranges(locs@, *sel, j + 1 as int) =~= r0
                    + needed_page_ranges(locs@, *sel, j as int));
            }
        } else {
            proof {
                assert(needed_page_ranges(locs@, *sel, j as int) == needed_page_ranges(
                    locs@,
                    *sel,
                    j + 1 as int,
                ));
            }
        }
        j += 1;
    }
    proof {
        assert(needed_page_ranges(locs@, *sel, locs@.len() as int) =~= Seq::<
            (usize, usize),
        >::empty());
        assert(r@ + Seq::<(usize, usize)>::empty() =~= r@);
    }
    r
}

/// Per-column fetch plan for the selective (sparse) mode: the columns to
/// fetch in ascending order, each column's range list, each list's start
/// inside the flattened batch, and the flattened batch itself.
#[allow(clippy::type_complexity)]
fn plan_sparse(
    metadata: &RowGroupMetaData,
    chunks: &Vec<Option<Arc<ColumnChunkData>>>,
    pls: &Vec<Vec<PageLocation>>,
    projection: &ProjectionMask,
    sel: &RowSelection,
) -> (r: (Vec<usize>, Vec<Vec<(usize, usize)>>, Vec<usize>, Vec<(usize, usize)>))
    requires
        chunks@.len() == metadata.columns@.len(),
        pls@.len() == metadata.columns@.len(),
        forall|i: int|
            0 <= i < pls@.len() ==> wf_page_locations(
                (#[trigger] pls@[i])@,
                metadata.columns@[i],
            ),
        projection.compat(metadata.columns@.len() as int),
        sel.wf(),
    ensures
        r.0@.len() == r.1@.len(),
        r.0@.len() == r.2@.len(),
        forall|k: int| 0 <= k < r.0@.len() ==> (#[trigger] r.0@[k]) < chunks@.len(),
        forall|k1: int, k2: int|
            0 <= k1 < k2 < r.0@.len() ==> (#[trigger] r.0@[k1]) < (#[trigger] r.0@[k2]),
        forall|k: int|
            0 <= k < r.0@.len() ==> chunks@[(#[trigger] r.0@[k]) as int] is None
                && projection.spec_included(r.0@[k] as int),
        forall|i: int|
            0 <= i < chunks@.len() && chunks@[i] is None && projection.spec_included(i)
                ==> exists|k: int| 0 <= k < r.0@.len() && (#[trigger] r.0@[k]) as int == i,
        forall|k: int|
            0 <= k < r.0@.len() ==> (#[trigger] r.1@[k])@ == spec_sparse_ranges(
                metadata.columns@[r.0@[k] as int],
                pls@[r.0@[k] as int]@,
                *sel,
            ),
        forall|k: int| 0 <= k < r.0@.len() ==> (#[trigger] r.2@[k]) + r.1@[k]@.len() <= r.3@.len(),
        forall|k: int, q: int|
            0 <= k < r.0@.len() && 0 <= q < r.1@[k]@.len() ==> #[trigger] r.3@[r.2@[k] + q]
                == r.1@[k]@[q],
        r.0@.len() == 0 ==> r.3@.len() == 0,
{
    let n = chunks.len();
    let mut planned: Vec<usize> = Vec::new();
    let mut per_col: Vec<Vec<(usize, usize)>> = Vec::new();
    let mut starts: Vec<usize> = Vec::new();
    let mut flat: Vec<(usize, usize)> = Vec::new();
    let mut idx: usize = 0;
    while idx < n
        invariant
            n == chunks@.len(),
            chunks@.len() == metadata.columns@.len(),
            pls@.len() == metadata.columns@.len(),
            forall|i: int|
                0 <= i < pls@.len() ==> wf_page_locations(
                    (#[trigger] pls@[i])@,
                    metadata.columns@[i],
                ),
            projection.compat(metadata.columns@.len() as int),
            sel.wf(),
            idx <= n,
            planned@.len() == per_col@.len(),
            planned@.len() == starts@.len(),
            forall|k: int| 0 <= k < planned@.len() ==> (#[trigger] planned@[k]) < idx,
            forall|k1: int, k2: int|
                0 <= k1 < k2 < planned@.len() ==> (#[trigger] planned@[k1]) < (
                #[trigger] planned@[k2]),
            forall|k: int|
                0 <= k < planned@.len() ==> chunks@[(#[trigger] planned@[k]) as int] is None
                    && projection.spec_included(planned@[k] as int),
            forall|i: int|
                0 <= i < idx && chunks@[i] is None && projection.spec_included(i) ==> exists|k: int|
                    0 <= k < planned@.len() && (#[trigger] planned@[k]) as int == i,
            forall|k: int|
                0 <= k < planned@.len() ==> (#[trigger] per_col@[k])@ == spec_sparse_ranges(
                    metadata.columns@[planned@[k] as int],
                    pls@[planned@[k] as int]@,
                    *sel,
                ),
            forall|k: int|
                0 <= k < planned@.len() ==> (#[trigger] starts@[k]) + per_col@[k]@.len()
                    <= flat@.len(),
            forall|k: int, q: int|
                0 <= k < planned@.len() && 0 <= q < per_col@[k]@.len() ==> #[trigger] flat@[starts@[k]
                    + q] == per_col@[k]@[q],
            planned@.len() == 0 ==> flat@.len() == 0,
        decreases n - idx,
    {
        let ghost planned0 = planned@;
        let fetchable = chunks[idx].is_none() && projection.leaf_included(idx);
        if fetchable {
            let ranges = plan_column_sparse(metadata.column(idx), &pls[idx], sel);
            starts.push(flat.len());
            let ghost flat0 = flat@;
            let mut t: usize = 0;
            while t < ranges.len()
                invariant
                    t <= ranges@.len(),
                    flat@ == flat0 + ranges@.subrange(0, t as int),
                decreases ranges@.len() - t,
            {
                flat.push(ranges[t]);
                proof {
                    assert(flat0 + ranges@.subrange(0, t + 1 as int) =~= (flat0 + ranges@.subrange(
                        0,
                        t as int,
                    )).push(ranges@[t as int]));
                }
                t += 1;
            }
            proof {
                assert(ranges@.subrange(0, ranges@.len() as int) =~= ranges@);
                assert(flat@ == flat0 + ranges@);
            }
            per_col.push(ranges);
            planned.push(idx);
        }
        proof {
            assert forall|i: int|
                0 <= i < idx + 1 && chunks@[i] is None && projection.spec_included(
                    i,
                ) implies exists|k: int|
                0 <= k < planned@.len() && (#[trigger] planned@[k]) as int == i by {
                if i == idx as int {
                    assert((#[trigger] planned@[planned@.len() - 1]) as int == i);
                } else {
                    let k = choose|k: int|
                        0 <= k < planned0.len() && (#[trigger] planned0[k]) as int == i;
                    assert((#[trigger] planned@[k]) as int == i);
                }
            }
        }
        idx += 1;
    }
    (planned, per_col, starts, flat)
}

/// Per-column fetch plan for the full-column (dense) mode: the columns to
/// fetch in ascending order, and one whole-extent range per column.
fn plan_dense(
    metadata: &RowGroupMetaData,
    chunks: &Vec<Option<Arc<ColumnChunkData>>>,
    projection: &ProjectionMask,
) -> (r: (Vec<usize>, Vec<(usize, usize)>))
    requires
        chunks@.len() == metadata.columns@.len(),
        metadata.wf(),
        projection.compat(metadata.columns@.len() as int),
    ensures
        r.0@.len() == r.1@.len(),
        forall|k: int| 0 <= k < r.0@.len() ==> (#[trigger] r.0@[k]) < chunks@.len(),
        forall|k1: int, k2: int|
            0 <= k1 < k2 < r.0@.len() ==> (#[trigger] r.0@[k1]) < (#[trigger] r.0@[k2]),
        forall|k: int|
            0 <= k < r.0@.len() ==> chunks@[(#[trigger] r.0@[k]) as int] is None
                && projection.spec_included(r.0@[k] as int),
        forall|i: int|
            0 <= i < chunks@.len() && chunks@[i] is None && projection.spec_included(i)
                ==> exists|k: int| 0 <= k < r.0@.len() && (#[trigger] r.0@[k]) as int == i,
        forall|k: int|
            0 <= k < r.0@.len() ==> #[trigger] r.1@[k] == (
                metadata.columns@[r.0@[k] as int].start,
                (metadata.columns@[r.0@[k] as int].start
                    + metadata.columns@[r.0@[k] as int].length) as usize,
            ),
{
    let n = chunks.len();
    let mut planned: Vec<usize> = Vec::new();
    let mut flat: Vec<(usize, usize)> = Vec::new();
    let mut idx: usize = 0;
    while idx < n
        invariant
            n == chunks@.len(),
            chunks@.len() == metadata.columns@.len(),
            metadata.wf(),
            projection.compat(metadata.columns@.len() as int),
            idx <= n,
            planned@.len() == flat@.len(),
            forall|k: int| 0 <= k < planned@.len() ==> (#[trigger] planned@[k]) < idx,
            forall|k1: int, k2: int|
                0 <= k1 < k2 < planned@.len() ==> (#[trigger] planned@[k1]) < (
                #[trigger] planned@[k2]),
            forall|k: int|
                0 <= k < planned@.len() ==> chunks@[(#[trigger] planned@[k]) as int] is None
                    && projection.spec_included(planned@[k] as int),
            forall|i: int|
                0 <= i < idx && chunks@[i] is None && projection.spec_included(i) ==> exists|k: int|
                    0 <= k < planned@.len() && (#[trigger] planned@[k]) as int == i,
            forall|k: int|
                0 <= k < planned@.len() ==> #[trigger] flat@[k] == (
                    metadata.columns@[planned@[k] as int].start,
                    (metadata.columns@[planned@[k] as int].start
                        + metadata.columns@[planned@[k] as int].length) as usize,
                ),
        decreases n - idx,
    {
        let ghost planned0 = planned@;
        let fetchable = chunks[idx].is_none() && projection.leaf_included(idx);
        if fetchable {
            let column = metadata.column(idx);
            let (start, length) = column.byte_range();
            proof {
                assert(metadata.columns@[idx as int].wf());
            }
            flat.push((start, start + length));
            planned.push(idx);
        }
        proof {
            assert forall|i: int|
                0 <= i < idx + 1 && chunks@[i] is None && projection.spec_included(
                    i,
                ) implies exists|k: int|
                0 <= k < planned@.len() && (#[trigger] planned@[k]) as int == i by {
                if i == idx as int {
                    assert((#[trigger] planned@[planned@.len() - 1]) as int == i);
                } else {
                    let k = choose|k: int|
                        0 <= k < planned0.len() && (#[trigger] planned0[k]) as int == i;
                    assert((#[trigger] planned@[k]) as int == i);
                }
            }
        }
        idx += 1;
    }
    (planned, flat)
}

/// A sparse chunk as a selective fetch of column `col` leaves it: one
/// entry per planned range, in order, each holding the file's bytes for
/// exactly that range.
pub open spec fn sparse_chunk_for(
    c: ColumnChunkData,
    file: Seq<u8>,
    col: ColumnMeta,
    locs: Seq<PageLocation>,
    sel: RowSelection,
) -> bool {
    &&& c is Sparse
    &&& c.wf()
    &&& c.from_file(file, col)
    &&& c->entries@.len() == spec_sparse_ranges(col, locs, sel).len()
    &&& forall|q: int|
        0 <= q < c->entries@.len() ==> (#[trigger] c->entries@[q]).0 == spec_sparse_ranges(
            col,
            locs,
            sel,
        )[q].0 && c->entries@[q].0 + bytes_view(c->entries@[q].1).len() == spec_sparse_ranges(
            col,
            locs,
            sel,
        )[q].1
}

/// A dense chunk as a full-column fetch of column `col` leaves it: the
/// column's whole extent, holding the file's bytes for it.
pub open spec fn dense_chunk_for(c: ColumnChunkData, file: Seq<u8>, col: ColumnMeta) -> bool {
    &&& c is Dense
    &&& c.wf()
    &&& c.from_file(file, col)
}

/// Everything the external page decoder needs to walk one fetched
/// column: its byte accessor, byte extent, the row count, and the
/// column's page locations when the file carries an offset index.
pub struct ConfiguredPageReader {
    pub chunk: Arc<ColumnChunkData>,
    pub column: ColumnMeta,
    pub row_count: usize,
    pub page_locations: Option<Vec<PageLocation>>,
}

/// A one-shot sequence yielding exactly one configured page reader.
pub struct ColumnChunkIterator {
    pub reader: Option<ConfiguredPageReader>,
}

impl ColumnChunkIterator {
    /// The first call hands out the configured reader; later calls yield
    /// nothing.
    pub fn next(&mut self) -> (r: Option<ConfiguredPageReader>)
        ensures
            r == old(self).reader,
            final(self).reader is None,
    {
        self.reader.take()
    }
}

fn copy_page_locations(v: &Vec<PageLocation>) -> (r: Vec<PageLocation>)
    ensures
        r@ == v@,
{
    let mut r: Vec<PageLocation> = Vec::new();
    let mut i: usize = 0;
    while i < v.len()
        invariant
            i <= v@.len(),
            r@ == v@.subrange(0, i as int),
        decreases v@.len() - i,
    {
        r.push(v[i]);
        proof {
            assert(v@.subrange(0, i + 1 as int) =~= v@.subrange(0, i as int).push(v@[i as int]));
        }
        i += 1;
    }
    proof {
        assert(v@.subrange(0, v@.len() as int) =~= v@);
    }
    r
}

/// The in-memory image of one row group: per projected column, the
/// fetched bytes; populated incrementally and idempotently by `fetch`.
pub struct InMemoryRowGroup {
    pub metadata: RowGroupMetaData,
    pub page_locations: Option<Vec<Vec<PageLocation>>>,
    pub column_chunks: Vec<Option<Arc<ColumnChunkData>>>,
    pub row_count: usize,
}

impl InMemoryRowGroup {
    /// One slot per column; page locations, when present, describe each
    /// column's pages; populated slots hold well-formed chunks.
    pub open spec fn wf(self) -> bool {
        &&& self.metadata.wf()
        &&& self.column_chunks@.len() == self.metadata.columns@.len()
        &&& self.row_count == self.metadata.num_rows
        &&& (self.page_locations matches Some(pls) ==> pls@.len() == self.metadata.columns@.len()
            && (forall|i: int|
            0 <= i < pls@.len() ==> wf_page_locations(
                (#[trigger] pls@[i])@,
                self.metadata.columns@[i],
            )))
        &&& forall|i: int|
            0 <= i < self.column_chunks@.len() ==> ((#[trigger] self.column_chunks@[i]) matches Some(
                c,
            ) ==> (*c).wf())
    }

    pub fn new(metadata: RowGroupMetaData, page_locations: Option<Vec<Vec<PageLocation>>>) -> (r:
        InMemoryRowGroup)
        requires
            metadata.wf(),
            page_locations matches Some(pls) ==> pls@.len() == metadata.columns@.len() && (
            forall|i: int|
                0 <= i < pls@.len() ==> wf_page_locations(
                    (#[trigger] pls@[i])@,
                    metadata.columns@[i],
                )),
        ensures
            r.wf(),
            r.metadata == metadata,
            r.page_locations == page_locations,
            r.row_count == metadata.num_rows,
            r.column_chunks@.len() == metadata.columns@.len(),
            forall|i: int| 0 <= i < r.column_chunks@.len() ==> (#[trigger] r.column_chunks@[i]) is None,
    {
        let n = metadata.columns.len();
        let row_count = metadata.num_rows;
        let mut column_chunks: Vec<Option<Arc<ColumnChunkData>>> = Vec::new();
        let mut i: usize = 0;
        while i < n
            invariant
                i <= n,
                column_chunks@.len() == i,
                forall|j: int|
                    0 <= j < i ==> (#[trigger] column_chunks@[j]) is None,
            decreases n - i,
        {
            column_chunks.push(Option::None);
            i += 1;
        }
        InMemoryRowGroup { metadata, page_locations, column_chunks, row_count }
    }

    /// The row group's row count.
    pub fn num_rows(&self) -> (r: usize)
        ensures
            r == self.row_count,
    {
        self.row_count
    }
}

/// Builds the sparse chunk for one column from the batch results:
/// entry `q` pairs range `q`'s start with buffer `st + q`.
fn build_sparse_chunk(
    v: &Vec<Bytes>,
    st: usize,
    ranges: &Vec<(usize, usize)>,
    length: usize,
    Ghost(file): Ghost<Seq<u8>>,
    Ghost(col): Ghost<ColumnMeta>,
    Ghost(locs): Ghost<Seq<PageLocation>>,
    Ghost(sel): Ghost<RowSelection>,
) -> (c: ColumnChunkData)
    requires
        wf_page_locations(locs, col),
        ranges@ == spec_sparse_ranges(col, locs, sel),
        length == col.length,
        st + ranges@.len() <= v@.len(),
        forall|q: int|
            0 <= q < ranges@.len() ==> (#[trigger] ranges@[q]).0 <= ranges@[q].1 && ranges@[q].1
                <= file.len(),
        forall|q: int|
            0 <= q < ranges@.len() ==> bytes_view(#[trigger] v@[st + q]) == file.subrange(
                ranges@[q].0 as int,
                ranges@[q].1 as int,
            ),
    ensures
        sparse_chunk_for(c, file, col, locs, sel),
{
    let cnt = ranges.len();
    let vlen = v.len();
    let mut entries: Vec<(usize, Bytes)> = Vec::new();
    let mut t: usize = 0;
    while t < cnt
        invariant
            t <= cnt,
            cnt == ranges@.len(),
            vlen == v@.len(),
            st + cnt <= vlen,
            forall|q: int|
                0 <= q < ranges@.len() ==> (#[trigger] ranges@[q]).0 <= ranges@[q].1
                    && ranges@[q].1 <= file.len(),
            forall|q: int|
                0 <= q < ranges@.len() ==> bytes_view(#[trigger] v@[st + q]) == file.subrange(
                    ranges@[q].0 as int,
                    ranges@[q].1 as int,
                ),
            entries@.len() == t,
            forall|q: int|
                0 <= q < t ==> (#[trigger] entries@[q]).0 == ranges@[q].0 && bytes_view(
                    entries@[q].1,
                ) == file.subrange(ranges@[q].0 as int, ranges@[q].1 as int),
        decreases cnt - t,
    {
        let (rs, re) = ranges[t];
        let b = bytes_clone(&v[st + t]);
        entries.push((rs, b));
        t += 1;
    }
    let chunk = ColumnChunkData::Sparse { length, entries };
    proof {
        lemma_sparse_ranges_props(col, locs, sel);
        assert forall|a: int, b2: int|
            0 <= a < b2 < chunk->entries@.len() implies (#[trigger] chunk->entries@[a]).0 < (
        #[trigger] chunk->entries@[b2]).0 by {
            assert(chunk->entries@[a].0 == ranges@[a].0);
            assert(chunk->entries@[b2].0 == ranges@[b2].0);
            assert((#[trigger] ranges@[a]).1 <= (#[trigger] ranges@[b2]).0);
            assert(ranges@[a].0 < ranges@[a].1);
        }
        assert(crate::chunk::offsets_ascending(chunk->entries@));
        assert(chunk.wf());
        assert forall|q: int|
            0 <= q < chunk->entries@.len() implies col.start <= (#[trigger] chunk->entries@[q]).0
            && chunk->entries@[q].0 + bytes_view(chunk->entries@[q].1).len() <= col.start
            + col.length && chunk->entries@[q].0 == ranges@[q].0 && chunk->entries@[q].0
            + bytes_view(chunk->entries@[q].1).len() == ranges@[q].1 by {
            assert(chunk->entries@[q].0 == ranges@[q].0);
            assert((#[trigger] ranges@[q]).0 <= ranges@[q].1 && ranges@[q].1 <= file.len());
            assert(bytes_view(chunk->entries@[q].1) == file.subrange(
                ranges@[q].0 as int,
                ranges@[q].1 as int,
            ));
            assert(bytes_view(chunk->entries@[q].1).len() == ranges@[q].1 - ranges@[q].0);
        }
        assert(chunk.from_file(file, col));
        assert(sparse_chunk_for(chunk, file, col, locs, sel));
    }
    chunk
}

/// Builds the dense chunk for one column: the column's whole extent.
fn build_dense_chunk(
    b: Bytes,
    offset: usize,
    Ghost(file): Ghost<Seq<u8>>,
    Ghost(col): Ghost<ColumnMeta>,
) -> (c: ColumnChunkData)
    requires
        col.wf(),
        offset == col.start,
        col.start + col.length <= file.len(),
        bytes_view(b) == file.subrange(col.start as int, col.start + col.length as int),
    ensures
        dense_chunk_for(c, file, col),
{
    let chunk = ColumnChunkData::Dense { offset, data: b };
    proof {
        assert(bytes_view(chunk->data).len() == col.length);
        assert(chunk.wf());
        assert(chunk.from_file(file, col));
    }
    chunk
}

impl InMemoryRowGroup {
    /// Fetch into memory the byte ranges the projection needs, reading
    /// only columns no earlier call populated. With both a row selection
    /// and an offset index, each column is stored as a sparse chunk of
    /// exactly the planned page ranges (plus the dictionary prefix);
    /// otherwise each column is stored densely as its whole extent. All
    /// ranges of one call go to the storage reader as a single batch; on
    /// failure nothing is stored. A call that finds every projected
    /// column already populated reads nothing and leaves the reader
    /// untouched.
    #[verifier::rlimit(100)]
    pub fn fetch<R: StorageReader>(
        &mut self,
        loc: &str,
        op: &mut R,
        projection: &ProjectionMask,
        selection: Option<&RowSelection>,
    ) -> (r: Result<(), ErrorCode>)
        requires
            old(self).wf(),
            projection.compat(old(self).metadata.columns@.len() as int),
            selection matches Some(sel) ==> sel.wf(),
        ensures
            final(self).metadata == old(self).metadata,
            final(self).page_locations == old(self).page_locations,
            final(self).row_count == old(self).row_count,
            final(self).column_chunks@.len() == old(self).column_chunks@.len(),
            final(self).wf(),
            forall|l: Seq<char>| #[trigger] final(op).contents(l) == old(op).contents(l),
            r is Err ==> *final(self) == *old(self),
            forall|i: int|
                0 <= i < old(self).column_chunks@.len() && (old(self).column_chunks@[i] is Some
                    || !projection.spec_included(i)) ==> final(self).column_chunks@[i] == old(
                    self,
                ).column_chunks@[i],
            r is Ok ==> forall|i: int|
                0 <= i < old(self).column_chunks@.len() && projection.spec_included(i)
                    ==> (#[trigger] final(self).column_chunks@[i]) is Some,
            selection matches Some(sel) ==> (old(self).page_locations matches Some(pls) ==> (r
                is Ok ==> forall|i: int|
                0 <= i < old(self).column_chunks@.len() && projection.spec_included(i) && old(
                    self,
                ).column_chunks@[i] is None ==> ((#[trigger] final(self).column_chunks@[i]) matches Some(c) && sparse_chunk_for(
                    *c,
                    old(op).contents(loc@),
                    old(self).metadata.columns@[i],
                    pls@[i]@,
                    *sel,
                )))),
            r is Ok && !(selection is Some && old(self).page_locations is Some) ==> forall|i: int|
                0 <= i < old(self).column_chunks@.len() && projection.spec_included(i) && old(
                    self,
                ).column_chunks@[i] is None ==> ((#[trigger] final(self).column_chunks@[i]) matches Some(c) && dense_chunk_for(
                    *c,
                    old(op).contents(loc@),
                    old(self).metadata.columns@[i],
                )),
            (forall|i: int|
                0 <= i < old(self).column_chunks@.len() && projection.spec_included(i) ==> (
                #[trigger] old(self).column_chunks@[i]) is Some) ==> (r is Ok && *final(self)
                == *old(self) && *final(op) == *old(op)),
    {
        let ghost file = op.contents(loc@);
        match (selection, &self.page_locations) {
            (Option::Some(sel), Option::Some(pls)) => {
                let ghost plsg = pls@;
                let (planned, per_col, starts, flat) = plan_sparse(
                    &self.metadata,
                    &self.column_chunks,
                    pls,
                    projection,
                    sel,
                );
                proof {
                    if planned@.len() > 0 {
                        assert(old(self).column_chunks@[(#[trigger] planned@[0]) as int] is None
                            && projection.spec_included(planned@[0] as int));
                    }
                }
                if planned.len() == 0 {
                    return Result::Ok(());
                }
                let v: Vec<Bytes> = if flat.len() > 0 {
                    match op.read_batch(loc, &flat) {
                        Result::Ok(v) => v,
                        Result::Err(e) => {
                            return Result::Err(e);
                        },
                    }
                } else {
                    Vec::new()
                };
                proof {
                    assert(v@.len() == flat@.len());
                    assert(forall|q: int|
                        0 <= q < flat@.len() ==> (#[trigger] flat@[q]).0 <= flat@[q].1
                            && flat@[q].1 <= file.len());
                    assert(forall|q: int|
                        0 <= q < flat@.len() ==> bytes_view(#[trigger] v@[q]) == file.subrange(
                            flat@[q].0 as int,
                            flat@[q].1 as int,
                        ));
                }
                let mut k: usize = 0;
                while k < planned.len()
                    invariant
                        self.metadata == old(self).metadata,
                        self.page_locations == old(self).page_locations,
                        self.row_count == old(self).row_count,
                        self.column_chunks@.len() == old(self).column_chunks@.len(),
                        old(self).wf(),
                        old(self).page_locations matches Some(pv) && pv@ == plsg,
                        plsg.len() == old(self).metadata.columns@.len(),
                        k <= planned@.len(),
                        planned@.len() == per_col@.len(),
                        planned@.len() == starts@.len(),
                        v@.len() == flat@.len(),
                        sel.wf(),
                        forall|q: int|
                            0 <= q < flat@.len() ==> (#[trigger] flat@[q]).0 <= flat@[q].1
                                && flat@[q].1 <= file.len(),
                        forall|q: int|
                            0 <= q < flat@.len() ==> bytes_view(#[trigger] v@[q]) == file.subrange(
                                flat@[q].0 as int,
                                flat@[q].1 as int,
                            ),
                        forall|k2: int|
                            0 <= k2 < planned@.len() ==> (#[trigger] planned@[k2]) < old(
                                self,
                            ).column_chunks@.len(),
                        forall|k1: int, k2: int|
                            0 <= k1 < k2 < planned@.len() ==> (#[trigger] planned@[k1]) < (
                            #[trigger] planned@[k2]),
                        forall|k2: int|
                            0 <= k2 < planned@.len() ==> old(self).column_chunks@[(
                            #[trigger] planned@[k2]) as int] is None && projection.spec_included(
                                planned@[k2] as int,
                            ),
                        forall|i: int|
                            0 <= i < old(self).column_chunks@.len() && old(
                                self,
                            ).column_chunks@[i] is None && projection.spec_included(i)
                                ==> exists|k2: int|
                                0 <= k2 < planned@.len() && (#[trigger] planned@[k2]) as int == i,
                        forall|k2: int|
                            0 <= k2 < planned@.len() ==> (#[trigger] per_col@[k2])@
                                == spec_sparse_ranges(
                                old(self).metadata.columns@[planned@[k2] as int],
                                plsg[planned@[k2] as int]@,
                                *sel,
                            ),
                        forall|k2: int|
                            0 <= k2 < planned@.len() ==> (#[trigger] starts@[k2])
                                + per_col@[k2]@.len() <= flat@.len(),
                        forall|k2: int, q: int|
                            0 <= k2 < planned@.len() && 0 <= q < per_col@[k2]@.len()
                                ==> #[trigger] flat@[starts@[k2] + q] == per_col@[k2]@[q],
                        forall|i: int|
                            0 <= i < old(self).column_chunks@.len() ==> (
                            #[trigger] self.column_chunks@[i]) == old(self).column_chunks@[i] || (
                            exists|k2: int|
                                0 <= k2 < k && (#[trigger] planned@[k2]) as int == i),
                        forall|k2: int|
                            0 <= k2 < k ==> ((#[trigger] self.column_chunks@[planned@[k2] as int]) matches Some(
                                c,
                            ) && sparse_chunk_for(
                                *c,
                                file,
                                old(self).metadata.columns@[planned@[k2] as int],
                                plsg[planned@[k2] as int]@,
                                *sel,
                            )),
                    decreases planned@.len() - k,
                {
                    let idx = planned[k];
                    let st = starts[k];
                    let ghost col = old(self).metadata.columns@[idx as int];
                    let ghost locs = plsg[idx as int]@;
                    proof {
                        assert((#[trigger] per_col@[k as int])@ == spec_sparse_ranges(
                            col,
                            locs,
                            *sel,
                        ));
                        assert((#[trigger] starts@[k as int]) + per_col@[k as int]@.len()
                            <= flat@.len());
                        assert(wf_page_locations(locs, col));
                        assert forall|q: int| 0 <= q < per_col@[k as int]@.len() implies {
                            let rg = #[trigger] per_col@[k as int]@[q];
                            &&& rg.0 <= rg.1
                            &&& rg.1 <= file.len()
                            &&& bytes_view(v@[st + q]) == file.subrange(rg.0 as int, rg.1 as int)
                        } by {
                            assert(flat@[starts@[k as int] + q] == per_col@[k as int]@[q]);
                            assert(bytes_view(v@[st + q]) == file.subrange(
                                flat@[st + q].0 as int,
                                flat@[st + q].1 as int,
                            ));
                        }
                    }
                    let length = self.metadata.column(idx).length;
                    let chunk = build_sparse_chunk(
                        &v,
                        st,
                        &per_col[k],
                        length,
                        Ghost(file),
                        Ghost(col),
                        Ghost(locs),
                        Ghost(*sel),
                    );
                    self.column_chunks.set(idx, Option::Some(Arc::new(chunk)));
                    k += 1;
                    proof {
                        assert forall|k2: int|
                            0 <= k2 < k implies ((
                        #[trigger] self.column_chunks@[planned@[k2] as int]) matches Some(c)
                            && sparse_chunk_for(
                            *c,
                            file,
                            old(self).metadata.columns@[planned@[k2] as int],
                            plsg[planned@[k2] as int]@,
                            *sel,
                        )) by {
                            if k2 < k - 1 {
                                assert(planned@[k2] != planned@[k - 1]);
                            }
                        }
                    }
                }
                proof {
                    assert forall|i: int|
                        0 <= i < old(self).column_chunks@.len() && (old(
                            self,
                        ).column_chunks@[i] is Some || !projection.spec_included(i)) implies #[trigger] self.column_chunks@[i]
                        == old(self).column_chunks@[i] by {
                        if self.column_chunks@[i] != old(self).column_chunks@[i] {
                            let k2 = choose|k2: int|
                                0 <= k2 < planned@.len() && (#[trigger] planned@[k2]) as int == i;
                            assert(old(self).column_chunks@[i] is None
                                && projection.spec_included(i));
                        }
                    }
                    assert forall|i: int|
                        0 <= i < old(self).column_chunks@.len() && projection.spec_included(
                            i,
                        ) implies (#[trigger] self.column_chunks@[i]) is Some by {
                        if old(self).column_chunks@[i] is None {
                            let k2 = choose|k2: int|
                                0 <= k2 < planned@.len() && (#[trigger] planned@[k2]) as int == i;
                            assert(self.column_chunks@[planned@[k2] as int] is Some);
                        } else {
                            assert(self.column_chunks@[i] == old(self).column_chunks@[i]);
                        }
                    }
                    assert(self.wf());
                }
                Result::Ok(())
            },
            _ => {
                let (planned, flat) = plan_dense(&self.metadata, &self.column_chunks, projection);
                proof {
                    if planned@.len() > 0 {
                        assert(old(self).column_chunks@[(#[trigger] planned@[0]) as int] is None
                            && projection.spec_included(planned@[0] as int));
                    }
                }
                if planned.len() == 0 {
                    return Result::Ok(());
                }
                let v: Vec<Bytes> = match op.read_batch(loc, &flat) {
                    Result::Ok(v) => v,
                    Result::Err(e) => {
                        return Result::Err(e);
                    },
                };
                proof {
                    assert(v@.len() == flat@.len());
                    assert(forall|q: int|
                        0 <= q < flat@.len() ==> (#[trigger] flat@[q]).0 <= flat@[q].1
                            && flat@[q].1 <= file.len());
                    assert(forall|q: int|
                        0 <= q < flat@.len() ==> bytes_view(#[trigger] v@[q]) == file.subrange(
                            flat@[q].0 as int,
                            flat@[q].1 as int,
                        ));
                }
                let mut k: usize = 0;
                while k < planned.len()
                    invariant
                        self.metadata == old(self).metadata,
                        self.page_locations == old(self).page_locations,
                        self.row_count == old(self).row_count,
                        self.column_chunks@.len() == old(self).column_chunks@.len(),
                        old(self).wf(),
                        k <= planned@.len(),
                        planned@.len() == flat@.len(),
                        v@.len() == flat@.len(),
                        forall|q: int|
                            0 <= q < flat@.len() ==> (#[trigger] flat@[q]).0 <= flat@[q].1
                                && flat@[q].1 <= file.len(),
                        forall|q: int|
                            0 <= q < flat@.len() ==> bytes_view(#[trigger] v@[q]) == file.subrange(
                                flat@[q].0 as int,
                                flat@[q].1 as int,
                            ),
                        forall|k2: int|
                            0 <= k2 < planned@.len() ==> (#[trigger] planned@[k2]) < old(
                                self,
                            ).column_chunks@.len(),
                        forall|k1: int, k2: int|
                            0 <= k1 < k2 < planned@.len() ==> (#[trigger] planned@[k1]) < (
                            #[trigger] planned@[k2]),
                        forall|k2: int|
                            0 <= k2 < planned@.len() ==> old(self).column_chunks@[(
                            #[trigger] planned@[k2]) as int] is None && projection.spec_included(
                                planned@[k2] as int,
                            ),
                        forall|i: int|
                            0 <= i < old(self).column_chunks@.len() && old(
                                self,
                            ).column_chunks@[i] is None && projection.spec_included(i)
                                ==> exists|k2: int|
                                0 <= k2 < planned@.len() && (#[trigger] planned@[k2]) as int == i,
                        forall|k2: int|
                            0 <= k2 < planned@.len() ==> #[trigger] flat@[k2] == (
                                old(self).metadata.columns@[planned@[k2] as int].start,
                                (old(self).metadata.columns@[planned@[k2] as int].start + old(
                                    self,
                                ).metadata.columns@[planned@[k2] as int].length) as usize,
                            ),
                        forall|i: int|
                            0 <= i < old(self).column_chunks@.len() ==> (
                            #[trigger] self.column_chunks@[i]) == old(self).column_chunks@[i] || (
                            exists|k2: int|
                                0 <= k2 < k && (#[trigger] planned@[k2]) as int == i),
                        forall|k2: int|
                            0 <= k2 < k ==> ((#[trigger] self.column_chunks@[planned@[k2] as int]) matches Some(
                                c,
                            ) && dense_chunk_for(
                                *c,
                                file,
                                old(self).metadata.columns@[planned@[k2] as int],
                            )),
                    decreases planned@.len() - k,
                {
                    let idx = planned[k];
                    let ghost col = old(self).metadata.columns@[idx as int];
                    proof {
                        assert(col.wf());
                        assert(#[trigger] flat@[k as int] == (
                            col.start,
                            (col.start + col.length) as usize,
                        ));
                        assert(bytes_view(v@[k as int]) == file.subrange(
                            flat@[k as int].0 as int,
                            flat@[k as int].1 as int,
                        ));
                    }
                    let column = self.metadata.column(idx);
                    let offset = column.start;
                    let b = bytes_clone(&v[k]);
                    let chunk = build_dense_chunk(b, offset, Ghost(file), Ghost(col));
                    self.column_chunks.set(idx, Option::Some(Arc::new(chunk)));
                    k += 1;
                    proof {
                        assert forall|k2: int|
                            0 <= k2 < k implies ((
                        #[trigger] self.column_chunks@[planned@[k2] as int]) matches Some(c)
                            && dense_chunk_for(
                            *c,
                            file,
                            old(self).metadata.columns@[planned@[k2] as int],
                        )) by {
                            if k2 < k - 1 {
                                assert(planned@[k2] != planned@[k - 1]);
                            }
                        }
                    }
                }
                proof {
                    assert forall|i: int|
                        0 <= i < old(self).column_chunks@.len() && (old(
                            self,
                        ).column_chunks@[i] is Some || !projection.spec_included(i)) implies #[trigger] self.column_chunks@[i]
                        == old(self).column_chunks@[i] by {
                        if self.column_chunks@[i] != old(self).column_chunks@[i] {
                            let k2 = choose|k2: int|
                                0 <= k2 < planned@.len() && (#[trigger] planned@[k2]) as int == i;
                            assert(old(self).column_chunks@[i] is None
                                && projection.spec_included(i));
                        }
                    }
                    assert forall|i: int|
                        0 <= i < old(self).column_chunks@.len() && projection.spec_included(
                            i,
                        ) implies (#[trigger] self.column_chunks@[i]) is Some by {
                        if old(self).column_chunks@[i] is None {
                            let k2 = choose|k2: int|
                                0 <= k2 < planned@.len() && (#[trigger] planned@[k2]) as int == i;
                            assert(self.column_chunks@[planned@[k2] as int] is Some);
                        } else {
                            assert(self.column_chunks@[i] == old(self).column_chunks@[i]);
                        }
                    }
                    assert(self.wf());
                }
                Result::Ok(())
            },
        }
    }
}

/// Relies on `Arc::clone`: a second handle onto the same value.
#[verifier::external_body]
pub(crate) fn arc_clone<T>(a: &Arc<T>) -> (r: Arc<T>)
    ensures
        r == *a,
{
    a.clone()
}

impl InMemoryRowGroup {
    /// The one-shot page-reader sequence for column `i`: the distinct
    /// "column not fetched" error for a column no successful fetch has
    /// populated, else a reader configured from the column's chunk, its
    /// metadata, the row count and its page locations.
    pub fn column_chunks(&self, i: usize) -> (r: Result<ColumnChunkIterator, ErrorCode>)
        requires
            self.wf(),
            i < self.column_chunks@.len(),
        ensures
            (r is Ok) <==> self.column_chunks@[i as int] is Some,
            r is Err ==> r == Result::<ColumnChunkIterator, ErrorCode>::Err(
                ErrorCode::ColumnNotFetched,
            ),
            r matches Ok(it) ==> (it.reader matches Some(cfg) && (
            self.column_chunks@[i as int] matches Some(c) && cfg.chunk == c) && cfg.column
                == self.metadata.columns@[i as int] && cfg.row_count == self.row_count && (
            self.page_locations matches Some(pls) ==> (cfg.page_locations matches Some(pl) && pl@
                == pls@[i as int]@)) && (self.page_locations is None
                ==> cfg.page_locations is None)),
    {
        match &self.column_chunks[i] {
            Option::None => Result::Err(ErrorCode::ColumnNotFetched),
            Option::Some(c) => {
                let chunk = arc_clone(c);
                let column = *self.metadata.column(i);
                let page_locations = match &self.page_locations {
                    Option::Some(pls) => Option::Some(copy_page_locations(&pls[i])),
                    Option::None => Option::None,
                };
                Result::Ok(
                    ColumnChunkIterator {
                        reader: Option::Some(
                            ConfiguredPageReader {
                                chunk,
                                column,
                                row_count: self.row_count,
                                page_locations,
                            },
                        ),
                    },
                )
            },
        }
    }
}

/// Reassembly is deterministic: the sparse chunk a selective fetch
/// stores is a function of the object's bytes and the plan alone, so
/// any two successful fetches of the same column — whatever order their
/// underlying reads completed in — hold identical offsets and identical
/// bytes at every recorded offset.
pub proof fn lemma_reassembly_deterministic(
    c1: ColumnChunkData,
    c2: ColumnChunkData,
    file: Seq<u8>,
    col: ColumnMeta,
    locs: Seq<PageLocation>,
    sel: RowSelection,
)
    requires
        sparse_chunk_for(c1, file, col, locs, sel),
        sparse_chunk_for(c2, file, col, locs, sel),
    ensures
        c1->entries@.len() == c2->entries@.len(),
        forall|q: int|
            0 <= q < c1->entries@.len() ==> (#[trigger] c1->entries@[q]).0 == c2->entries@[q].0
                && bytes_view(c1->entries@[q].1) == bytes_view(c2->entries@[q].1),
{
    let ranges = spec_sparse_ranges(col, locs, sel);
    assert forall|q: int|
        0 <= q < c1->entries@.len() implies (#[trigger] c1->entries@[q]).0 == c2->entries@[q].0
        && bytes_view(c1->entries@[q].1) == bytes_view(c2->entries@[q].1) by {
        assert(c1->entries@[q].0 == ranges[q].0 && c2->entries@[q].0 == ranges[q].0);
        assert(bytes_view(c1->entries@[q].1).len() == ranges[q].1 - ranges[q].0);
        assert(bytes_view(c2->entries@[q].1).len() == ranges[q].1 - ranges[q].0);
        assert(bytes_view(c1->entries@[q].1) == file.subrange(
            ranges[q].0 as int,
            ranges[q].1 as int,
        ));
        assert(bytes_view(c2->entries@[q].1) == file.subrange(
            ranges[q].0 as int,
            ranges[q].1 as int,
        ));
    }
}

} // verus!
