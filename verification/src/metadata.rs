use vstd::prelude::*;

verus! {

/// Byte extent of one column chunk inside the file: `[start, start + length)`.
#[derive(Clone, Copy, PartialEq, Eq, Structural, Debug)]
pub struct ColumnMeta {
    pub start: usize,
    pub length: usize,
}

impl ColumnMeta {
    /// The extent must fit the address space.
    pub open spec fn wf(self) -> bool {
        self.start + self.length <= usize::MAX
    }

    pub fn byte_range(&self) -> (r: (usize, usize))
        ensures
            r == (self.start, self.length),
    {
        (self.start, self.length)
    }
}

/// Physical position of one page inside a column chunk, as the file's
/// offset index records it.
#[derive(Clone, Copy, PartialEq, Eq, Structural, Debug)]
pub struct PageLocation {
    /// Absolute file offset of the page's first byte.
    pub offset: usize,
    /// Size of the page in bytes.
    pub compressed_page_size: usize,
    /// Row ordinal, within the row group, of the page's first row.
    pub first_row_index: usize,
}

/// The offset index of one column: pages in file order, non-overlapping,
/// inside the column's byte extent, with ascending first rows.
pub open spec fn wf_page_locations(locs: Seq<PageLocation>, col: ColumnMeta) -> bool {
    &&& col.wf()
    &&& forall|j: int| 0 <= j < locs.len() ==> (#[trigger] locs[j]).compressed_page_size > 0
    &&& forall|j: int|
        0 <= j < locs.len() - 1 ==> #[trigger] locs[j].offset + locs[j].compressed_page_size
            <= locs[j + 1].offset
    &&& forall|j: int|
        0 <= j < locs.len() - 1 ==> #[trigger] locs[j].first_row_index < locs[j
            + 1].first_row_index
    &&& locs.len() > 0 ==> col.start <= locs[0].offset
    &&& locs.len() > 0 ==> locs[locs.len() - 1].offset + locs[locs.len()
        - 1].compressed_page_size <= col.start + col.length
}

/// Per-row-group descriptor: one byte extent per column, and the row count.
pub struct RowGroupMetaData {
    pub columns: Vec<ColumnMeta>,
    pub num_rows: usize,
}

impl RowGroupMetaData {
    pub open spec fn wf(self) -> bool {
        forall|i: int| 0 <= i < self.columns.len() ==> (#[trigger] self.columns[i]).wf()
    }

    pub fn num_columns(&self) -> (r: usize)
        ensures
            r == self.columns.len(),
    {
        self.columns.len()
    }

    pub fn num_rows(&self) -> (r: usize)
        ensures
            r == self.num_rows,
    {
        self.num_rows
    }

    pub fn column(&self, i: usize) -> (r: &ColumnMeta)
        requires
            i < self.columns.len(),
        ensures
            *r == self.columns[i as int],
    {
        &self.columns[i]
    }
}

/// The set of projected (leaf) columns. `None` selects every column.
pub struct ProjectionMask {
    pub mask: Option<Vec<bool>>,
}

impl ProjectionMask {
    /// Whether column `i` is projected.
    pub open spec fn spec_included(self, i: int) -> bool {
        match self.mask {
            Option::None => true,
            Option::Some(m) => m[i],
        }
    }

    /// A mask usable for a row group of `num_columns` columns.
    pub open spec fn compat(self, num_columns: int) -> bool {
        self.mask matches Option::Some(m) ==> m.len() == num_columns
    }

    /// The mask that projects every column.
    pub fn all() -> (r: ProjectionMask)
        ensures
            forall|i: int| r.spec_included(i),
            forall|n: int| r.compat(n),
    {
        ProjectionMask { mask: Option::None }
    }

    /// The mask that projects exactly the columns listed in `leaves`,
    /// out of `num_columns` columns.
    pub fn leaves(num_columns: usize, leaves: &Vec<usize>) -> (r: ProjectionMask)
        requires
            forall|k: int| 0 <= k < leaves.len() ==> #[trigger] leaves[k] < num_columns,
        ensures
            r.compat(num_columns as int),
            forall|i: int|
                0 <= i < num_columns ==> (r.spec_included(i) <==> leaves@.contains(i as usize)),
    {
        let mut m: Vec<bool> = Vec::new();
        let mut i: usize = 0;
        while i < num_columns
            invariant
                i <= num_columns,
                m.len() == i,
                forall|j: int| 0 <= j < i ==> !m[j],
            decreases num_columns - i,
        {
            m.push(false);
            i += 1;
        }
        let mut k: usize = 0;
        while k < leaves.len()
            invariant
                k <= leaves.len(),
                m.len() == num_columns,
                forall|j: int| 0 <= j < leaves.len() ==> #[trigger] leaves[j] < num_columns,
                forall|i: int|
                    0 <= i < num_columns ==> (m[i] <==> leaves@.subrange(0, k as int).contains(
                        i as usize,
                    )),
            decreases leaves.len() - k,
        {
            let idx = leaves[k];
            m.set(idx, true);
            proof {
                assert(leaves@.subrange(0, k + 1 as int) =~= leaves@.subrange(0, k as int).push(
                    leaves@[k as int],
                ));
                assert forall|i: int|
                    0 <= i < num_columns implies (m[i] <==> leaves@.subrange(0, k + 1 as int)
                    .contains(i as usize)) by {
                    let pre = leaves@.subrange(0, k as int);
                    let post = leaves@.subrange(0, k + 1 as int);
                    if m[i] {
                        if i == idx {
                            assert(post[k as int] == i as usize);
                            assert(post.contains(i as usize));
                        } else {
                            assert(pre.contains(i as usize));
                            let w = choose|w: int| 0 <= w < pre.len() && pre[w] == i as usize;
                            assert(post[w] == i as usize);
                            assert(post.contains(i as usize));
                        }
                    } else {
                        if post.contains(i as usize) {
                            let w = choose|w: int| 0 <= w < post.len() && post[w] == i as usize;
                            if w < k as int {
                                assert(pre[w] == i as usize);
                                assert(pre.contains(i as usize));
                            } else {
                                assert(i == idx);
                            }
                        }
                    }
                }
            }
            k += 1;
        }
        proof {
            assert(leaves@.subrange(0, leaves@.len() as int) =~= leaves@);
        }
        ProjectionMask { mask: Option::Some(m) }
    }

    /// Whether column `i` is projected.
    pub fn leaf_included(&self, i: usize) -> (r: bool)
        requires
            self.mask matches Option::Some(m) ==> i < m.len(),
        ensures
            r == self.spec_included(i as int),
    {
        match &self.mask {
            Option::None => true,
            Option::Some(m) => m[i],
        }
    }
}

} // verus!
