use vstd::prelude::*;

verus! {

/// One run of consecutive rows that is either selected or skipped.
#[derive(Clone, Copy, PartialEq, Eq, Structural, Debug)]
pub struct RowSelector {
    pub row_count: usize,
    pub skip: bool,
}

/// A row selection over a row group: runs of selected and skipped rows,
/// in row order, starting at row 0.
pub struct RowSelection {
    pub selectors: Vec<RowSelector>,
}

/// Total number of rows the runs cover.
pub open spec fn total_rows(s: Seq<RowSelector>) -> int
    decreases s.len(),
{
    if s.len() == 0 {
        0
    } else {
        s[0].row_count + total_rows(s.subrange(1, s.len() as int))
    }
}

/// Whether `row` (counted from the start of the runs) is selected.
pub open spec fn selects_from(s: Seq<RowSelector>, row: int) -> bool
    decreases s.len(),
{
    if s.len() == 0 || row < 0 {
        false
    } else if row < s[0].row_count {
        !s[0].skip
    } else {
        selects_from(s.subrange(1, s.len() as int), row - s[0].row_count)
    }
}

proof fn lemma_total_rows_nonneg(s: Seq<RowSelector>)
    ensures
        total_rows(s) >= 0,
    decreases s.len(),
{
    if s.len() > 0 {
        lemma_total_rows_nonneg(s.subrange(1, s.len() as int));
    }
}

/// A selected row lies below the runs' total.
pub proof fn lemma_selects_in_bounds(s: Seq<RowSelector>, row: int)
    requires
        selects_from(s, row),
    ensures
        0 <= row < total_rows(s),
    decreases s.len(),
{
    if s.len() > 0 && row >= s[0].row_count {
        lemma_selects_in_bounds(s.subrange(1, s.len() as int), row - s[0].row_count);
        lemma_total_rows_nonneg(s.subrange(1, s.len() as int));
    } else if s.len() > 0 {
        lemma_total_rows_nonneg(s.subrange(1, s.len() as int));
    }
}

/// Rows inside run `k` are selected exactly when run `k` is not a skip.
/// `base` is the total of the runs before `k`.
proof fn lemma_selects_in_run(s: Seq<RowSelector>, k: int, row: int)
    requires
        0 <= k < s.len(),
        total_rows(s.subrange(0, k)) <= row < total_rows(s.subrange(0, k)) + s[k].row_count,
    ensures
        selects_from(s, row) == !s[k].skip,
    decreases k,
{
    if k == 0 {
        assert(s.subrange(0, 0) =~= Seq::<RowSelector>::empty());
        lemma_total_rows_nonneg(s.subrange(0, 0));
    } else {
        let tail = s.subrange(1, s.len() as int);
        let head_count = s[0].row_count as int;
        assert(s.subrange(0, k).subrange(1, k) =~= tail.subrange(0, k - 1));
        assert(total_rows(s.subrange(0, k)) == head_count + total_rows(tail.subrange(0, k - 1)));
        lemma_total_rows_nonneg(tail.subrange(0, k - 1));
        assert(row >= head_count);
        assert(tail[k - 1] == s[k]);
        lemma_selects_in_run(tail, k - 1, row - head_count);
    }
}

/// A row at or past the runs' total is not selected.
proof fn lemma_selects_past_total(s: Seq<RowSelector>, row: int)
    requires
        row >= total_rows(s),
    ensures
        !selects_from(s, row),
{
    if selects_from(s, row) {
        lemma_selects_in_bounds(s, row);
    }
}

impl RowSelection {
    /// Whether `row` is selected.
    pub open spec fn selects(self, row: int) -> bool {
        selects_from(self.selectors@, row)
    }

    /// Total number of rows the selection covers (selected and skipped).
    pub open spec fn spec_total(self) -> int {
        total_rows(self.selectors@)
    }

    /// The selection's runs must fit the address space.
    pub open spec fn wf(self) -> bool {
        self.spec_total() <= usize::MAX
    }

    pub fn new(selectors: Vec<RowSelector>) -> (r: RowSelection)
        ensures
            r.selectors == selectors,
    {
        RowSelection { selectors }
    }

    /// Whether any row in `[lo, hi)` is selected.
    pub fn overlaps(&self, lo: usize, hi: usize) -> (r: bool)
        requires
            self.wf(),
        ensures
            r == exists|row: int| lo <= row < hi && self.selects(row),
    {
        let ghost s = self.selectors@;
        let mut pos: usize = 0;
        let mut k: usize = 0;
        while k < self.selectors.len()
            invariant
                self.wf(),
                s == self.selectors@,
                k <= s.len(),
                pos == total_rows(s.subrange(0, k as int)),
                pos <= usize::MAX,
                forall|row: int| lo <= row < hi && row < pos ==> !selects_from(s, row),
            decreases s.len() - k,
        {
            let sel = self.selectors[k];
            proof {
                assert(s.subrange(0, k + 1 as int) =~= s.subrange(0, k as int).push(s[k as int]));
                lemma_total_rows_push(s.subrange(0, k as int), s[k as int]);
                lemma_total_rows_prefix_le(s, k + 1);
                lemma_total_rows_nonneg(s.subrange(0, k as int));
            }
            let seg_end: usize = pos + sel.row_count;
            let ov_lo: usize = if lo > pos {
                lo
            } else {
                pos
            };
            let ov_hi: usize = if hi < seg_end {
                hi
            } else {
                seg_end
            };
            if !sel.skip && ov_lo < ov_hi {
                proof {
                    lemma_selects_in_run(s, k as int, ov_lo as int);
                    assert(lo <= ov_lo && ov_lo < hi && self.selects(ov_lo as int));
                }
                return true;
            }
            proof {
                assert forall|row: int| lo <= row < hi && row < seg_end implies !selects_from(
                    s,
                    row,
                ) by {
                    if row >= pos {
                        lemma_selects_in_run(s, k as int, row);
                    }
                }
            }
            pos = seg_end;
            k += 1;
        }
        proof {
            assert(s.subrange(0, s.len() as int) =~= s);
            assert forall|row: int| lo <= row < hi implies !selects_from(s, row) by {
                if row >= pos {
                    lemma_selects_past_total(s, row);
                }
            }
        }
        false
    }

    /// Total number of rows the selection covers.
    pub fn total(&self) -> (r: usize)
        requires
            self.wf(),
        ensures
            r == self.spec_total(),
    {
        let ghost s = self.selectors@;
        let mut pos: usize = 0;
        let mut k: usize = 0;
        while k < self.selectors.len()
            invariant
                self.wf(),
                s == self.selectors@,
                k <= s.len(),
                pos == total_rows(s.subrange(0, k as int)),
            decreases s.len() - k,
        {
            proof {
                assert(s.subrange(0, k + 1 as int) =~= s.subrange(0, k as int).push(s[k as int]));
                lemma_total_rows_push(s.subrange(0, k as int), s[k as int]);
                lemma_total_rows_prefix_le(s, k + 1);
            }
            pos = pos + self.selectors[k].row_count;
            k += 1;
        }
        proof {
            assert(s.subrange(0, s.len() as int) =~= s);
        }
        pos
    }
}

/// Appending a run adds its count to the total.
proof fn lemma_total_rows_push(s: Seq<RowSelector>, x: RowSelector)
    ensures
        total_rows(s.push(x)) == total_rows(s) + x.row_count,
    decreases s.len(),
{
    let p = s.push(x);
    assert(p.len() == s.len() + 1);
    if s.len() == 0 {
        assert(p[0] == x);
        assert(p.subrange(1, 1) =~= Seq::<RowSelector>::empty());
        assert(total_rows(p) == p[0].row_count + total_rows(p.subrange(1, 1)));
    } else {
        assert(p[0] == s[0]);
        assert(p.subrange(1, s.len() as int + 1) =~= s.subrange(1, s.len() as int).push(x));
        lemma_total_rows_push(s.subrange(1, s.len() as int), x);
        assert(total_rows(p) == p[0].row_count + total_rows(p.subrange(1, s.len() as int + 1)));
        assert(total_rows(s) == s[0].row_count + total_rows(s.subrange(1, s.len() as int)));
    }
}

/// A prefix covers no more rows than the whole.
proof fn lemma_total_rows_prefix_le(s: Seq<RowSelector>, k: int)
    requires
        0 <= k <= s.len(),
    ensures
        total_rows(s.subrange(0, k)) <= total_rows(s),
    decreases s.len() - k,
{
    if k < s.len() {
        assert(s.subrange(0, k + 1) =~= s.subrange(0, k).push(s[k]));
        lemma_total_rows_push(s.subrange(0, k), s[k]);
        lemma_total_rows_prefix_le(s, k + 1);
    } else {
        assert(s.subrange(0, s.len() as int) =~= s);
    }
}

} // verus!
