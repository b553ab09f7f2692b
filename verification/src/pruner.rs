use vstd::prelude::*;

use std::ops::Range;

use crate::error::ErrorCode;

verus! {

/// Evaluation context handed through to the pruning index. The pruning
/// decisions themselves read nothing of it.
#[derive(Clone, Copy)]
pub struct FunctionContext {
}

/// The table's cluster-key descriptor: its identifier and its definition
/// as written.
pub struct ClusterKey(pub u32, pub String);

/// A compiled expression as the planner hands it down; pruning only
/// applies when every cluster-key term is a bare column reference.
pub enum RemoteExpr {
    ColumnRef { id: u32 },
    Constant,
    FunctionCall,
}

/// Comparison operator of a filter conjunct.
#[derive(Clone, Copy, PartialEq, Eq, Structural, Debug)]
pub enum CmpOp {
    Lt,
    Le,
    Eq,
    Ge,
    Gt,
}

/// One filter conjunct: a comparison of a column against a constant, or
/// a shape this layer cannot evaluate (and therefore ignores).
pub enum Expr {
    Compare { col: u32, op: CmpOp, value: i64 },
    Other,
}

/// A closed interval of cluster-key values; empty when `lo > hi`.
#[derive(Clone, Copy, PartialEq, Eq, Structural, Debug)]
pub struct Interval {
    pub lo: i64,
    pub hi: i64,
}

/// Min/max statistics of one row group over the cluster-key columns,
/// with an optional per-page minimum list for the first key column.
pub struct ClusterStatistics {
    pub cluster_key_id: u32,
    pub min: Vec<i64>,
    pub max: Vec<i64>,
    pub pages: Option<Vec<i64>>,
}

/// The table schema as this layer reads it: the column identifiers.
pub struct TableSchema {
    pub fields: Vec<u32>,
}

pub open spec fn full_interval() -> Interval {
    Interval { lo: i64::MIN, hi: i64::MAX }
}

pub open spec fn empty_interval() -> Interval {
    Interval { lo: i64::MAX, hi: i64::MIN }
}

pub open spec fn interval_allows(iv: Interval, x: int) -> bool {
    iv.lo <= x <= iv.hi
}

pub open spec fn interval_empty(iv: Interval) -> bool {
    iv.lo > iv.hi
}

pub open spec fn cmp_holds(op: CmpOp, x: int, v: int) -> bool {
    match op {
        CmpOp::Lt => x < v,
        CmpOp::Le => x <= v,
        CmpOp::Eq => x == v,
        CmpOp::Ge => x >= v,
        CmpOp::Gt => x > v,
    }
}

/// Narrows `iv` by one conjunct, for column `col`. Conjuncts on other
/// columns and unevaluable shapes leave the interval unchanged.
pub open spec fn restrict_interval(iv: Interval, e: Expr, col: u32) -> Interval {
    match e {
        Expr::Compare { col: c, op, value } => {
            if c != col {
                iv
            } else {
                match op {
                    CmpOp::Lt => {
                        if value == i64::MIN {
                            empty_interval()
                        } else {
                            Interval {
                                lo: iv.lo,
                                hi: if iv.hi <= value - 1 {
                                    iv.hi
                                } else {
                                    (value - 1) as i64
                                },
                            }
                        }
                    },
                    CmpOp::Le => Interval {
                        lo: iv.lo,
                        hi: if iv.hi <= value {
                            iv.hi
                        } else {
                            value
                        },
                    },
                    CmpOp::Eq => Interval {
                        lo: if iv.lo >= value {
                            iv.lo
                        } else {
                            value
                        },
                        hi: if iv.hi <= value {
                            iv.hi
                        } else {
                            value
                        },
                    },
                    CmpOp::Ge => Interval {
                        lo: if iv.lo >= value {
                            iv.lo
                        } else {
                            value
                        },
                        hi: iv.hi,
                    },
                    CmpOp::Gt => {
                        if value == i64::MAX {
                            empty_interval()
                        } else {
                            Interval {
                                lo: if iv.lo >= value + 1 {
                                    iv.lo
                                } else {
                                    (value + 1) as i64
                                },
                                hi: iv.hi,
                            }
                        }
                    },
                }
            }
        },
        Expr::Other => iv,
    }
}

/// The interval of values of column `col` that satisfy every comparison
/// conjunct on it.
pub open spec fn interval_for(exprs: Seq<Expr>, col: u32) -> Interval
    decreases exprs.len(),
{
    if exprs.len() == 0 {
        full_interval()
    } else {
        restrict_interval(interval_for(exprs.drop_last(), col), exprs.last(), col)
    }
}

/// Whether `x` satisfies every comparison conjunct on column `col`.
pub open spec fn conjuncts_hold(exprs: Seq<Expr>, col: u32, x: int) -> bool {
    forall|i: int|
        0 <= i < exprs.len() ==> ((#[trigger] exprs[i]) matches Expr::Compare {
            col: c,
            op,
            value,
        } ==> (c == col ==> cmp_holds(op, x, value as int)))
}

/// The compiled interval is exactly the set of in-range values on which
/// every comparison conjunct on the column holds: zone-map pruning by
/// the interval neither over- nor under-approximates the conjunction.
pub proof fn lemma_interval_sound(exprs: Seq<Expr>, col: u32, x: int)
    requires
        i64::MIN <= x <= i64::MAX,
    ensures
        interval_allows(interval_for(exprs, col), x) <==> conjuncts_hold(exprs, col, x),
    decreases exprs.len(),
{
    if exprs.len() == 0 {
        assert(interval_allows(full_interval(), x));
    } else {
        let prefix = exprs.drop_last();
        let last = exprs.last();
        lemma_interval_sound(prefix, col, x);
        assert(interval_for(exprs, col) == restrict_interval(
            interval_for(prefix, col),
            last,
            col,
        ));
        assert forall|i: int| 0 <= i < prefix.len() implies prefix[i] == exprs[i] by {}
        if conjuncts_hold(exprs, col, x) {
            assert(conjuncts_hold(prefix, col, x));
        }
        if conjuncts_hold(prefix, col, x) && (last matches Expr::Compare { col: c, op, value }
            ==> (c == col ==> cmp_holds(op, x, value as int))) {
            assert forall|i: int|
                0 <= i < exprs.len() implies ((#[trigger] exprs[i]) matches Expr::Compare {
                col: c,
                op,
                value,
            } ==> (c == col ==> cmp_holds(op, x, value as int))) by {
                if i < exprs.len() - 1 {
                    assert(exprs[i] == prefix[i]);
                }
            }
        }
    }
}

/// An empty compiled interval means the conjunction on that column is
/// unsatisfiable: no in-range value meets every comparison on it, so no
/// row group can hold a matching row.
pub proof fn lemma_empty_interval_contradiction(exprs: Seq<Expr>, col: u32)
    ensures
        interval_empty(interval_for(exprs, col)) <==> (forall|x: int|
            i64::MIN <= x <= i64::MAX ==> !conjuncts_hold(exprs, col, x)),
{
    let iv = interval_for(exprs, col);
    lemma_interval_bounds(exprs, col);
    if interval_empty(iv) {
        assert forall|x: int| i64::MIN <= x <= i64::MAX implies !conjuncts_hold(
            exprs,
            col,
            x,
        ) by {
            lemma_interval_sound(exprs, col, x);
        }
    } else {
        lemma_interval_sound(exprs, col, iv.lo as int);
        assert(interval_allows(iv, iv.lo as int));
    }
}

/// The compiled interval's bounds stay inside the value range.
proof fn lemma_interval_bounds(exprs: Seq<Expr>, col: u32)
    ensures
        i64::MIN <= interval_for(exprs, col).lo,
        interval_for(exprs, col).hi <= i64::MAX,
    decreases exprs.len(),
{
    if exprs.len() > 0 {
        lemma_interval_bounds(exprs.drop_last(), col);
    }
}

/// Statistics whose shape the index cannot evaluate: a min/max list of
/// the wrong arity, or a column whose minimum exceeds its maximum.
pub open spec fn stats_shape_bad(intervals: Seq<Interval>, s: ClusterStatistics) -> bool {
    ||| s.min@.len() != intervals.len()
    ||| s.max@.len() != intervals.len()
    ||| exists|k: int| 0 <= k < intervals.len() && (#[trigger] s.min@[k]) > s.max@[k]
}

/// Whether `iv` and the closed interval `[mn, mx]` share a value.
pub open spec fn interval_intersects(iv: Interval, mn: int, mx: int) -> bool {
    iv.lo <= mx && mn <= iv.hi && iv.lo <= iv.hi && mn <= mx
}

/// Whether every key column's statistics interval can meet its compiled
/// interval — the row-group-level zone-map test.
pub open spec fn group_intersects(intervals: Seq<Interval>, s: ClusterStatistics) -> bool {
    forall|k: int|
        0 <= k < intervals.len() ==> interval_intersects(
            #[trigger] intervals[k],
            s.min@[k] as int,
            s.max@[k] as int,
        )
}

/// Upper end of page `j`'s value window: the next page's minimum, or the
/// group maximum for the last page.
pub open spec fn page_value_hi(pages: Seq<i64>, maxv: i64, j: int) -> int {
    if j + 1 < pages.len() {
        pages[j + 1] as int
    } else {
        maxv as int
    }
}

/// Whether page `j`'s value window can meet the first key column's
/// compiled interval.
pub open spec fn page_matches(iv: Interval, pages: Seq<i64>, maxv: i64, j: int) -> bool {
    iv.lo <= page_value_hi(pages, maxv, j) && pages[j] <= iv.hi && iv.lo <= iv.hi
}

/// The first matching page at or after `j`.
pub open spec fn first_matching(iv: Interval, pages: Seq<i64>, maxv: i64, j: int) -> Option<int>
    decreases pages.len() - j when 0 <= j <= pages.len()
{
    if j >= pages.len() {
        Option::None
    } else if page_matches(iv, pages, maxv, j) {
        Option::Some(j)
    } else {
        first_matching(iv, pages, maxv, j + 1)
    }
}

/// The last matching page at or before `j`.
pub open spec fn last_matching(iv: Interval, pages: Seq<i64>, maxv: i64, j: int) -> Option<int>
    decreases j + 1 when -1 <= j < pages.len()
{
    if j < 0 {
        Option::None
    } else if page_matches(iv, pages, maxv, j) {
        Option::Some(j)
    } else {
        last_matching(iv, pages, maxv, j - 1)
    }
}

/// What evaluating the index against one row group's statistics yields:
/// an error for malformed statistics; keep-unrestricted for absent or
/// stale statistics; drop when some key column's statistics cannot meet
/// its interval; else, when a page list is present, the window of pages
/// whose value ranges can meet the first key interval (drop when no page
/// can).
pub open spec fn spec_apply_stats(
    ckid: u32,
    intervals: Seq<Interval>,
    stats: Option<ClusterStatistics>,
) -> Result<(bool, Option<(usize, usize)>), ErrorCode> {
    match stats {
        Option::None => Result::Ok((true, Option::None)),
        Option::Some(s) => {
            if stats_shape_bad(intervals, s) {
                Result::Err(ErrorCode::BadStatistics)
            } else if s.cluster_key_id != ckid {
                Result::Ok((true, Option::None))
            } else if !group_intersects(intervals, s) {
                Result::Ok((false, Option::None))
            } else {
                match s.pages {
                    Option::None => Result::Ok((true, Option::None)),
                    Option::Some(pages) => {
                        if intervals.len() == 0 || pages@.len() == 0 {
                            Result::Ok((true, Option::None))
                        } else {
                            let f = first_matching(intervals[0], pages@, s.max@[0], 0);
                            let l = last_matching(
                                intervals[0],
                                pages@,
                                s.max@[0],
                                pages@.len() - 1,
                            );
                            match (f, l) {
                                (Option::Some(fi), Option::Some(li)) => Result::Ok(
                                    (true, Option::Some((fi as usize, (li + 1) as usize))),
                                ),
                                _ => Result::Ok((false, Option::None)),
                            }
                        }
                    },
                }
            }
        },
    }
}

/// The fail-open rule: an evaluation error degrades to keep,
/// unrestricted.
pub open spec fn spec_fail_open(o: Result<(bool, Option<(usize, usize)>), ErrorCode>) -> (
    bool,
    Option<(usize, usize)>,
) {
    match o {
        Result::Ok(v) => v,
        Result::Err(_) => (true, Option::None),
    }
}

/// A pruner: `should_keep` returns `false` only when no row of the
/// group can satisfy the predicate; a returned range narrows scanning to
/// a window of pages.
pub trait PagePruner {
    /// The decision as a mathematical function of the statistics.
    spec fn spec_should_keep(&self, stats: Option<ClusterStatistics>) -> (
        bool,
        Option<(usize, usize)>,
    );

    /// Whether the row group must be kept, with an optional narrowing
    /// page window.
    fn should_keep(&self, stats: &Option<ClusterStatistics>) -> (r: (bool, Option<Range<usize>>))
        ensures
            r.0 == self.spec_should_keep(*stats).0,
            r.1 is Some <==> self.spec_should_keep(*stats).1 is Some,
            r.1 matches Some(rg) ==> (self.spec_should_keep(*stats).1 matches Some(w) && rg.start
                == w.0 && rg.end == w.1),
    ;
}

/// The pruner that keeps everything.
pub struct KeepTrue;

impl PagePruner for KeepTrue {
    open spec fn spec_should_keep(&self, stats: Option<ClusterStatistics>) -> (
        bool,
        Option<(usize, usize)>,
    ) {
        (true, Option::None)
    }

    fn should_keep(&self, stats: &Option<ClusterStatistics>) -> (r: (bool, Option<Range<usize>>)) {
        (true, Option::None)
    }
}

/// The pruner that drops everything.
pub struct KeepFalse;

impl PagePruner for KeepFalse {
    open spec fn spec_should_keep(&self, stats: Option<ClusterStatistics>) -> (
        bool,
        Option<(usize, usize)>,
    ) {
        (false, Option::None)
    }

    fn should_keep(&self, stats: &Option<ClusterStatistics>) -> (r: (bool, Option<Range<usize>>)) {
        (false, Option::None)
    }
}

/// The dynamic pruning index: per cluster-key column, the compiled
/// interval of values its comparisons admit.
pub struct PageIndex {
    pub cluster_key_id: u32,
    pub keys: Vec<u32>,
    pub intervals: Vec<Interval>,
}

/// Narrows `iv` by one conjunct, for column `col`.
fn restrict_step(iv: Interval, e: &Expr, col: u32) -> (r: Interval)
    ensures
        r == restrict_interval(iv, *e, col),
{
    match e {
        Expr::Compare { col: c, op, value } => {
            if *c != col {
                iv
            } else {
                match op {
                    CmpOp::Lt => {
                        if *value == i64::MIN {
                            Interval { lo: i64::MAX, hi: i64::MIN }
                        } else {
                            Interval {
                                lo: iv.lo,
                                hi: if iv.hi <= *value - 1 {
                                    iv.hi
                                } else {
                                    *value - 1
                                },
                            }
                        }
                    },
                    CmpOp::Le => Interval {
                        lo: iv.lo,
                        hi: if iv.hi <= *value {
                            iv.hi
                        } else {
                            *value
                        },
                    },
                    CmpOp::Eq => Interval {
                        lo: if iv.lo >= *value {
                            iv.lo
                        } else {
                            *value
                        },
                        hi: if iv.hi <= *value {
                            iv.hi
                        } else {
                            *value
                        },
                    },
                    CmpOp::Ge => Interval {
                        lo: if iv.lo >= *value {
                            iv.lo
                        } else {
                            *value
                        },
                        hi: iv.hi,
                    },
                    CmpOp::Gt => {
                        if *value == i64::MAX {
                            Interval { lo: i64::MAX, hi: i64::MIN }
                        } else {
                            Interval {
                                lo: if iv.lo >= *value + 1 {
                                    iv.lo
                                } else {
                                    *value + 1
                                },
                                hi: iv.hi,
                            }
                        }
                    },
                }
            }
        },
        Expr::Other => iv,
    }
}

/// The interval of values of column `col` that satisfy every comparison
/// conjunct on it.
fn compile_interval(exprs: &Vec<Expr>, col: u32) -> (r: Interval)
    ensures
        r == interval_for(exprs@, col),
{
    let mut acc = Interval { lo: i64::MIN, hi: i64::MAX };
    let mut t: usize = 0;
    proof {
        assert(exprs@.subrange(0, 0) =~= Seq::<Expr>::empty());
    }
    while t < exprs.len()
        invariant
            t <= exprs@.len(),
            acc == interval_for(exprs@.subrange(0, t as int), col),
        decreases exprs@.len() - t,
    {
        acc = restrict_step(acc, &exprs[t], col);
        proof {
            assert(exprs@.subrange(0, t + 1 as int).drop_last() =~= exprs@.subrange(0, t as int));
            assert(exprs@.subrange(0, t + 1 as int).last() == exprs@[t as int]);
        }
        t += 1;
    }
    proof {
        assert(exprs@.subrange(0, exprs@.len() as int) =~= exprs@);
    }
    acc
}

impl PageIndex {
    /// The index's evaluation against one row group's statistics.
    pub open spec fn spec_apply(&self, stats: Option<ClusterStatistics>) -> Result<
        (bool, Option<(usize, usize)>),
        ErrorCode,
    > {
        spec_apply_stats(self.cluster_key_id, self.intervals@, stats)
    }

    /// Builds the index bound to the given key columns and filter list;
    /// fails when a key column is not in the schema.
    pub fn try_create(
        func_ctx: FunctionContext,
        cluster_key_id: u32,
        cluster_keys: Vec<u32>,
        exprs: &Vec<Expr>,
        schema: &TableSchema,
    ) -> (r: Result<PageIndex, ErrorCode>)
        ensures
            (r is Ok) <==> (forall|k: int|
                0 <= k < cluster_keys@.len() ==> schema.fields@.contains(
                    #[trigger] cluster_keys@[k],
                )),
            r is Err ==> r == Result::<PageIndex, ErrorCode>::Err(ErrorCode::UnknownColumn),
            r matches Ok(ix) ==> ix.cluster_key_id == cluster_key_id && ix.keys == cluster_keys
                && ix.intervals@.len() == cluster_keys@.len() && (forall|k: int|
                0 <= k < cluster_keys@.len() ==> #[trigger] ix.intervals@[k] == interval_for(
                    exprs@,
                    cluster_keys@[k],
                )),
    {
        let mut k: usize = 0;
        while k < cluster_keys.len()
            invariant
                k <= cluster_keys@.len(),
                forall|k2: int|
                    0 <= k2 < k ==> schema.fields@.contains(#[trigger] cluster_keys@[k2]),
            decreases cluster_keys@.len() - k,
        {
            let id = cluster_keys[k];
            let mut found = false;
            let mut j: usize = 0;
            while j < schema.fields.len()
                invariant
                    j <= schema.fields@.len(),
                    found ==> schema.fields@.contains(id),
                    !found ==> forall|j2: int| 0 <= j2 < j ==> (#[trigger] schema.fields@[j2]) != id,
                decreases schema.fields@.len() - j,
            {
                if schema.fields[j] == id {
                    found = true;
                }
                j += 1;
            }
            if !found {
                return Result::Err(ErrorCode::UnknownColumn);
            }
            k += 1;
        }
        let mut intervals: Vec<Interval> = Vec::new();
        let mut k: usize = 0;
        while k < cluster_keys.len()
            invariant
                k <= cluster_keys@.len(),
                intervals@.len() == k,
                forall|k2: int|
                    0 <= k2 < k ==> #[trigger] intervals@[k2] == interval_for(
                        exprs@,
                        cluster_keys@[k2],
                    ),
            decreases cluster_keys@.len() - k,
        {
            let iv = compile_interval(exprs, cluster_keys[k]);
            intervals.push(iv);
            k += 1;
        }
        Result::Ok(PageIndex { cluster_key_id, keys: cluster_keys, intervals })
    }

    /// Statistics-independent folding: `Ok(false)` exactly when some key
    /// column's compiled interval is empty, so the predicate can match
    /// nothing; `Ok(true)` otherwise.
    pub fn try_apply_const(&self) -> (r: Result<bool, ErrorCode>)
        ensures
            r is Ok,
            r matches Ok(b) ==> (b <==> !(exists|k: int|
                0 <= k < self.intervals@.len() && interval_empty(#[trigger] self.intervals@[k]))),
    {
        let mut k: usize = 0;
        while k < self.intervals.len()
            invariant
                k <= self.intervals@.len(),
                forall|k2: int|
                    0 <= k2 < k ==> !interval_empty(#[trigger] self.intervals@[k2]),
            decreases self.intervals@.len() - k,
        {
            let iv = self.intervals[k];
            if iv.lo > iv.hi {
                return Result::Ok(false);
            }
            k += 1;
        }
        Result::Ok(true)
    }

    /// Evaluates the index against one row group's statistics.
    pub fn apply(&self, stats: &Option<ClusterStatistics>) -> (r: Result<
        (bool, Option<Range<usize>>),
        ErrorCode,
    >)
        ensures
            (r is Ok) <==> self.spec_apply(*stats) is Ok,
            r matches Err(e) ==> self.spec_apply(*stats) == Result::<
                (bool, Option<(usize, usize)>),
                ErrorCode,
            >::Err(e),
            r matches Ok(v) ==> (self.spec_apply(*stats) matches Ok(w) && v.0 == w.0 && (
            v.1 is Some <==> w.1 is Some) && (v.1 matches Some(rg) ==> (w.1 matches Some(t)
                && rg.start == t.0 && rg.end == t.1))),
    {
        let s = match stats {
            Option::None => {
                return Result::Ok((true, Option::None));
            },
            Option::Some(s) => s,
        };
        let n = self.intervals.len();
        if s.min.len() != n || s.max.len() != n {
            return Result::Err(ErrorCode::BadStatistics);
        }
        let mut k: usize = 0;
        while k < n
            invariant
                *stats == Option::Some(*s),
                n == self.intervals@.len(),
                s.min@.len() == n,
                s.max@.len() == n,
                k <= n,
                forall|k2: int| 0 <= k2 < k ==> (#[trigger] s.min@[k2]) <= s.max@[k2],
            decreases n - k,
        {
            if s.min[k] > s.max[k] {
                proof {
                    assert((#[trigger] s.min@[k as int]) > s.max@[k as int]);
                    assert(stats_shape_bad(self.intervals@, *s));
                }
                return Result::Err(ErrorCode::BadStatistics);
            }
            k += 1;
        }
        if s.cluster_key_id != self.cluster_key_id {
            return Result::Ok((true, Option::None));
        }
        let mut k: usize = 0;
        while k < n
            invariant
                *stats == Option::Some(*s),
                s.cluster_key_id == self.cluster_key_id,
                n == self.intervals@.len(),
                s.min@.len() == n,
                s.max@.len() == n,
                k <= n,
                forall|k2: int|
                    0 <= k2 < k ==> interval_intersects(
                        #[trigger] self.intervals@[k2],
                        s.min@[k2] as int,
                        s.max@[k2] as int,
                    ),
                forall|k2: int| 0 <= k2 < n ==> (#[trigger] s.min@[k2]) <= s.max@[k2],
            decreases n - k,
        {
            let iv = self.intervals[k];
            let mn = s.min[k];
            let mx = s.max[k];
            if !(iv.lo <= mx && mn <= iv.hi && iv.lo <= iv.hi) {
                proof {
                    assert(!interval_intersects(self.intervals@[k as int], mn as int, mx as int));
                    assert(!stats_shape_bad(self.intervals@, *s));
                    assert(!group_intersects(self.intervals@, *s));
                }
                return Result::Ok((false, Option::None));
            }
            k += 1;
        }
        let pages = match &s.pages {
            Option::None => {
                return Result::Ok((true, Option::None));
            },
            Option::Some(pages) => pages,
        };
        if n == 0 || pages.len() == 0 {
            return Result::Ok((true, Option::None));
        }
        let iv = self.intervals[0];
        let maxv = s.max[0];
        let ghost pg = pages@;
        let mut first: Option<usize> = Option::None;
        let mut j: usize = 0;
        while j < pages.len() && first.is_none()
            invariant
                pg == pages@,
                j <= pg.len(),
                match first {
                    Option::None => first_matching(iv, pg, maxv, 0) == first_matching(
                        iv,
                        pg,
                        maxv,
                        j as int,
                    ),
                    Option::Some(f) => f < pg.len() && first_matching(iv, pg, maxv, 0)
                        == Option::Some(f as int),
                },
            decreases pg.len() - j,
        {
            let hi_j = if j + 1 < pages.len() {
                pages[j + 1]
            } else {
                maxv
            };
            if iv.lo <= hi_j && pages[j] <= iv.hi && iv.lo <= iv.hi {
                proof {
                    assert(page_matches(iv, pg, maxv, j as int));
                    assert(first_matching(iv, pg, maxv, j as int) == Option::Some(j as int));
                }
                first = Option::Some(j);
            } else {
                proof {
                    assert(!page_matches(iv, pg, maxv, j as int));
                }
            }
            j += 1;
        }
        let fi = match first {
            Option::None => {
                proof {
                    assert(first_matching(iv, pg, maxv, 0) is None);
                }
                return Result::Ok((false, Option::None));
            },
            Option::Some(fi) => fi,
        };
        let mut last: Option<usize> = Option::None;
        let mut j: usize = pages.len();
        while j > 0 && last.is_none()
            invariant
                pg == pages@,
                j <= pg.len(),
                match last {
                    Option::None => last_matching(iv, pg, maxv, pg.len() - 1) == last_matching(
                        iv,
                        pg,
                        maxv,
                        j - 1,
                    ),
                    Option::Some(l) => l < pg.len() && last_matching(iv, pg, maxv, pg.len() - 1)
                        == Option::Some(l as int),
                },
            decreases j,
        {
            let j2 = j - 1;
            let hi_j = if j2 + 1 < pages.len() {
                pages[j2 + 1]
            } else {
                maxv
            };
            if iv.lo <= hi_j && pages[j2] <= iv.hi && iv.lo <= iv.hi {
                proof {
                    assert(page_matches(iv, pg, maxv, j2 as int));
                    assert(last_matching(iv, pg, maxv, j2 as int) == Option::Some(j2 as int));
                }
                last = Option::Some(j2);
            } else {
                proof {
                    assert(!page_matches(iv, pg, maxv, j2 as int));
                }
            }
            j = j2;
        }
        match last {
            Option::None => {
                proof {
                    assert(last_matching(iv, pg, maxv, pg.len() - 1) is None);
                }
                Result::Ok((false, Option::None))
            },
            Option::Some(li) => Result::Ok((true, Option::Some(fi..(li + 1)))),
        }
    }
}

impl PagePruner for PageIndex {
    /// Fail-open evaluation: an error from `apply` degrades to keep,
    /// unrestricted — over-reading is safe, under-reading corrupts
    /// results.
    open spec fn spec_should_keep(&self, stats: Option<ClusterStatistics>) -> (
        bool,
        Option<(usize, usize)>,
    ) {
        spec_fail_open(self.spec_apply(stats))
    }

    fn should_keep(&self, stats: &Option<ClusterStatistics>) -> (r: (bool, Option<Range<usize>>)) {
        match self.apply(stats) {
            Result::Ok(r) => r,
            Result::Err(_) => (true, Option::None),
        }
    }
}

/// The closed set of pruners the factory can build.
pub enum BuiltPruner {
    AlwaysKeep(KeepTrue),
    AlwaysDrop(KeepFalse),
    Index(PageIndex),
}

impl PagePruner for BuiltPruner {
    open spec fn spec_should_keep(&self, stats: Option<ClusterStatistics>) -> (
        bool,
        Option<(usize, usize)>,
    ) {
        match self {
            BuiltPruner::AlwaysKeep(p) => p.spec_should_keep(stats),
            BuiltPruner::AlwaysDrop(p) => p.spec_should_keep(stats),
            BuiltPruner::Index(p) => p.spec_should_keep(stats),
        }
    }

    fn should_keep(&self, stats: &Option<ClusterStatistics>) -> (r: (bool, Option<Range<usize>>)) {
        match self {
            BuiltPruner::AlwaysKeep(p) => p.should_keep(stats),
            BuiltPruner::AlwaysDrop(p) => p.should_keep(stats),
            BuiltPruner::Index(p) => p.should_keep(stats),
        }
    }
}

/// The filter list as a mathematical value.
pub open spec fn spec_filter_view(filter: Option<&Vec<Expr>>) -> Option<Seq<Expr>> {
    match filter {
        Option::Some(v) => Option::Some(v@),
        Option::None => Option::None,
    }
}

/// Inputs on which pruning cannot apply: no cluster key, an empty key
/// list, a key term that is not a bare column reference, or no filter.
pub open spec fn trivial_inputs(
    meta: Option<ClusterKey>,
    keys: Seq<RemoteExpr>,
    filter: Option<Seq<Expr>>,
) -> bool {
    ||| meta is None
    ||| keys.len() == 0
    ||| exists|i: int| 0 <= i < keys.len() && !((#[trigger] keys[i]) is ColumnRef)
    ||| filter is None
    ||| (filter matches Some(fs) && fs.len() == 0)
}

/// The column identifiers the cluster-key expressions reference.
pub open spec fn key_ids(keys: Seq<RemoteExpr>) -> Seq<u32> {
    Seq::new(keys.len(), |i: int| keys[i]->id)
}

/// Whether every referenced key column is in the schema.
pub open spec fn keys_resolvable(keys: Seq<RemoteExpr>, schema: TableSchema) -> bool {
    forall|k: int| 0 <= k < keys.len() ==> schema.fields@.contains(#[trigger] key_ids(keys)[k])
}

/// Whether some key column's compiled interval is empty, making the
/// predicate unsatisfiable whatever the statistics.
pub open spec fn predicate_contradictory(keys: Seq<RemoteExpr>, exprs: Seq<Expr>) -> bool {
    exists|k: int|
        0 <= k < keys.len() && interval_empty(interval_for(exprs, #[trigger] key_ids(keys)[k]))
}

/// The compiled per-key intervals.
pub open spec fn intervals_of(keys: Seq<RemoteExpr>, exprs: Seq<Expr>) -> Seq<Interval> {
    Seq::new(keys.len(), |k: int| interval_for(exprs, key_ids(keys)[k]))
}

/// What the factory's pruner answers for one row group, as a function of
/// the factory's inputs and the group's statistics.
pub open spec fn spec_pruner_decision(
    meta: Option<ClusterKey>,
    keys: Seq<RemoteExpr>,
    filter: Option<Seq<Expr>>,
    schema: TableSchema,
    stats: Option<ClusterStatistics>,
) -> Result<(bool, Option<(usize, usize)>), ErrorCode> {
    if trivial_inputs(meta, keys, filter) {
        Result::Ok((true, Option::None))
    } else if !keys_resolvable(keys, schema) {
        Result::Err(ErrorCode::UnknownColumn)
    } else if predicate_contradictory(keys, filter->0) {
        Result::Ok((false, Option::None))
    } else {
        Result::Ok(
            spec_fail_open(spec_apply_stats((meta->0).0, intervals_of(keys, filter->0), stats)),
        )
    }
}

/// The page pruner factory.
pub struct PagePrunerCreator;

impl PagePrunerCreator {
    /// Builds the cheapest sufficient pruner for the given cluster key,
    /// filter list and schema: always-keep when pruning cannot apply,
    /// always-drop when the predicate folds to a contradiction, else the
    /// dynamic index. Fails only when a key column is not in the schema.
    pub fn try_create(
        func_ctx: FunctionContext,
        cluster_key_meta: Option<ClusterKey>,
        cluster_keys: Vec<RemoteExpr>,
        filter_expr: Option<&Vec<Expr>>,
        schema: &TableSchema,
    ) -> (r: Result<BuiltPruner, ErrorCode>)
        ensures
            r is Err <==> (!trivial_inputs(
                cluster_key_meta,
                cluster_keys@,
                spec_filter_view(filter_expr),
            ) && !keys_resolvable(cluster_keys@, *schema)),
            r is Err ==> r == Result::<BuiltPruner, ErrorCode>::Err(ErrorCode::UnknownColumn),
            r matches Ok(p) ==> forall|stats: Option<ClusterStatistics>|
                spec_pruner_decision(
                    cluster_key_meta,
                    cluster_keys@,
                    spec_filter_view(filter_expr),
                    *schema,
                    stats,
                ) == Result::<(bool, Option<(usize, usize)>), ErrorCode>::Ok(
                    #[trigger] p.spec_should_keep(stats),
                ),
    {
        let ghost metag = cluster_key_meta;
        let ghost keysg = cluster_keys@;
        let ghost filterg = spec_filter_view(filter_expr);
        if cluster_key_meta.is_none() || cluster_keys.len() == 0 {
            return Result::Ok(BuiltPruner::AlwaysKeep(KeepTrue));
        }
        let mut i: usize = 0;
        while i < cluster_keys.len()
            invariant
                keysg == cluster_keys@,
                i <= keysg.len(),
                forall|i2: int| 0 <= i2 < i ==> (#[trigger] keysg[i2]) is ColumnRef,
            decreases keysg.len() - i,
        {
            match &cluster_keys[i] {
                RemoteExpr::ColumnRef { .. } => {},
                _ => {
                    proof {
                        assert(!((#[trigger] keysg[i as int]) is ColumnRef));
                    }
                    return Result::Ok(BuiltPruner::AlwaysKeep(KeepTrue));
                },
            }
            i += 1;
        }
        let cluster_key = match cluster_key_meta {
            Option::Some(ck) => ck,
            Option::None => {
                proof {
                    assert(false);
                }
                return Result::Err(ErrorCode::UnknownColumn);
            },
        };
        let exprs = match filter_expr {
            Option::Some(exprs) => {
                if exprs.len() == 0 {
                    return Result::Ok(BuiltPruner::AlwaysKeep(KeepTrue));
                }
                exprs
            },
            Option::None => {
                return Result::Ok(BuiltPruner::AlwaysKeep(KeepTrue));
            },
        };
        proof {
            assert(!trivial_inputs(metag, keysg, filterg));
        }
        let mut ids: Vec<u32> = Vec::new();
        let mut i: usize = 0;
        while i < cluster_keys.len()
            invariant
                keysg == cluster_keys@,
                i <= keysg.len(),
                ids@.len() == i,
                forall|i2: int| 0 <= i2 < keysg.len() ==> (#[trigger] keysg[i2]) is ColumnRef,
                forall|i2: int| 0 <= i2 < i ==> (#[trigger] ids@[i2]) == key_ids(keysg)[i2],
            decreases keysg.len() - i,
        {
            let id = match &cluster_keys[i] {
                RemoteExpr::ColumnRef { id } => *id,
                _ => {
                    proof {
                        assert(false);
                    }
                    0
                },
            };
            ids.push(id);
            i += 1;
        }
        proof {
            assert(ids@ =~= key_ids(keysg));
        }
        let page_filter = match PageIndex::try_create(
            func_ctx,
            cluster_key.0,
            ids,
            exprs,
            schema,
        ) {
            Result::Ok(ix) => ix,
            Result::Err(e) => {
                proof {
                    assert(!keys_resolvable(keysg, *schema));
                }
                return Result::Err(e);
            },
        };
        proof {
            assert(keys_resolvable(keysg, *schema));
            assert(page_filter.intervals@ =~= intervals_of(keysg, exprs@));
        }
        match page_filter.try_apply_const() {
            Result::Ok(v) => {
                if v {
                    proof {
                        if predicate_contradictory(keysg, exprs@) {
                            let k = choose|k: int|
                                0 <= k < keysg.len() && interval_empty(
                                    interval_for(exprs@, #[trigger] key_ids(keysg)[k]),
                                );
                            assert(page_filter.intervals@[k] == interval_for(
                                exprs@,
                                key_ids(keysg)[k],
                            ));
                            assert(false);
                        }
                    }
                    Result::Ok(BuiltPruner::Index(page_filter))
                } else {
                    proof {
                        let k = choose|k: int|
                            0 <= k < page_filter.intervals@.len() && interval_empty(
                                #[trigger] page_filter.intervals@[k],
                            );
                        assert(interval_empty(interval_for(exprs@, key_ids(keysg)[k])));
                        assert(predicate_contradictory(keysg, exprs@));
                    }
                    Result::Ok(BuiltPruner::AlwaysDrop(KeepFalse))
                }
            },
            Result::Err(_) => Result::Ok(BuiltPruner::Index(page_filter)),
        }
    }
}

/// With no cluster key bound to real columns, or with no filter, the
/// factory's pruner keeps every row group unrestricted, whatever the
/// statistics — including absent statistics.
pub proof fn lemma_trivial_inputs_keep_everything(
    meta: Option<ClusterKey>,
    keys: Seq<RemoteExpr>,
    filter: Option<Seq<Expr>>,
    schema: TableSchema,
    stats: Option<ClusterStatistics>,
)
    requires
        trivial_inputs(meta, keys, filter),
    ensures
        spec_pruner_decision(meta, keys, filter, schema, stats) == Result::<
            (bool, Option<(usize, usize)>),
            ErrorCode,
        >::Ok((true, Option::<(usize, usize)>::None)),
{
}

/// A predicate contradictory on some cluster-key column — no value at
/// all satisfies its comparisons on that column — makes the factory's
/// pruner drop every row group, independent of the stored statistics.
pub proof fn lemma_contradictory_predicate_drops_every_group(
    meta: Option<ClusterKey>,
    keys: Seq<RemoteExpr>,
    exprs: Seq<Expr>,
    schema: TableSchema,
    stats: Option<ClusterStatistics>,
    k: int,
)
    requires
        !trivial_inputs(meta, keys, Option::Some(exprs)),
        keys_resolvable(keys, schema),
        0 <= k < keys.len(),
        forall|x: int| i64::MIN <= x <= i64::MAX ==> !conjuncts_hold(exprs, key_ids(keys)[k], x),
    ensures
        spec_pruner_decision(meta, keys, Option::Some(exprs), schema, stats) == Result::<
            (bool, Option<(usize, usize)>),
            ErrorCode,
        >::Ok((false, Option::<(usize, usize)>::None)),
{
    lemma_empty_interval_contradiction(exprs, key_ids(keys)[k]);
    assert(interval_empty(interval_for(exprs, key_ids(keys)[k])));
    assert(predicate_contradictory(keys, exprs));
}

} // verus!
