use vstd::prelude::*;

verus! {

/// What is left of `s` after removing leading whole copies of `t`.
/// Removal stops at the first position where `t` does not match, a
/// shorter-than-`t` tail included.
pub open spec fn trim_leading_spec(s: Seq<u8>, t: Seq<u8>) -> Seq<u8>
    decreases s.len(), when t.len() > 0
{
    if s.len() >= t.len() && s.subrange(0, t.len() as int) == t {
        trim_leading_spec(s.skip(t.len() as int), t)
    } else {
        s
    }
}

/// What is left of `s` after removing trailing whole copies of `t`.
pub open spec fn trim_trailing_spec(s: Seq<u8>, t: Seq<u8>) -> Seq<u8>
    decreases s.len(), when t.len() > 0
{
    if s.len() >= t.len() && s.subrange(s.len() - t.len(), s.len() as int) == t {
        trim_trailing_spec(s.take(s.len() - t.len()), t)
    } else {
        s
    }
}

/// What trimming both ends leaves: nothing when `s` is whole copies of
/// `t`, else the bytes between the leading and the trailing copies.
/// Leading and trailing copies are each counted against the whole of
/// `s`, so they may claim overlapping bytes; such inputs are excluded
/// by `spec_can_apply`.
pub open spec fn trim_both_spec(s: Seq<u8>, t: Seq<u8>) -> Seq<u8> {
    if trim_leading_spec(s, t).len() == 0 {
        Seq::empty()
    } else {
        s.subrange(s.len() - trim_leading_spec(s, t).len(), trim_trailing_spec(s, t).len() as int)
    }
}

/// Removes, from a byte string, leading and/or trailing copies of a
/// non-empty pattern, appending what remains to an output buffer.
pub trait TrimOperator {
    /// The inputs the operator accepts.
    spec fn spec_can_apply(s: Seq<u8>, t: Seq<u8>) -> bool;

    /// What the operator appends.
    spec fn spec_trim(s: Seq<u8>, t: Seq<u8>) -> Seq<u8>;

    fn apply(&mut self, data: &Vec<u8>, trim: &Vec<u8>, buffer: &mut Vec<u8>)
        requires
            Self::spec_can_apply(data@, trim@),
        ensures
            final(buffer)@ == old(buffer)@ + Self::spec_trim(data@, trim@),
    ;
}

/// Whether `t` occurs in `s` at position `i`.
fn matches_at(s: &Vec<u8>, i: usize, t: &Vec<u8>) -> (r: bool)
    requires
        i + t@.len() <= s@.len(),
    ensures
        r == (s@.subrange(i as int, i + t@.len()) == t@),
{
    let slen = s.len();
    let tlen = t.len();
    let mut q: usize = 0;
    while q < tlen
        invariant
            q <= tlen,
            tlen == t@.len(),
            slen == s@.len(),
            i + tlen <= slen,
            forall|p: int| 0 <= p < q ==> s@[i + p] == t@[p],
        decreases tlen - q,
    {
        if s[i + q] != t[q] {
            proof {
                assert(s@.subrange(i as int, i + t@.len())[q as int] == s@[i + q]);
            }
            return false;
        }
        q += 1;
    }
    proof {
        assert(s@.subrange(i as int, i + t@.len()) =~= t@);
    }
    true
}

/// Appends `s[from..to]` to `buffer`.
fn append_range(buffer: &mut Vec<u8>, s: &Vec<u8>, from: usize, to: usize)
    requires
        from <= to,
        to <= s@.len(),
    ensures
        final(buffer)@ == old(buffer)@ + s@.subrange(from as int, to as int),
{
    let mut p: usize = from;
    while p < to
        invariant
            from <= p <= to,
            to <= s@.len(),
            buffer@ == old(buffer)@ + s@.subrange(from as int, p as int),
        decreases to - p,
    {
        buffer.push(s[p]);
        proof {
            assert(old(buffer)@ + s@.subrange(from as int, p + 1 as int) =~= (old(buffer)@
                + s@.subrange(from as int, p as int)).push(s@[p as int]));
        }
        p += 1;
    }
    proof {
        assert(buffer@ =~= old(buffer)@ + s@.subrange(from as int, to as int));
    }
}

/// Index of the first byte after the leading copies of `t` in `s`.
fn leading_end(s: &Vec<u8>, t: &Vec<u8>) -> (i: usize)
    requires
        t@.len() > 0,
    ensures
        i <= s@.len(),
        trim_leading_spec(s@, t@) == s@.skip(i as int),
{
    let mut i: usize = 0;
    proof {
        assert(s@.skip(0) =~= s@);
    }
    while t.len() <= s.len() - i && matches_at(s, i, t)
        invariant
            i <= s@.len(),
            t@.len() > 0,
            trim_leading_spec(s@, t@) == trim_leading_spec(s@.skip(i as int), t@),
        decreases s@.len() - i,
    {
        proof {
            let sk = s@.skip(i as int);
            assert(sk.subrange(0, t@.len() as int) =~= s@.subrange(i as int, i + t@.len()));
            assert(trim_leading_spec(sk, t@) == trim_leading_spec(sk.skip(t@.len() as int), t@));
            assert(sk.skip(t@.len() as int) =~= s@.skip(i + t@.len()));
        }
        i += t.len();
    }
    proof {
        let sk = s@.skip(i as int);
        if t@.len() <= s@.len() - i {
            assert(sk.subrange(0, t@.len() as int) =~= s@.subrange(i as int, i + t@.len()));
            assert(trim_leading_spec(sk, t@) == sk);
        } else {
            assert(sk.len() < t@.len());
            assert(trim_leading_spec(sk, t@) == sk);
        }
    }
    i
}

/// Index just past the last byte before the trailing copies of `t` in
/// `s`.
fn trailing_start(s: &Vec<u8>, t: &Vec<u8>) -> (j: usize)
    requires
        t@.len() > 0,
    ensures
        j <= s@.len(),
        trim_trailing_spec(s@, t@) == s@.take(j as int),
{
    let mut j: usize = s.len();
    proof {
        assert(s@.take(s@.len() as int) =~= s@);
    }
    while t.len() <= j && matches_at(s, j - t.len(), t)
        invariant
            j <= s@.len(),
            t@.len() > 0,
            trim_trailing_spec(s@, t@) == trim_trailing_spec(s@.take(j as int), t@),
        decreases j,
    {
        proof {
            let tk = s@.take(j as int);
            assert(tk.subrange(j - t@.len(), j as int) =~= s@.subrange(j - t@.len(), j as int));
            assert(tk.len() >= t@.len());
            assert(tk.subrange(tk.len() - t@.len(), tk.len() as int) == t@);
            assert(trim_trailing_spec(tk, t@) == trim_trailing_spec(
                tk.take(tk.len() - t@.len()),
                t@,
            ));
            assert(tk.take(tk.len() - t@.len()) =~= s@.take(j - t@.len()));
        }
        j -= t.len();
    }
    proof {
        let tk = s@.take(j as int);
        if t@.len() <= j {
            assert(tk.subrange(tk.len() - t@.len(), tk.len() as int) =~= s@.subrange(
                j - t@.len(),
                j as int,
            ));
            assert(trim_trailing_spec(tk, t@) == tk);
        } else {
            assert(tk.len() < t@.len());
            assert(trim_trailing_spec(tk, t@) == tk);
        }
    }
    j
}

/// Removes leading copies of the pattern.
#[derive(Clone, Copy, Default)]
pub struct TrimLeading;

impl TrimOperator for TrimLeading {
    open spec fn spec_can_apply(s: Seq<u8>, t: Seq<u8>) -> bool {
        t.len() > 0
    }

    open spec fn spec_trim(s: Seq<u8>, t: Seq<u8>) -> Seq<u8> {
        trim_leading_spec(s, t)
    }

    fn apply(&mut self, data: &Vec<u8>, trim: &Vec<u8>, buffer: &mut Vec<u8>) {
        let i = leading_end(data, trim);
        append_range(buffer, data, i, data.len());
        proof {
            assert(data@.subrange(i as int, data@.len() as int) =~= data@.skip(i as int));
        }
    }
}

/// Removes trailing copies of the pattern.
#[derive(Clone, Copy, Default)]
pub struct TrimTrailing;

impl TrimOperator for TrimTrailing {
    open spec fn spec_can_apply(s: Seq<u8>, t: Seq<u8>) -> bool {
        t.len() > 0
    }

    open spec fn spec_trim(s: Seq<u8>, t: Seq<u8>) -> Seq<u8> {
        trim_trailing_spec(s, t)
    }

    fn apply(&mut self, data: &Vec<u8>, trim: &Vec<u8>, buffer: &mut Vec<u8>) {
        let j = trailing_start(data, trim);
        append_range(buffer, data, 0, j);
        proof {
            assert(data@.subrange(0, j as int) =~= data@.take(j as int));
        }
    }
}

/// Removes leading and trailing copies of the pattern. Because the two
/// ends are counted independently against the whole input, an input
/// whose leading and trailing copies would overlap is not accepted.
#[derive(Clone, Copy, Default)]
pub struct TrimBoth;

impl TrimOperator for TrimBoth {
    open spec fn spec_can_apply(s: Seq<u8>, t: Seq<u8>) -> bool {
        t.len() > 0 && (trim_leading_spec(s, t).len() == 0 || s.len() - trim_leading_spec(
            s,
            t,
        ).len() <= trim_trailing_spec(s, t).len())
    }

    open spec fn spec_trim(s: Seq<u8>, t: Seq<u8>) -> Seq<u8> {
        trim_both_spec(s, t)
    }

    fn apply(&mut self, data: &Vec<u8>, trim: &Vec<u8>, buffer: &mut Vec<u8>) {
        let i = leading_end(data, trim);
        if i == data.len() {
            proof {
                assert(data@.skip(i as int).len() == 0);
            }
            return ;
        }
        let j = trailing_start(data, trim);
        proof {
            assert(trim_leading_spec(data@, trim@).len() == data@.len() - i);
            assert(trim_trailing_spec(data@, trim@).len() == j);
        }
        append_range(buffer, data, i, j);
    }
}

/// A column of byte strings: all rows' bytes concatenated, plus one
/// boundary offset per row edge (so `offsets` has one entry more than
/// the column has rows).
pub struct StringColumn {
    pub values: Vec<u8>,
    pub offsets: Vec<usize>,
}

impl StringColumn {
    pub open spec fn wf(self) -> bool {
        &&& self.offsets@.len() >= 1
        &&& self.offsets@[0] == 0
        &&& forall|i: int|
            0 <= i < self.offsets@.len() - 1 ==> (#[trigger] self.offsets@[i]) <= self.offsets@[i
                + 1]
        &&& self.offsets@[self.offsets@.len() - 1] == self.values@.len()
    }

    pub open spec fn spec_rows(self) -> int {
        self.offsets@.len() - 1
    }

    /// Row `r`'s bytes.
    pub open spec fn spec_value_at(self, r: int) -> Seq<u8> {
        self.values@.subrange(self.offsets@[r] as int, self.offsets@[r + 1] as int)
    }

    pub fn rows(&self) -> (r: usize)
        requires
            self.wf(),
        ensures
            r == self.spec_rows(),
    {
        self.offsets.len() - 1
    }

    /// A copy of row `r`'s bytes.
    pub fn value_at(&self, r: usize) -> (v: Vec<u8>)
        requires
            self.wf(),
            r < self.spec_rows(),
        ensures
            v@ == self.spec_value_at(r as int),
    {
        proof {
            lemma_offsets_mono(*self, r + 1 as int, self.offsets@.len() - 1);
        }
        let n = self.offsets.len();
        proof {
            assert(r + 1 < n);
        }
        let start = self.offsets[r];
        let end = self.offsets[r + 1];
        let mut v: Vec<u8> = Vec::new();
        append_range(&mut v, &self.values, start, end);
        proof {
            assert(v@ =~= self.values@.subrange(start as int, end as int));
        }
        v
    }
}

/// A never-decreasing offset list is monotone across any two indexes.
proof fn lemma_offsets_seq_mono(offsets: Seq<usize>, i: int, j: int)
    requires
        0 <= i <= j < offsets.len(),
        forall|k: int| 0 <= k < offsets.len() - 1 ==> (#[trigger] offsets[k]) <= offsets[k + 1],
    ensures
        offsets[i] <= offsets[j],
    decreases j - i,
{
    if i < j {
        lemma_offsets_seq_mono(offsets, i + 1, j);
    }
}

/// Offsets of a well-formed column never decrease.
proof fn lemma_offsets_mono(c: StringColumn, i: int, j: int)
    requires
        c.wf(),
        0 <= i <= j < c.offsets@.len(),
    ensures
        c.offsets@[i] <= c.offsets@[j],
{
    lemma_offsets_seq_mono(c.offsets@, i, j);
}

/// The trim scalar function: applies one trim operator row by row over
/// a pair of row-aligned string columns.
pub struct TrimFunction<T: TrimOperator> {
    pub display_name: String,
    pub op: T,
}

impl<T: TrimOperator> TrimFunction<T> {
    pub fn try_create(display_name: &str, op: T) -> (r: TrimFunction<T>)
        ensures
            r.display_name@ == display_name@,
            r.op == op,
    {
        TrimFunction { display_name: display_name.to_owned(), op }
    }

    pub fn name(&self) -> (r: &str)
        ensures
            r@ == self.display_name@,
    {
        self.display_name.as_str()
    }

    /// Trims every row of `strings` by the same row of `patterns`,
    /// producing the column of trimmed rows.
    pub fn eval(&mut self, strings: &StringColumn, patterns: &StringColumn) -> (r: StringColumn)
        requires
            strings.wf(),
            patterns.wf(),
            strings.spec_rows() == patterns.spec_rows(),
            forall|row: int|
                0 <= row < strings.spec_rows() ==> T::spec_can_apply(
                    #[trigger] strings.spec_value_at(row),
                    patterns.spec_value_at(row),
                ),
        ensures
            r.wf(),
            r.spec_rows() == strings.spec_rows(),
            forall|row: int|
                0 <= row < strings.spec_rows() ==> #[trigger] r.spec_value_at(row) == T::spec_trim(
                    strings.spec_value_at(row),
                    patterns.spec_value_at(row),
                ),
    {
        let rows = strings.rows();
        let mut values: Vec<u8> = Vec::new();
        let mut offsets: Vec<usize> = Vec::new();
        offsets.push(0);
        let mut row: usize = 0;
        while row < rows
            invariant
                strings.wf(),
                patterns.wf(),
                strings.spec_rows() == patterns.spec_rows(),
                rows == strings.spec_rows(),
                forall|q: int|
                    0 <= q < strings.spec_rows() ==> T::spec_can_apply(
                        #[trigger] strings.spec_value_at(q),
                        patterns.spec_value_at(q),
                    ),
                row <= rows,
                offsets@.len() == row + 1,
                offsets@[0] == 0,
                forall|i: int|
                    0 <= i < offsets@.len() - 1 ==> (#[trigger] offsets@[i]) <= offsets@[i + 1],
                offsets@[offsets@.len() - 1] == values@.len(),
                forall|q: int|
                    0 <= q < row ==> #[trigger] values@.subrange(
                        offsets@[q] as int,
                        offsets@[q + 1] as int,
                    ) == T::spec_trim(strings.spec_value_at(q), patterns.spec_value_at(q)),
            decreases rows - row,
        {
            let s = strings.value_at(row);
            let t = patterns.value_at(row);
            let ghost values0 = values@;
            let ghost offsets0 = offsets@;
            self.op.apply(&s, &t, &mut values);
            offsets.push(values.len());
            proof {
                let trimmed = T::spec_trim(
                    strings.spec_value_at(row as int),
                    patterns.spec_value_at(row as int),
                );
                assert(values@ == values0 + trimmed);
                assert(values@.subrange(
                    offsets@[row as int] as int,
                    offsets@[row + 1 as int] as int,
                ) =~= trimmed);
                assert forall|q: int|
                    0 <= q < row implies #[trigger] values@.subrange(
                    offsets@[q] as int,
                    offsets@[q + 1] as int,
                ) == T::spec_trim(strings.spec_value_at(q), patterns.spec_value_at(q)) by {
                    assert(offsets@[q] == offsets0[q] && offsets@[q + 1] == offsets0[q + 1]);
                    assert(offsets0[q + 1] <= values0.len()) by {
                        lemma_offsets_seq_mono(offsets0, q + 1, offsets0.len() - 1);
                    }
                    assert(values@.subrange(offsets@[q] as int, offsets@[q + 1] as int)
                        =~= values0.subrange(offsets0[q] as int, offsets0[q + 1] as int));
                }
            }
            row += 1;
        }
        StringColumn { values, offsets }
    }
}

} // verus!
