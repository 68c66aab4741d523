//! The square table of split counts between sites, held in an
//! `ndarray::Array2<i32>`.
use vstd::prelude::*;

verus! {

/// An n by n table of counts; entry `(i, j)` counts the splits from site `i`
/// to site `j`.
#[verifier::external_body]
pub struct MigrationTally {
    counts: ndarray::Array2<i32>,
}

/// The entries of a tally, row by row.
pub uninterp spec fn tally_entries(t: MigrationTally) -> Seq<Seq<int>>;

/// An n by n table of zeros.
pub open spec fn zero_table(n: nat) -> Seq<Seq<int>> {
    Seq::new(n, |i: int| Seq::new(n, |j: int| 0int))
}

/// Entry `(i, j)` of `t` replaced by `v`.
pub open spec fn table_set(t: Seq<Seq<int>>, i: int, j: int, v: int) -> Seq<Seq<int>> {
    t.update(i, t[i].update(j, v))
}

/// The sum of a row.
pub open spec fn row_sum(r: Seq<int>) -> int
    decreases r.len(),
{
    if r.len() == 0 {
        0
    } else {
        row_sum(r.drop_last()) + r.last()
    }
}

/// The sum of every entry of a table.
pub open spec fn table_total(t: Seq<Seq<int>>) -> int
    decreases t.len(),
{
    if t.len() == 0 {
        0
    } else {
        table_total(t.drop_last()) + row_sum(t.last())
    }
}

/// The table is `n` by `n` and holds no negative entry.
pub open spec fn is_count_table(t: Seq<Seq<int>>, n: nat) -> bool {
    &&& t.len() == n
    &&& forall|i: int| 0 <= i < n ==> (#[trigger] t[i]).len() == n
    &&& forall|i: int, j: int| 0 <= i < t.len() && 0 <= j < t[i].len() ==> #[trigger] t[i][j] >= 0
}

/// Adding one to an entry of a row adds one to its sum.
proof fn lemma_row_sum_bump(r: Seq<int>, j: int)
    requires
        0 <= j < r.len(),
    ensures
        row_sum(r.update(j, r[j] + 1)) == row_sum(r) + 1,
    decreases r.len(),
{
    let r2 = r.update(j, r[j] + 1);
    if j < r.len() - 1 {
        assert(r2.drop_last() =~= r.drop_last().update(j, r[j] + 1));
        lemma_row_sum_bump(r.drop_last(), j);
    } else {
        assert(r2.drop_last() =~= r.drop_last());
    }
}

/// Adding one to an entry of a table adds one to its total.
pub proof fn lemma_table_total_bump(t: Seq<Seq<int>>, i: int, j: int)
    requires
        0 <= i < t.len(),
        0 <= j < t[i].len(),
    ensures
        table_total(table_set(t, i, j, t[i][j] + 1)) == table_total(t) + 1,
    decreases t.len(),
{
    let t2 = table_set(t, i, j, t[i][j] + 1);
    lemma_row_sum_bump(t[i], j);
    if i < t.len() - 1 {
        assert(t2.drop_last() =~= table_set(t.drop_last(), i, j, t[i][j] + 1));
        lemma_table_total_bump(t.drop_last(), i, j);
    } else {
        assert(t2.drop_last() =~= t.drop_last());
    }
}

/// A row without negative entries has a sum that is not negative and that no
/// entry exceeds.
proof fn lemma_row_sum_bounds(r: Seq<int>)
    requires
        forall|k: int| 0 <= k < r.len() ==> #[trigger] r[k] >= 0,
    ensures
        row_sum(r) >= 0,
        forall|k: int| 0 <= k < r.len() ==> #[trigger] r[k] <= row_sum(r),
    decreases r.len(),
{
    if r.len() > 0 {
        let d = r.drop_last();
        assert(forall|k: int| 0 <= k < d.len() ==> #[trigger] d[k] == r[k]);
        lemma_row_sum_bounds(d);
        assert forall|k: int| 0 <= k < r.len() implies #[trigger] r[k] <= row_sum(r) by {
            if k < r.len() - 1 {
                assert(r[k] == d[k]);
            }
        }
    }
}

/// A table without negative entries has a total that is not negative and
/// that no entry exceeds.
pub proof fn lemma_table_total_bounds(t: Seq<Seq<int>>)
    requires
        forall|i: int, j: int| 0 <= i < t.len() && 0 <= j < t[i].len() ==> #[trigger] t[i][j] >= 0,
    ensures
        table_total(t) >= 0,
        forall|i: int, j: int| 0 <= i < t.len() && 0 <= j < t[i].len() ==> #[trigger] t[i][j] <= table_total(t),
    decreases t.len(),
{
    if t.len() > 0 {
        let d = t.drop_last();
        assert(forall|i: int| 0 <= i < d.len() ==> #[trigger] d[i] == t[i]);
        lemma_table_total_bounds(d);
        lemma_row_sum_bounds(t.last());
        assert forall|i: int, j: int| 0 <= i < t.len() && 0 <= j < t[i].len() implies #[trigger] t[i][j] <= table_total(t) by {
            if i < t.len() - 1 {
                assert(t[i][j] == d[i][j]);
            } else {
                assert(t[i][j] == t.last()[j]);
            }
        }
    }
}

/// The total of the zero table is zero.
pub proof fn lemma_zero_table_total(n: nat)
    ensures
        table_total(zero_table(n)) == 0,
{
    lemma_zero_rows_total(n, n);
    assert(zero_table(n).take(n as int) =~= zero_table(n));
}

proof fn lemma_zero_row_sum(r: Seq<int>)
    requires
        forall|k: int| 0 <= k < r.len() ==> #[trigger] r[k] == 0,
    ensures
        row_sum(r) == 0,
    decreases r.len(),
{
    if r.len() > 0 {
        lemma_zero_row_sum(r.drop_last());
    }
}

proof fn lemma_zero_rows_total(m: nat, n: nat)
    requires
        m <= n,
    ensures
        table_total(zero_table(n).take(m as int)) == 0,
    decreases m,
{
    if m > 0 {
        let t = zero_table(n).take(m as int);
        assert(t.drop_last() =~= zero_table(n).take(m - 1));
        lemma_zero_rows_total((m - 1) as nat, n);
        lemma_zero_row_sum(t.last());
    }
}

impl MigrationTally {
    /// Relies on `ndarray::Array2::zeros`: an array of shape `(n, n)` filled
    /// with zeros; it panics when the element count overflows `isize`.
    #[verifier::external_body]
    fn zeros_array(n: usize) -> (r: MigrationTally)
        requires
            n * n <= isize::MAX,
        ensures
            tally_entries(r) == zero_table(n as nat),
    {
        MigrationTally { counts: ndarray::Array2::zeros((n, n)) }
    }

    /// Relies on `ndarray`'s indexing by `[i, j]`, which reads entry `(i, j)`
    /// and panics out of bounds.
    #[verifier::external_body]
    fn entry(&self, i: usize, j: usize) -> (r: i32)
        requires
            i < tally_entries(*self).len(),
            j < tally_entries(*self)[i as int].len(),
        ensures
            r as int == tally_entries(*self)[i as int][j as int],
    {
        self.counts[[i, j]]
    }

    /// Relies on `ndarray`'s mutable indexing by `[i, j]`, which writes entry
    /// `(i, j)` and panics out of bounds.
    #[verifier::external_body]
    fn set(&mut self, i: usize, j: usize, v: i32)
        requires
            i < tally_entries(*old(self)).len(),
            j < tally_entries(*old(self))[i as int].len(),
        ensures
            tally_entries(*final(self)) == table_set(tally_entries(*old(self)), i as int, j as int, v as int),
    {
        self.counts[[i, j]] = v;
    }

    /// Relies on `ndarray::ArrayBase::nrows`: the length of the first axis.
    #[verifier::external_body]
    fn rows(&self) -> (r: usize)
        ensures
            r == tally_entries(*self).len(),
    {
        self.counts.nrows()
    }
    /// Adds one to entry `(i, j)`; the total grows by one.
    pub fn increment(&mut self, i: usize, j: usize)
        requires
            i < tally_entries(*old(self)).len(),
            j < tally_entries(*old(self))[i as int].len(),
            tally_entries(*old(self))[i as int][j as int] < i32::MAX,
        ensures
            tally_entries(*final(self)) == table_set(
                tally_entries(*old(self)),
                i as int,
                j as int,
                tally_entries(*old(self))[i as int][j as int] + 1,
            ),
            table_total(tally_entries(*final(self))) == table_total(tally_entries(*old(self))) + 1,
    {
        proof {
            lemma_table_total_bump(tally_entries(*self), i as int, j as int);
        }
        let c = self.entry(i, j);
        self.set(i, j, c + 1);
    }

    /// An n by n tally of zeros.
    pub fn zeros(n: usize) -> (r: MigrationTally)
        requires
            n * n <= isize::MAX,
        ensures
            tally_entries(r) == zero_table(n as nat),
            is_count_table(tally_entries(r), n as nat),
            table_total(tally_entries(r)) == 0,
    {
        proof {
            lemma_zero_table_total(n as nat);
        }
        MigrationTally::zeros_array(n)
    }

    /// The count at `(i, j)`.
    pub fn get(&self, i: usize, j: usize) -> (r: i32)
        requires
            i < tally_entries(*self).len(),
            j < tally_entries(*self)[i as int].len(),
        ensures
            r as int == tally_entries(*self)[i as int][j as int],
    {
        self.entry(i, j)
    }

    /// The number of sites, that is of rows.
    pub fn nrows(&self) -> (r: usize)
        ensures
            r == tally_entries(*self).len(),
    {
        self.rows()
    }
}

} // verus!
