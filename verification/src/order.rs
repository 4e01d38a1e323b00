//! Chronological ordering.
//!
//! Rows are ordered by their `date` strings under lexicographic
//! comparison of character values; ISO `YYYY-MM-DD` dates make that
//! chronological order.  The sort is stable: rows sharing a date keep
//! their relative order, which matters because duplicate dates are
//! preserved, not merged.  Its contract pins the result completely:
//! a sorted row order in which, for every date, the subsequence of
//! rows carrying that date is exactly the input's.

use vstd::prelude::*;

use crate::table::{OhlcvTable, Row, RowView, rows_view};

verus! {

/// Lexicographic order on character sequences: a proper prefix comes
/// first, otherwise the first differing character decides.
pub open spec fn lex_le(a: Seq<char>, b: Seq<char>) -> bool
    decreases a.len(),
{
    if a.len() == 0 {
        true
    } else if b.len() == 0 {
        false
    } else if (a[0] as u32) < (b[0] as u32) {
        true
    } else if (a[0] as u32) > (b[0] as u32) {
        false
    } else {
        lex_le(a.skip(1), b.skip(1))
    }
}

/// Character values are their unicode scalar values: equal scalars,
/// equal characters.
proof fn lemma_char_scalar_injective(x: char, y: char)
    requires
        x as u32 == y as u32,
    ensures
        x == y,
{
}

pub proof fn lemma_lex_le_refl(a: Seq<char>)
    ensures
        lex_le(a, a),
    decreases a.len(),
{
    if a.len() > 0 {
        lemma_lex_le_refl(a.skip(1));
    }
}

pub proof fn lemma_lex_le_total(a: Seq<char>, b: Seq<char>)
    ensures
        lex_le(a, b) || lex_le(b, a),
    decreases a.len(),
{
    if a.len() > 0 && b.len() > 0 && !((a[0] as u32) < (b[0] as u32)) && !((a[0] as u32) > (
    b[0] as u32)) {
        lemma_lex_le_total(a.skip(1), b.skip(1));
    }
}

pub proof fn lemma_lex_le_trans(a: Seq<char>, b: Seq<char>, c: Seq<char>)
    requires
        lex_le(a, b),
        lex_le(b, c),
    ensures
        lex_le(a, c),
    decreases a.len(),
{
    if a.len() > 0 && b.len() > 0 && c.len() > 0 && (a[0] as u32) == (b[0] as u32) && (
    b[0] as u32) == (c[0] as u32) {
        lemma_lex_le_trans(a.skip(1), b.skip(1), c.skip(1));
    }
}

pub proof fn lemma_lex_le_antisymmetric(a: Seq<char>, b: Seq<char>)
    requires
        lex_le(a, b),
        lex_le(b, a),
    ensures
        a == b,
    decreases a.len(),
{
    if a.len() > 0 && b.len() > 0 && (a[0] as u32) == (b[0] as u32) {
        lemma_char_scalar_injective(a[0], b[0]);
        lemma_lex_le_antisymmetric(a.skip(1), b.skip(1));
        assert(a =~= seq![a[0]] + a.skip(1));
        assert(b =~= seq![b[0]] + b.skip(1));
    } else {
        assert(a =~= b);
    }
}

/// Decide `lex_le` on two strings.
fn str_lex_le(a: &str, b: &str) -> (r: bool)
    ensures
        r == lex_le(a@, b@),
{
    let an = a.unicode_len();
    let bn = b.unicode_len();
    let mut i: usize = 0;
    proof {
        assert(a@.skip(0) =~= a@);
        assert(b@.skip(0) =~= b@);
    }
    while i < an && i < bn
        invariant
            an == a@.len(),
            bn == b@.len(),
            0 <= i <= an,
            0 <= i <= bn,
            lex_le(a@, b@) == lex_le(a@.skip(i as int), b@.skip(i as int)),
        decreases an - i,
    {
        let ca = a.get_char(i);
        let cb = b.get_char(i);
        proof {
            assert(a@.skip(i as int)[0] == a@[i as int]);
            assert(b@.skip(i as int)[0] == b@[i as int]);
            assert(a@.skip(i as int).skip(1) =~= a@.skip(i + 1));
            assert(b@.skip(i as int).skip(1) =~= b@.skip(i + 1));
        }
        if (ca as u32) < (cb as u32) {
            return true;
        }
        if (ca as u32) > (cb as u32) {
            return false;
        }
        i = i + 1;
    }
    proof {
        if i == an {
            assert(a@.skip(i as int).len() == 0);
        } else {
            assert(b@.skip(i as int).len() == 0);
            assert(a@.skip(i as int).len() > 0);
        }
    }
    an - i == 0
}

/// The table's rows are in chronological order.
pub open spec fn sorted_by_date(rows: Seq<RowView>) -> bool {
    forall|i: int, j: int|
        0 <= i < j < rows.len() ==> lex_le(#[trigger] rows[i].date, #[trigger] rows[j].date)
}

/// The subsequence of rows carrying date `d`, in their present order.
pub open spec fn rows_with_date(rows: Seq<RowView>, d: Seq<char>) -> Seq<RowView>
    decreases rows.len(),
{
    if rows.len() == 0 {
        Seq::empty()
    } else if rows[0].date == d {
        seq![rows[0]] + rows_with_date(rows.skip(1), d)
    } else {
        rows_with_date(rows.skip(1), d)
    }
}

pub proof fn lemma_rows_with_date_concat(x: Seq<RowView>, y: Seq<RowView>, d: Seq<char>)
    ensures
        rows_with_date(x + y, d) == rows_with_date(x, d) + rows_with_date(y, d),
    decreases x.len(),
{
    if x.len() == 0 {
        assert(x + y =~= y);
        assert(rows_with_date(x, d) + rows_with_date(y, d) =~= rows_with_date(y, d));
    } else {
        assert((x + y).skip(1) =~= x.skip(1) + y);
        lemma_rows_with_date_concat(x.skip(1), y, d);
        if x[0].date == d {
            assert(seq![x[0]] + (rows_with_date(x.skip(1), d) + rows_with_date(y, d)) =~= (seq![
                x[0],
            ] + rows_with_date(x.skip(1), d)) + rows_with_date(y, d));
        }
    }
}

/// No row of `s` carries date `d`, so the subsequence is empty.
pub proof fn lemma_rows_with_date_absent(s: Seq<RowView>, d: Seq<char>)
    requires
        forall|i: int| 0 <= i < s.len() ==> (#[trigger] s[i]).date != d,
    ensures
        rows_with_date(s, d) == Seq::<RowView>::empty(),
    decreases s.len(),
{
    if s.len() > 0 {
        assert(forall|i: int| 0 <= i < s.skip(1).len() ==> (#[trigger] s.skip(1)[i]).date != d);
        lemma_rows_with_date_absent(s.skip(1), d);
    }
}

pub proof fn lemma_rows_with_date_singleton(x: RowView, d: Seq<char>)
    ensures
        x.date == d ==> rows_with_date(seq![x], d) == seq![x],
        x.date != d ==> rows_with_date(seq![x], d) == Seq::<RowView>::empty(),
{
    let s = seq![x];
    assert(s[0] == x);
    assert(s.skip(1) =~= Seq::<RowView>::empty());
    assert(rows_with_date(Seq::<RowView>::empty(), d) == Seq::<RowView>::empty());
    if x.date == d {
        assert(rows_with_date(s, d) == seq![x] + rows_with_date(s.skip(1), d));
        assert(seq![x] + Seq::<RowView>::empty() =~= seq![x]);
    }
}

/// Inserting a row at position `k` behind rows that all carry other
/// dates appends it to its date's subsequence and leaves every other
/// date's subsequence unchanged.
proof fn lemma_rows_with_date_insert(s: Seq<RowView>, k: int, x: RowView, d: Seq<char>)
    requires
        0 <= k <= s.len(),
        forall|m: int| k <= m < s.len() ==> (#[trigger] s[m]).date != x.date,
    ensures
        rows_with_date(s.insert(k, x), d) == rows_with_date(s, d) + rows_with_date(seq![x], d),
{
    let a = s.subrange(0, k);
    let b = s.subrange(k, s.len() as int);
    assert(s =~= a + b);
    assert(s.insert(k, x) =~= a + (seq![x] + b));
    lemma_rows_with_date_concat(a, seq![x] + b, d);
    lemma_rows_with_date_concat(seq![x], b, d);
    lemma_rows_with_date_concat(a, b, d);
    lemma_rows_with_date_singleton(x, d);
    if d == x.date {
        assert(forall|i: int| 0 <= i < b.len() ==> (#[trigger] b[i]).date != d);
        lemma_rows_with_date_absent(b, d);
        assert(rows_with_date(a, d) + (seq![x] + Seq::<RowView>::empty()) =~= (rows_with_date(a, d)
            + Seq::<RowView>::empty()) + seq![x]);
        assert(rows_with_date(a, d) + Seq::<RowView>::empty() =~= rows_with_date(a, d));
        assert(rows_with_date(s, d) == rows_with_date(a, d) + rows_with_date(b, d));
    } else {
        assert(rows_with_date(a, d) + (Seq::<RowView>::empty() + rows_with_date(b, d)) =~= (
        rows_with_date(a, d) + rows_with_date(b, d)) + Seq::<RowView>::empty());
    }
}

proof fn lemma_rows_with_date_member(s: Seq<RowView>, d: Seq<char>)
    requires
        rows_with_date(s, d).len() > 0,
    ensures
        exists|i: int| 0 <= i < s.len() && (#[trigger] s[i]).date == d,
    decreases s.len(),
{
    if s.len() == 0 {
        assert(rows_with_date(s, d).len() == 0);
    } else if s[0].date == d {
        assert(0 <= 0 < s.len() && s[0].date == d);
    } else {
        lemma_rows_with_date_member(s.skip(1), d);
        let i = choose|i: int| 0 <= i < s.skip(1).len() && (#[trigger] s.skip(1)[i]).date == d;
        assert(s[i + 1] == s.skip(1)[i]);
        assert(0 <= i + 1 < s.len() && s[i + 1].date == d);
    }
}

/// A sorted row order in which every date keeps exactly its input
/// subsequence is unique.  In particular, sorting changes a sorted
/// table not at all, and sorting a second time returns the first
/// result unchanged: the chronological sort is idempotent.
pub proof fn lemma_stable_sort_unique(a: Seq<RowView>, b: Seq<RowView>)
    requires
        sorted_by_date(a),
        sorted_by_date(b),
        forall|d: Seq<char>| #[trigger] rows_with_date(a, d) == rows_with_date(b, d),
    ensures
        a == b,
    decreases a.len(),
{
    if a.len() == 0 {
        if b.len() > 0 {
            let d = b[0].date;
            assert(rows_with_date(b, d) == seq![b[0]] + rows_with_date(b.skip(1), d));
            assert(rows_with_date(a, d).len() == 0);
        }
        assert(a =~= b);
    } else if b.len() == 0 {
        let d = a[0].date;
        assert(rows_with_date(a, d) == seq![a[0]] + rows_with_date(a.skip(1), d));
        assert(rows_with_date(b, d).len() == 0);
        assert(a =~= b);
    } else {
        let da = a[0].date;
        let db = b[0].date;
        assert(rows_with_date(a, da) == seq![a[0]] + rows_with_date(a.skip(1), da));
        assert(rows_with_date(b, db) == seq![b[0]] + rows_with_date(b.skip(1), db));
        lemma_rows_with_date_member(b, da);
        let i = choose|i: int| 0 <= i < b.len() && (#[trigger] b[i]).date == da;
        if i == 0 {
            lemma_lex_le_refl(db);
        } else {
            assert(lex_le(b[0].date, b[i].date));
        }
        assert(lex_le(db, da));
        lemma_rows_with_date_member(a, db);
        let j = choose|j: int| 0 <= j < a.len() && (#[trigger] a[j]).date == db;
        if j == 0 {
            lemma_lex_le_refl(da);
        } else {
            assert(lex_le(a[0].date, a[j].date));
        }
        assert(lex_le(da, db));
        lemma_lex_le_antisymmetric(da, db);
        assert(rows_with_date(b, da) == seq![b[0]] + rows_with_date(b.skip(1), da));
        assert(rows_with_date(a, da)[0] == a[0]);
        assert(rows_with_date(b, da)[0] == b[0]);
        assert(a[0] == b[0]);
        let at = a.skip(1);
        let bt = b.skip(1);
        assert forall|p: int, q: int| 0 <= p < q < at.len() implies lex_le(
            (#[trigger] at[p]).date,
            (#[trigger] at[q]).date,
        ) by {
            assert(at[p] == a[p + 1]);
            assert(at[q] == a[q + 1]);
            assert(lex_le(a[p + 1].date, a[q + 1].date));
        }
        assert forall|p: int, q: int| 0 <= p < q < bt.len() implies lex_le(
            (#[trigger] bt[p]).date,
            (#[trigger] bt[q]).date,
        ) by {
            assert(bt[p] == b[p + 1]);
            assert(bt[q] == b[q + 1]);
            assert(lex_le(b[p + 1].date, b[q + 1].date));
        }
        assert forall|d: Seq<char>| #[trigger] rows_with_date(at, d) == rows_with_date(bt, d) by {
            assert(rows_with_date(a, d) == rows_with_date(b, d));
            if d == da {
                assert(rows_with_date(a, d) == seq![a[0]] + rows_with_date(at, d));
                assert(rows_with_date(b, d) == seq![b[0]] + rows_with_date(bt, d));
                assert((seq![a[0]] + rows_with_date(at, d)).skip(1) =~= rows_with_date(at, d));
                assert((seq![b[0]] + rows_with_date(bt, d)).skip(1) =~= rows_with_date(bt, d));
            } else {
                assert(rows_with_date(a, d) == rows_with_date(at, d));
                assert(rows_with_date(b, d) == rows_with_date(bt, d));
            }
        }
        lemma_stable_sort_unique(at, bt);
        assert(a =~= seq![a[0]] + at);
        assert(b =~= seq![b[0]] + bt);
    }
}

impl OhlcvTable {
    /// Reorder the rows so that the `date` column is non-decreasing
    /// under `lex_le`, stably: for every date, the subsequence of rows
    /// carrying it is exactly the input's.  Those two clauses pin the
    /// result down to one row order.
    pub fn sort_by_date(self) -> (r: OhlcvTable)
        ensures
            sorted_by_date(r@),
            r@.len() == self@.len(),
            forall|d: Seq<char>| #[trigger] rows_with_date(r@, d) == rows_with_date(self@, d),
    {
        proof {
            crate::table::lemma_table_view(&self);
        }
        let ghost orig = self@;
        let mut rest = self.rows;
        let mut out: Vec<Row> = Vec::new();
        let ghost mut done: int = 0;
        proof {
            assert(rows_view(rest@) =~= orig.subrange(0, orig.len() as int));
            assert(orig.subrange(0, 0) =~= Seq::<RowView>::empty());
            assert(rows_view(out@) =~= Seq::<RowView>::empty());
            assert forall|d: Seq<char>| #[trigger] rows_with_date(rows_view(out@), d)
                == rows_with_date(orig.subrange(0, done), d) by {
                assert(rows_view(out@) == orig.subrange(0, done));
            }
        }
        while rest.len() > 0
            invariant
                0 <= done <= orig.len(),
                rows_view(rest@) == orig.subrange(done, orig.len() as int),
                rows_view(out@).len() == done,
                out@.len() == done,
                sorted_by_date(rows_view(out@)),
                forall|d: Seq<char>| #[trigger] rows_with_date(rows_view(out@), d)
                    == rows_with_date(orig.subrange(0, done), d),
            decreases rest@.len(),
        {
            let ghost old_rest = rest@;
            let x = rest.remove(0);
            let ghost xv = x@;
            let ghost ov = rows_view(out@);
            proof {
                assert(old_rest.len() > 0);
                assert(rows_view(old_rest).len() == old_rest.len());
                assert(xv == rows_view(old_rest)[0]);
                assert(rows_view(old_rest) == orig.subrange(done, orig.len() as int));
                assert(done < orig.len());
                assert(orig.subrange(done, orig.len() as int)[0] == orig[done]);
                assert(xv == orig[done]);
                assert forall|j: int| 0 <= j < rest@.len() implies rows_view(rest@)[j]
                    == orig.subrange(done + 1, orig.len() as int)[j] by {
                    old_rest.remove_ensures(0);
                    assert(rest@[j] == old_rest[j + 1]);
                    assert(rows_view(rest@)[j] == rest@[j]@);
                    assert(rows_view(old_rest)[j + 1] == old_rest[j + 1]@);
                    assert(orig.subrange(done + 1, orig.len() as int)[j] == orig[done + 1 + j]);
                    assert(orig.subrange(done, orig.len() as int)[j + 1] == orig[done + 1 + j]);
                }
                assert(rows_view(rest@) =~= orig.subrange(done + 1, orig.len() as int));
            }
            let mut k: usize = 0;
            while k < out.len() && str_lex_le(out[k].date.as_str(), x.date.as_str())
                invariant
                    0 <= k <= out@.len(),
                    ov == rows_view(out@),
                    xv == x@,
                    forall|j: int| 0 <= j < k ==> lex_le((#[trigger] ov[j]).date, xv.date),
                decreases out@.len() - k,
            {
                proof {
                    assert(ov[k as int] == out@[k as int]@);
                }
                k = k + 1;
            }
            proof {
                assert(k == out@.len() || !lex_le(ov[k as int].date, xv.date));
                assert forall|m: int| k <= m < ov.len() implies (#[trigger] ov[m]).date != xv.date by {
                    if ov[m].date == xv.date {
                        lemma_lex_le_refl(ov[k as int].date);
                        if k < m {
                            assert(lex_le(ov[k as int].date, ov[m].date));
                        }
                        assert(lex_le(ov[k as int].date, xv.date));
                    }
                }
            }
            let ghost old_out = out@;
            out.insert(k, x);
            proof {
                old_out.insert_ensures(k as int, x);
                ov.insert_ensures(k as int, xv);
                let nv = ov.insert(k as int, xv);
                assert forall|j: int| 0 <= j < out@.len() implies rows_view(out@)[j] == nv[j] by {
                    assert(rows_view(out@)[j] == out@[j]@);
                    if j < k {
                        assert(out@[j] == old_out[j]);
                        assert(nv[j] == ov[j]);
                        assert(ov[j] == old_out[j]@);
                    } else if j == k {
                        assert(out@[j] == x);
                        assert(nv[j] == xv);
                    } else {
                        assert(out@[(j - 1) + 1] == old_out[j - 1]);
                        assert(nv[(j - 1) + 1] == ov[j - 1]);
                        assert(ov[j - 1] == old_out[j - 1]@);
                    }
                }
                assert(rows_view(out@) =~= nv);
                // the new prefix is sorted
                assert forall|p: int, q: int| 0 <= p < q < nv.len() implies lex_le(
                    #[trigger] nv[p].date,
                    #[trigger] nv[q].date,
                ) by {
                    if q < k {
                        assert(lex_le(ov[p].date, ov[q].date));
                    } else if q == k {
                        assert(lex_le(ov[p].date, xv.date));
                    } else if p < k {
                        assert(lex_le(ov[p].date, ov[q - 1].date));
                    } else if p == k {
                        lemma_lex_le_total(ov[k as int].date, xv.date);
                        assert(lex_le(xv.date, ov[k as int].date));
                        if q - 1 > k {
                            assert(lex_le(ov[k as int].date, ov[q - 1].date));
                            lemma_lex_le_trans(xv.date, ov[k as int].date, ov[q - 1].date);
                        }
                    } else {
                        assert(lex_le(ov[p - 1].date, ov[q - 1].date));
                    }
                }
                // every date's subsequence grows exactly by this row
                assert forall|d: Seq<char>| #[trigger] rows_with_date(rows_view(out@), d)
                    == rows_with_date(orig.subrange(0, done + 1), d) by {
                    lemma_rows_with_date_insert(ov, k as int, xv, d);
                    lemma_rows_with_date_singleton(xv, d);
                    assert(rows_with_date(ov, d) == rows_with_date(orig.subrange(0, done), d));
                    assert(orig.subrange(0, done + 1) =~= orig.subrange(0, done) + seq![xv]);
                    lemma_rows_with_date_concat(orig.subrange(0, done), seq![xv], d);
                }
                done = done + 1;
            }
        }
        proof {
            assert(done == orig.len());
            assert(orig.subrange(0, done) =~= orig);
        }
        let sorted = OhlcvTable { rows: out };
        proof {
            crate::table::lemma_table_view(&sorted);
        }
        sorted
    }
}

} // verus!
