//! The canonical in-memory table.
//!
//! Six named columns of equal length: `date` and the four price
//! columns as strings, `volume` as a 64-bit integer.  The table is
//! stored row-wise, so the equal-length invariant holds by
//! construction; the assembler still re-validates the lengths of the
//! column sequences it is handed and reports a `ShapeError` when they
//! disagree.

use vstd::prelude::*;

use crate::records::ShapeError;

verus! {

/// One trading day: a date, four price fields kept in their validated
/// decimal spelling, and the parsed volume.
#[derive(Debug)]
pub struct Row {
    pub date: String,
    pub open: String,
    pub high: String,
    pub low: String,
    pub close: String,
    pub volume: i64,
}

pub ghost struct RowView {
    pub date: Seq<char>,
    pub open: Seq<char>,
    pub high: Seq<char>,
    pub low: Seq<char>,
    pub close: Seq<char>,
    pub volume: int,
}

impl View for Row {
    type V = RowView;

    open spec fn view(&self) -> RowView {
        RowView {
            date: self.date@,
            open: self.open@,
            high: self.high@,
            low: self.low@,
            close: self.close@,
            volume: self.volume as int,
        }
    }
}

pub open spec fn rows_view(rows: Seq<Row>) -> Seq<RowView> {
    rows.map_values(|r: Row| r@)
}

/// Projections of a row sequence onto the six named columns.
pub open spec fn date_column(rows: Seq<RowView>) -> Seq<Seq<char>> {
    rows.map_values(|r: RowView| r.date)
}

pub open spec fn open_column(rows: Seq<RowView>) -> Seq<Seq<char>> {
    rows.map_values(|r: RowView| r.open)
}

pub open spec fn high_column(rows: Seq<RowView>) -> Seq<Seq<char>> {
    rows.map_values(|r: RowView| r.high)
}

pub open spec fn low_column(rows: Seq<RowView>) -> Seq<Seq<char>> {
    rows.map_values(|r: RowView| r.low)
}

pub open spec fn close_column(rows: Seq<RowView>) -> Seq<Seq<char>> {
    rows.map_values(|r: RowView| r.close)
}

pub open spec fn volume_column(rows: Seq<RowView>) -> Seq<int> {
    rows.map_values(|r: RowView| r.volume)
}

/// Every successfully assembled table has six columns of one common
/// length: each column projection is exactly as long as the table.
pub proof fn lemma_columns_equal_length(rows: Seq<RowView>)
    ensures
        date_column(rows).len() == rows.len(),
        open_column(rows).len() == rows.len(),
        high_column(rows).len() == rows.len(),
        low_column(rows).len() == rows.len(),
        close_column(rows).len() == rows.len(),
        volume_column(rows).len() == rows.len(),
{
}

/// The canonical table.  Its rows are only ever observable through a
/// fully assembled value.
#[derive(Debug)]
pub struct OhlcvTable {
    pub(crate) rows: Vec<Row>,
}

impl View for OhlcvTable {
    type V = Seq<RowView>;

    closed spec fn view(&self) -> Seq<RowView> {
        rows_view(self.rows@)
    }
}

/// Within the crate, a table's view is its rows' views in order.
pub(crate) proof fn lemma_table_view(t: &OhlcvTable)
    ensures
        t@ == rows_view(t.rows@),
{
}

impl OhlcvTable {
    /// Bind six parallel column sequences into a table.  Succeeds
    /// exactly when the lengths agree; then row `i` holds entry `i` of
    /// every column.  On disagreement nothing is assembled and the
    /// error reports all six lengths.
    pub fn new(
        dates: Vec<String>,
        opens: Vec<String>,
        highs: Vec<String>,
        lows: Vec<String>,
        closes: Vec<String>,
        volumes: Vec<i64>,
    ) -> (r: Result<OhlcvTable, ShapeError>)
        ensures
            r is Ok <==> dates@.len() == opens@.len() && dates@.len() == highs@.len()
                && dates@.len() == lows@.len() && dates@.len() == closes@.len() && dates@.len()
                == volumes@.len(),
            r is Ok ==> r->Ok_0@.len() == dates@.len(),
            r is Ok ==> forall|i: int|
                0 <= i < dates@.len() ==> r->Ok_0@[i] == (RowView {
                    date: dates@[i]@,
                    open: opens@[i]@,
                    high: highs@[i]@,
                    low: lows@[i]@,
                    close: closes@[i]@,
                    volume: volumes@[i] as int,
                }),
            r is Err ==> r->Err_0 == (ShapeError {
                dates_len: dates@.len() as usize,
                opens_len: opens@.len() as usize,
                highs_len: highs@.len() as usize,
                lows_len: lows@.len() as usize,
                closes_len: closes@.len() as usize,
                volumes_len: volumes@.len() as usize,
            }),
    {
        let n = dates.len();
        if opens.len() != n || highs.len() != n || lows.len() != n || closes.len() != n
            || volumes.len() != n {
            return Err(
                ShapeError {
                    dates_len: dates.len(),
                    opens_len: opens.len(),
                    highs_len: highs.len(),
                    lows_len: lows.len(),
                    closes_len: closes.len(),
                    volumes_len: volumes.len(),
                },
            );
        }
        let mut rows: Vec<Row> = Vec::new();
        let mut i: usize = 0;
        while i < n
            invariant
                0 <= i <= n,
                n == dates@.len(),
                n == opens@.len(),
                n == highs@.len(),
                n == lows@.len(),
                n == closes@.len(),
                n == volumes@.len(),
                rows@.len() == i,
                forall|j: int|
                    0 <= j < i ==> rows_view(rows@)[j] == (RowView {
                        date: dates@[j]@,
                        open: opens@[j]@,
                        high: highs@[j]@,
                        low: lows@[j]@,
                        close: closes@[j]@,
                        volume: volumes@[j] as int,
                    }),
            decreases n - i,
        {
            let ghost prev = rows@;
            rows.push(
                Row {
                    date: dates[i].clone(),
                    open: opens[i].clone(),
                    high: highs[i].clone(),
                    low: lows[i].clone(),
                    close: closes[i].clone(),
                    volume: volumes[i],
                },
            );
            proof {
                assert forall|j: int| 0 <= j < i + 1 implies rows_view(rows@)[j] == (RowView {
                    date: dates@[j]@,
                    open: opens@[j]@,
                    high: highs@[j]@,
                    low: lows@[j]@,
                    close: closes@[j]@,
                    volume: volumes@[j] as int,
                }) by {
                    if j < i {
                        assert(rows@[j] == prev[j]);
                        assert(rows_view(prev)[j] == prev[j]@);
                        assert(rows_view(rows@)[j] == rows@[j]@);
                    } else {
                        assert(rows_view(rows@)[j] == rows@[j]@);
                    }
                }
            }
            i = i + 1;
        }
        Ok(OhlcvTable { rows })
    }

    pub fn row_count(&self) -> (n: usize)
        ensures
            n == self@.len(),
    {
        self.rows.len()
    }

    pub fn get_row(&self, i: usize) -> (r: &Row)
        requires
            i < self@.len(),
        ensures
            r@ == self@[i as int],
    {
        &self.rows[i]
    }

    /// Surrender the rows, in table order.
    pub fn into_rows(self) -> (r: Vec<Row>)
        ensures
            rows_view(r@) == self@,
    {
        self.rows
    }
}

} // verus!
