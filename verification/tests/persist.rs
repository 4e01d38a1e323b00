use std::io::Cursor;

use polars::prelude::{Column, DataFrame, DataType, ParquetReader, ParquetWriter, SerReader};

use ohlcv_pipeline::normalize::table_from_response;
use ohlcv_pipeline::records::{AlphaVantageResponse, DailyData};
use ohlcv_pipeline::table::OhlcvTable;

fn entry(date: &str, open: &str, high: &str, low: &str, close: &str, volume: &str) -> (
    String,
    DailyData,
) {
    (
        date.to_string(),
        DailyData {
            open: open.to_string(),
            high: high.to_string(),
            low: low.to_string(),
            close: close.to_string(),
            volume: volume.to_string(),
        },
    )
}

/// The application-side columnar encoding: the validated price
/// strings become 64-bit floats, then the six columns go to parquet.
fn df_from_table(table: &OhlcvTable) -> DataFrame {
    let mut dates: Vec<String> = Vec::new();
    let mut opens: Vec<f64> = Vec::new();
    let mut highs: Vec<f64> = Vec::new();
    let mut lows: Vec<f64> = Vec::new();
    let mut closes: Vec<f64> = Vec::new();
    let mut volumes: Vec<i64> = Vec::new();
    for i in 0..table.row_count() {
        let row = table.get_row(i);
        dates.push(row.date.clone());
        opens.push(row.open.parse().unwrap());
        highs.push(row.high.parse().unwrap());
        lows.push(row.low.parse().unwrap());
        closes.push(row.close.parse().unwrap());
        volumes.push(row.volume);
    }
    let height = dates.len();
    DataFrame::new(
        height,
        vec![
            Column::new("date".into(), dates),
            Column::new("open".into(), opens),
            Column::new("high".into(), highs),
            Column::new("low".into(), lows),
            Column::new("close".into(), closes),
            Column::new("volume".into(), volumes),
        ],
    )
    .unwrap()
}

fn parquet_round_trip(table: &OhlcvTable) -> DataFrame {
    let mut df = df_from_table(table);
    let mut buf: Vec<u8> = Vec::new();
    ParquetWriter::new(&mut buf).finish(&mut df).unwrap();
    ParquetReader::new(Cursor::new(buf)).finish().unwrap()
}

fn assert_expected_schema(df: &DataFrame) {
    let names: Vec<&str> = df.get_column_names().iter().map(|n| n.as_str()).collect();
    assert_eq!(names, vec!["date", "open", "high", "low", "close", "volume"]);
    assert_eq!(
        df.dtypes(),
        vec![
            DataType::String,
            DataType::Float64,
            DataType::Float64,
            DataType::Float64,
            DataType::Float64,
            DataType::Int64,
        ]
    );
}

#[test]
fn persisted_schema_and_values_survive_round_trip() {
    let resp = AlphaVantageResponse {
        time_series: vec![entry("2024-01-02", "150.0", "152.5", "149.0", "151.25", "1000000")],
    };
    let sorted = table_from_response(resp).unwrap().sort_by_date();
    let back = parquet_round_trip(&sorted);
    assert_expected_schema(&back);
    assert_eq!(back.height(), 1);
    let date = back.column("date").unwrap().as_materialized_series().str().unwrap().get(0);
    assert_eq!(date, Some("2024-01-02"));
    let open = back.column("open").unwrap().as_materialized_series().f64().unwrap().get(0);
    assert_eq!(open, Some(150.0));
    let high = back.column("high").unwrap().as_materialized_series().f64().unwrap().get(0);
    assert_eq!(high, Some(152.5));
    let low = back.column("low").unwrap().as_materialized_series().f64().unwrap().get(0);
    assert_eq!(low, Some(149.0));
    let close = back.column("close").unwrap().as_materialized_series().f64().unwrap().get(0);
    assert_eq!(close, Some(151.25));
    let volume = back.column("volume").unwrap().as_materialized_series().i64().unwrap().get(0);
    assert_eq!(volume, Some(1_000_000));
}

#[test]
fn mocked_response_persists_in_chronological_order() {
    let resp = AlphaVantageResponse {
        time_series: vec![
            entry("2024-01-03", "10.0", "11.0", "9.5", "10.5", "500"),
            entry("2024-01-02", "9.0", "9.8", "8.9", "9.5", "400"),
        ],
    };
    let sorted = table_from_response(resp).unwrap().sort_by_date();
    let back = parquet_round_trip(&sorted);
    assert_expected_schema(&back);
    assert_eq!(back.height(), 2);
    let dates = back.column("date").unwrap().as_materialized_series().str().unwrap();
    assert_eq!(dates.get(0), Some("2024-01-02"));
    assert_eq!(dates.get(1), Some("2024-01-03"));
    let closes = back.column("close").unwrap().as_materialized_series().f64().unwrap();
    assert_eq!(closes.get(0), Some(9.5));
    assert_eq!(closes.get(1), Some(10.5));
}

#[test]
fn empty_response_persists_zero_rows_with_schema() {
    let resp = AlphaVantageResponse { time_series: Vec::new() };
    let sorted = table_from_response(resp).unwrap().sort_by_date();
    let back = parquet_round_trip(&sorted);
    assert_expected_schema(&back);
    assert_eq!(back.height(), 0);
}
