use ohlcv_pipeline::log_error;
use ohlcv_pipeline::normalize::{normalize_series, table_from_response};
use ohlcv_pipeline::records::{AlphaVantageResponse, DailyData, FieldName};
use ohlcv_pipeline::table::OhlcvTable;

fn data(open: &str, high: &str, low: &str, close: &str, volume: &str) -> DailyData {
    DailyData {
        open: open.to_string(),
        high: high.to_string(),
        low: low.to_string(),
        close: close.to_string(),
        volume: volume.to_string(),
    }
}

fn entry(date: &str, open: &str, high: &str, low: &str, close: &str, volume: &str) -> (
    String,
    DailyData,
) {
    (date.to_string(), data(open, high, low, close, volume))
}

fn dates_of(table: &OhlcvTable) -> Vec<String> {
    let mut dates = Vec::new();
    for i in 0..table.row_count() {
        dates.push(table.get_row(i).date.clone());
    }
    dates
}

#[test]
fn normalize_emits_columns_verbatim() {
    let series = vec![
        entry("2024-01-03", "10.0", "11.0", "9.5", "10.5", "500"),
        entry("2024-01-02", "9.0", "9.8", "8.9", "9.5", "400"),
    ];
    let cols = normalize_series(&series).unwrap();
    assert_eq!(cols.dates, vec!["2024-01-03".to_string(), "2024-01-02".to_string()]);
    assert_eq!(cols.opens, vec!["10.0".to_string(), "9.0".to_string()]);
    assert_eq!(cols.highs, vec!["11.0".to_string(), "9.8".to_string()]);
    assert_eq!(cols.lows, vec!["9.5".to_string(), "8.9".to_string()]);
    assert_eq!(cols.closes, vec!["10.5".to_string(), "9.5".to_string()]);
    assert_eq!(cols.volumes, vec![500, 400]);
}

#[test]
fn normalize_fails_fast_naming_date_and_field() {
    let series = vec![
        entry("2024-01-02", "9.0", "9.8", "8.9", "9.5", "400"),
        entry("2024-01-03", "10.0", "11.0", "9.5", "10.5", "500"),
        entry("2024-01-04", "10.5", "11.2", "not-a-number", "11.0", "600"),
        entry("2024-01-05", "11.0", "bad-too", "10.5", "11.1", "700"),
    ];
    let err = normalize_series(&series).unwrap_err();
    assert_eq!(err.date, "2024-01-04");
    assert_eq!(err.field, FieldName::Low);
}

#[test]
fn normalize_reports_first_field_within_record() {
    let series = vec![entry("2024-01-02", "9.0", "x", "y", "9.5", "z")];
    let err = normalize_series(&series).unwrap_err();
    assert_eq!(err.date, "2024-01-02");
    assert_eq!(err.field, FieldName::High);
}

#[test]
fn normalize_rejects_bad_volume() {
    let series = vec![entry("2024-01-02", "9.0", "9.8", "8.9", "9.5", "4.5")];
    let err = normalize_series(&series).unwrap_err();
    assert_eq!(err.field, FieldName::Volume);
}

#[test]
fn assemble_rejects_mismatched_lengths() {
    let err = OhlcvTable::new(
        vec!["2024-01-02".to_string()],
        vec!["9.0".to_string(), "9.5".to_string()],
        vec!["9.8".to_string()],
        vec!["8.9".to_string()],
        vec!["9.5".to_string()],
        vec![400],
    )
    .unwrap_err();
    assert_eq!(err.dates_len, 1);
    assert_eq!(err.opens_len, 2);
}

#[test]
fn assemble_binds_equal_length_columns() {
    let table = OhlcvTable::new(
        vec!["2024-01-02".to_string(), "2024-01-03".to_string()],
        vec!["9.0".to_string(), "10.0".to_string()],
        vec!["9.8".to_string(), "11.0".to_string()],
        vec!["8.9".to_string(), "9.5".to_string()],
        vec!["9.5".to_string(), "10.5".to_string()],
        vec![400, 500],
    )
    .unwrap();
    assert_eq!(table.row_count(), 2);
    let row = table.get_row(1);
    assert_eq!(row.date, "2024-01-03");
    assert_eq!(row.open, "10.0");
    assert_eq!(row.volume, 500);
}

#[test]
fn empty_series_gives_zero_row_table() {
    let resp = AlphaVantageResponse { time_series: Vec::new() };
    let table = table_from_response(resp).unwrap();
    assert_eq!(table.row_count(), 0);
}

#[test]
fn sort_orders_dates_ascending() {
    let resp = AlphaVantageResponse {
        time_series: vec![
            entry("2024-01-05", "1.0", "1.0", "1.0", "1.0", "5"),
            entry("2024-01-02", "1.0", "1.0", "1.0", "1.0", "2"),
            entry("2024-01-04", "1.0", "1.0", "1.0", "1.0", "4"),
            entry("2024-01-03", "1.0", "1.0", "1.0", "1.0", "3"),
        ],
    };
    let sorted = table_from_response(resp).unwrap().sort_by_date();
    assert_eq!(
        dates_of(&sorted),
        vec!["2024-01-02", "2024-01-03", "2024-01-04", "2024-01-05"]
    );
    let volumes: Vec<i64> = (0..sorted.row_count()).map(|i| sorted.get_row(i).volume).collect();
    assert_eq!(volumes, vec![2, 3, 4, 5]);
}

#[test]
fn sort_is_idempotent() {
    let resp = AlphaVantageResponse {
        time_series: vec![
            entry("2024-01-03", "1.0", "1.0", "1.0", "1.0", "3"),
            entry("2024-01-02", "1.0", "1.0", "1.0", "1.0", "2"),
            entry("2024-01-02", "1.5", "1.5", "1.5", "1.5", "9"),
        ],
    };
    let once = table_from_response(resp).unwrap().sort_by_date();
    let first: Vec<(String, i64)> =
        (0..once.row_count()).map(|i| (once.get_row(i).date.clone(), once.get_row(i).volume)).collect();
    let twice = once.sort_by_date();
    let second: Vec<(String, i64)> =
        (0..twice.row_count()).map(|i| (twice.get_row(i).date.clone(), twice.get_row(i).volume)).collect();
    assert_eq!(first, second);
}

#[test]
fn sort_is_stable_for_duplicate_dates() {
    let resp = AlphaVantageResponse {
        time_series: vec![
            entry("2024-01-09", "1.0", "1.0", "1.0", "1.0", "90"),
            entry("2024-01-05", "1.0", "1.0", "1.0", "1.0", "51"),
            entry("2024-01-01", "1.0", "1.0", "1.0", "1.0", "10"),
            entry("2024-01-05", "1.0", "1.0", "1.0", "1.0", "52"),
            entry("2024-01-05", "1.0", "1.0", "1.0", "1.0", "53"),
        ],
    };
    let sorted = table_from_response(resp).unwrap().sort_by_date();
    let rows: Vec<(String, i64)> =
        (0..sorted.row_count()).map(|i| (sorted.get_row(i).date.clone(), sorted.get_row(i).volume)).collect();
    assert_eq!(
        rows,
        vec![
            ("2024-01-01".to_string(), 10),
            ("2024-01-05".to_string(), 51),
            ("2024-01-05".to_string(), 52),
            ("2024-01-05".to_string(), 53),
            ("2024-01-09".to_string(), 90),
        ]
    );
}

#[test]
fn log_error_prefixes_message() {
    assert_eq!(log_error("connection refused"), "Error: connection refused");
    assert_eq!(log_error(""), "Error: ");
}
