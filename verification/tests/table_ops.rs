use csvr::compute::{
    compute_numeric_columns, downsample, filter_columns_by_regex, filter_rows, filter_rows_regex,
    parse_column_filter, sort_indices, total_order_key,
};
use csvr::data::{CsvData, SortDirection};
use csvr::layout::{
    compute_column_widths, row_number_col_width, MAX_COL_WIDTH_HALF_PX, MIN_COL_WIDTH_HALF_PX,
};

fn make_csv_data(headers: &[&str], rows: &[&[&str]]) -> CsvData {
    CsvData {
        headers: headers.iter().map(|s| s.to_string()).collect(),
        rows: rows
            .iter()
            .map(|row| row.iter().map(|s| s.to_string()).collect())
            .collect(),
    }
}

fn make_rc_rows(rows: &[&[&str]]) -> Vec<Vec<String>> {
    rows.iter()
        .map(|row| row.iter().map(|s| s.to_string()).collect())
        .collect()
}

/// Widths come in half pixels.
fn px(half: u32) -> f32 {
    half as f32 / 2.0
}

/// The bit pattern of each row's value in `col` as a double (negative infinity where it
/// does not parse), as the viewer hands it to a numeric sort.
fn numeric_bits(rows: &[Vec<String>], col: usize) -> Vec<u64> {
    rows.iter()
        .map(|r| {
            r.get(col)
                .and_then(|s| s.parse::<f64>().ok())
                .unwrap_or(f64::NEG_INFINITY)
                .to_bits()
        })
        .collect()
}

fn sort_numeric(rows: &[Vec<String>], indices: &[usize], col: usize, dir: SortDirection) -> Vec<usize> {
    let bits = numeric_bits(rows, col);
    sort_indices(rows, indices, col, Some(&bits), dir)
}

// --- compute_column_widths ---

#[test]
fn column_widths_basic() {
    let data = make_csv_data(&["name", "age"], &[&["Alice", "30"], &["Bob", "25"]]);
    let widths = compute_column_widths(&data);
    assert_eq!(widths.len(), 2);
    assert!((px(widths[0]) - 61.5).abs() < 0.01);
    assert!((px(widths[1]) - px(MIN_COL_WIDTH_HALF_PX)).abs() < 0.01);
}

#[test]
fn column_widths_clamp_to_max() {
    let long_value = "x".repeat(100);
    let data = make_csv_data(&["col"], &[&[&long_value]]);
    let widths = compute_column_widths(&data);
    assert!((px(widths[0]) - px(MAX_COL_WIDTH_HALF_PX)).abs() < 0.01);
}

#[test]
fn column_widths_empty_rows() {
    let data = make_csv_data(&["name", "age"], &[]);
    let widths = compute_column_widths(&data);
    assert!((px(widths[0]) - 54.0).abs() < 0.01);
}

#[test]
fn column_widths_header_longer_than_data() {
    let data = make_csv_data(&["description"], &[&["hi"]]);
    let widths = compute_column_widths(&data);
    assert!((px(widths[0]) - 106.5).abs() < 0.01);
}

#[test]
fn parse_ragged_rows() {
    // Rows with fewer or more fields than the header are accepted.
    let input = "a,b,c\n1,2\n4,5,6\n";
    let data = CsvData::from_reader(input.as_bytes()).unwrap();
    assert_eq!(data.rows.len(), 2);
    assert_eq!(data.rows[0], vec!["1", "2"]);
    assert_eq!(data.rows[1], vec!["4", "5", "6"]);
}

#[test]
fn column_widths_short_rows() {
    let data = make_csv_data(&["a", "b", "c"], &[&["x", "y"]]);
    let widths = compute_column_widths(&data);
    assert_eq!(widths.len(), 3);
    assert!((px(widths[2]) - px(MIN_COL_WIDTH_HALF_PX)).abs() < 0.01);
}

// --- row_number_col_width ---

#[test]
fn row_num_width_zero_rows() {
    let w = px(row_number_col_width(0));
    assert!((w - 40.0).abs() < 0.01);
}

#[test]
fn row_num_width_single_digit() {
    let w = px(row_number_col_width(9));
    assert!((w - 40.0).abs() < 0.01);
}

#[test]
fn row_num_width_boundary_ten() {
    let w = px(row_number_col_width(10));
    assert!((w - 40.0).abs() < 0.01);
}

#[test]
fn row_num_width_two_digits() {
    let w = px(row_number_col_width(99));
    assert!((w - 40.0).abs() < 0.01);
}

#[test]
fn row_num_width_four_digits() {
    let w = px(row_number_col_width(9999));
    assert!((w - 46.0).abs() < 0.01);
}

#[test]
fn row_num_width_large() {
    let w = px(row_number_col_width(1_000_000));
    assert!((w - 68.5).abs() < 0.01);
}

// --- filter_rows ---

#[test]
fn filter_empty_query_returns_all() {
    let rows = make_rc_rows(&[&["Alice", "30"], &["Bob", "25"]]);
    assert_eq!(filter_rows(&rows, ""), vec![0, 1]);
}

#[test]
fn filter_matches_substring() {
    let rows = make_rc_rows(&[&["Alice", "Tokyo"], &["Bob", "Osaka"], &["Carol", "Tokyo"]]);
    assert_eq!(filter_rows(&rows, "tokyo"), vec![0, 2]);
}

#[test]
fn filter_case_insensitive() {
    let rows = make_rc_rows(&[&["ALICE"], &["alice"], &["Alice"]]);
    assert_eq!(filter_rows(&rows, "alice"), vec![0, 1, 2]);
}

#[test]
fn filter_no_matches() {
    let rows = make_rc_rows(&[&["Alice"], &["Bob"]]);
    let result = filter_rows(&rows, "xyz");
    assert!(result.is_empty());
}

#[test]
fn filter_matches_any_column() {
    let rows = make_rc_rows(&[&["Alice", "30", "Tokyo"], &["Bob", "25", "Osaka"]]);
    assert_eq!(filter_rows(&rows, "25"), vec![1]);
}

#[test]
fn filter_empty_rows() {
    let rows: Vec<Vec<String>> = vec![];
    assert!(filter_rows(&rows, "test").is_empty());
}

// --- sort_indices ---

#[test]
fn sort_string_ascending() {
    let rows = make_rc_rows(&[&["Charlie"], &["Alice"], &["Bob"]]);
    let indices = vec![0, 1, 2];
    let result = sort_indices(&rows, &indices, 0, None, SortDirection::Ascending);
    assert_eq!(result, vec![1, 2, 0]);
}

#[test]
fn sort_string_descending() {
    let rows = make_rc_rows(&[&["Charlie"], &["Alice"], &["Bob"]]);
    let indices = vec![0, 1, 2];
    let result = sort_indices(&rows, &indices, 0, None, SortDirection::Descending);
    assert_eq!(result, vec![0, 2, 1]);
}

#[test]
fn sort_numeric_ascending() {
    let rows = make_rc_rows(&[&["100"], &["3"], &["25"]]);
    let indices = vec![0, 1, 2];
    let result = sort_numeric(&rows, &indices, 0, SortDirection::Ascending);
    assert_eq!(result, vec![1, 2, 0]);
}

#[test]
fn sort_numeric_descending() {
    let rows = make_rc_rows(&[&["100"], &["3"], &["25"]]);
    let indices = vec![0, 1, 2];
    let result = sort_numeric(&rows, &indices, 0, SortDirection::Descending);
    assert_eq!(result, vec![0, 2, 1]);
}

#[test]
fn sort_respects_filtered_indices() {
    let rows = make_rc_rows(&[&["C"], &["A"], &["B"], &["D"]]);
    let indices = vec![0, 2, 3];
    let result = sort_indices(&rows, &indices, 0, None, SortDirection::Ascending);
    assert_eq!(result, vec![2, 0, 3]);
}

#[test]
fn sort_mixed_numeric_and_string_uses_string_comparison() {
    let rows = make_rc_rows(&[&["banana"], &["10"], &["apple"]]);
    let indices = vec![0, 1, 2];
    let result = sort_indices(&rows, &indices, 0, None, SortDirection::Ascending);
    assert_eq!(result, vec![1, 2, 0]);
}

#[test]
fn sort_empty_indices() {
    let rows = make_rc_rows(&[&["A"]]);
    let result = sort_indices(&rows, &[], 0, None, SortDirection::Ascending);
    assert!(result.is_empty());
}

#[test]
fn sort_with_missing_column() {
    let rows = make_rc_rows(&[&["A", "1"], &["B"]]);
    let indices = vec![0, 1];
    let result = sort_numeric(&rows, &indices, 1, SortDirection::Ascending);
    assert_eq!(result, vec![1, 0]);
}

#[test]
fn sort_numeric_with_nan() {
    let rows = make_rc_rows(&[&["NaN"], &["0"], &["1"]]);
    let indices = vec![0, 1, 2];
    let result = sort_numeric(&rows, &indices, 0, SortDirection::Ascending);
    assert_eq!(result, vec![1, 2, 0]);
}

#[test]
fn sort_numeric_with_nan_descending() {
    let rows = make_rc_rows(&[&["NaN"], &["0"], &["1"]]);
    let indices = vec![0, 1, 2];
    let result = sort_numeric(&rows, &indices, 0, SortDirection::Descending);
    assert_eq!(result, vec![0, 2, 1]);
}

// --- compute_numeric_columns ---

#[test]
fn numeric_columns_detection() {
    let data = make_csv_data(
        &["name", "age", "score"],
        &[&["Alice", "30", "95.5"], &["Bob", "25", "87.0"]],
    );
    let result = compute_numeric_columns(&data.rows, data.headers.len());
    assert_eq!(result, vec![false, true, true]);
}

#[test]
fn numeric_columns_with_empty_values() {
    let data = make_csv_data(&["val"], &[&["1"], &[""], &["3"]]);
    let result = compute_numeric_columns(&data.rows, data.headers.len());
    assert_eq!(result, vec![true]);
}

#[test]
fn numeric_columns_majority_numeric() {
    // 2/3 numeric → treated as numeric
    let data = make_csv_data(&["col"], &[&["1"], &["abc"], &["3"]]);
    let result = compute_numeric_columns(&data.rows, data.headers.len());
    assert_eq!(result, vec![true]);
}

#[test]
fn numeric_columns_majority_text() {
    // 1/3 numeric → not numeric
    let data = make_csv_data(&["col"], &[&["abc"], &["def"], &["3"]]);
    let result = compute_numeric_columns(&data.rows, data.headers.len());
    assert_eq!(result, vec![false]);
}

// --- downsample ---

#[test]
fn downsample_no_reduction_needed() {
    let values: Vec<(usize, f64)> = vec![(0, 1.0), (1, 2.0), (2, 3.0)];
    let result = downsample(&values, 5);
    assert_eq!(result, values);
}

#[test]
fn downsample_reduces_to_max() {
    let values: Vec<(usize, f64)> = (0..100).map(|i| (i, i as f64)).collect();
    let result = downsample(&values, 10);
    assert_eq!(result.len(), 10);
    assert_eq!(result[0], (0, 0.0));
    assert_eq!(*result.last().unwrap(), (99, 99.0));
}

#[test]
fn downsample_includes_last_element() {
    let values: Vec<(usize, f64)> = (0..101).map(|i| (i, i as f64)).collect();
    let result = downsample(&values, 100);
    assert_eq!(result.len(), 100);
    assert_eq!(result[0], (0, 0.0));
    assert_eq!(*result.last().unwrap(), (100, 100.0));
}

#[test]
fn downsample_empty() {
    let result = downsample(&[] as &[(usize, f64)], 10);
    assert!(result.is_empty());
}

#[test]
fn downsample_max_zero_returns_empty() {
    let values: Vec<(usize, f64)> = vec![(0, 1.0), (1, 2.0)];
    let result = downsample(&values, 0);
    assert!(result.is_empty());
}

#[test]
fn downsample_max_one_returns_first() {
    let values: Vec<(usize, f64)> = vec![(0, 1.0), (1, 2.0), (2, 3.0)];
    let result = downsample(&values, 1);
    assert_eq!(result, vec![(0, 1.0)]);
}

#[test]
fn downsample_pairs_no_reduction() {
    let pairs = vec![(1.0, 2.0), (3.0, 4.0)];
    let result = downsample(&pairs, 5);
    assert_eq!(result, pairs);
}

#[test]
fn downsample_pairs_includes_last() {
    let pairs: Vec<(f64, f64)> = (0..101).map(|i| (i as f64, i as f64 * 2.0)).collect();
    let result = downsample(&pairs, 50);
    assert_eq!(result.len(), 50);
    assert_eq!(result[0], (0.0, 0.0));
    assert_eq!(*result.last().unwrap(), (100.0, 200.0));
}

#[test]
fn downsample_pairs_max_zero() {
    let pairs = vec![(1.0, 2.0)];
    let result = downsample(&pairs, 0);
    assert!(result.is_empty());
}

#[test]
fn downsample_pairs_max_one() {
    let pairs = vec![(1.0, 2.0), (3.0, 4.0), (5.0, 6.0)];
    let result = downsample(&pairs, 1);
    assert_eq!(result, vec![(1.0, 2.0)]);
}

#[test]
fn downsample_max_two_returns_first_and_last() {
    let values: Vec<(usize, f64)> = (0..10).map(|i| (i, i as f64)).collect();
    let result = downsample(&values, 2);
    assert_eq!(result, vec![(0, 0.0), (9, 9.0)]);
}

// --- filter_columns_by_regex ---

#[test]
fn filter_columns_by_regex_empty_pattern() {
    let headers = vec!["Name".into(), "Age".into(), "City".into()];
    let result = filter_columns_by_regex(&headers, "").unwrap();
    assert_eq!(result, vec![0, 1, 2]);
}

#[test]
fn filter_columns_by_regex_partial_match() {
    let headers = vec!["Name".into(), "Age".into(), "City".into()];
    let result = filter_columns_by_regex(&headers, "a").unwrap();
    assert_eq!(result, vec![0, 1]); // Name, Age
}

#[test]
fn filter_columns_by_regex_case_insensitive() {
    let headers = vec!["Name".into(), "age".into(), "CITY".into()];
    let result = filter_columns_by_regex(&headers, "AGE|city").unwrap();
    assert_eq!(result, vec![1, 2]);
}

#[test]
fn filter_columns_by_regex_no_match() {
    let headers = vec!["Name".into(), "Age".into()];
    let result = filter_columns_by_regex(&headers, "zzz").unwrap();
    assert!(result.is_empty());
}

#[test]
fn filter_columns_by_regex_invalid_pattern() {
    let headers = vec!["Name".into()];
    assert!(filter_columns_by_regex(&headers, "[invalid").is_err());
}

// --- parse_column_filter ---

#[test]
fn parse_column_filter_global() {
    let headers = vec!["Name".into(), "City".into()];
    let (col, pattern) = parse_column_filter("tokyo", &headers);
    assert_eq!(col, None);
    assert_eq!(pattern, "tokyo");
}

#[test]
fn parse_column_filter_with_col() {
    let headers = vec!["Name".into(), "City".into()];
    let (col, pattern) = parse_column_filter("city:tokyo", &headers);
    assert_eq!(col, Some(1));
    assert_eq!(pattern, "tokyo");
}

#[test]
fn parse_column_filter_unknown_col() {
    let headers = vec!["Name".into(), "City".into()];
    let (col, pattern) = parse_column_filter("unknown:x", &headers);
    assert_eq!(col, None);
    assert_eq!(pattern, "unknown:x");
}

// --- filter_rows_regex ---

#[test]
fn filter_rows_regex_basic() {
    let rows = make_rc_rows(&[&["Tokyo"], &["Osaka"], &["Kyoto"]]);
    let indices = vec![0, 1, 2];
    let result = filter_rows_regex(&rows, &indices, "to", None).unwrap();
    assert_eq!(result, vec![0, 2]); // Tokyo, Kyoto
}

#[test]
fn filter_rows_regex_column_specific() {
    let rows = make_rc_rows(&[&["Alice", "Tokyo"], &["Bob", "Osaka"], &["Carol", "Tokyo"]]);
    let indices = vec![0, 1, 2];
    let result = filter_rows_regex(&rows, &indices, "tokyo", Some(1)).unwrap();
    assert_eq!(result, vec![0, 2]);
}

#[test]
fn filter_rows_regex_empty_pattern() {
    let rows = make_rc_rows(&[&["a"], &["b"]]);
    let indices = vec![0, 1];
    let result = filter_rows_regex(&rows, &indices, "", None).unwrap();
    assert_eq!(result, vec![0, 1]);
}

#[test]
fn filter_rows_regex_invalid_pattern() {
    let rows = make_rc_rows(&[&["a"]]);
    assert!(filter_rows_regex(&rows, &[0], "[bad", None).is_err());
}

#[test]
fn filter_rows_regex_respects_indices() {
    let rows = make_rc_rows(&[&["Tokyo"], &["Osaka"], &["Kyoto"]]);
    let indices = vec![0, 1]; // only Tokyo, Osaka
    let result = filter_rows_regex(&rows, &indices, "to", None).unwrap();
    assert_eq!(result, vec![0]); // only Tokyo
}

#[test]
fn filter_rows_regex_out_of_range_col() {
    // target_col=Some(99) is beyond any row's columns — should match nothing
    let rows = make_rc_rows(&[&["Tokyo"], &["Osaka"]]);
    let indices = vec![0, 1];
    let result = filter_rows_regex(&rows, &indices, "Tokyo", Some(99)).unwrap();
    assert_eq!(result, Vec::<usize>::new());
}

// --- total_order_key ---

#[test]
fn total_order_key_orders_like_total_cmp() {
    let values = [f64::NEG_INFINITY, -2.5, -0.0, 0.0, 1.0, f64::INFINITY, f64::NAN];
    for w in values.windows(2) {
        assert!(total_order_key(w[0].to_bits()) < total_order_key(w[1].to_bits()));
    }
}

#[test]
fn typing_more_never_brings_rows_back() {
    let data = make_csv_data(
        &["name", "city"],
        &[&["Alice", "Tokyo"], &["Bob", "Toronto"], &["Carol", "Osaka"], &["Dan", "TOKYO"]],
    );
    let wider = filter_rows(&data.rows, "to");
    let narrower = filter_rows(&data.rows, "tok");
    assert_eq!(wider, vec![0, 1, 3]);
    assert_eq!(narrower, vec![0, 3]);
    assert!(narrower.iter().all(|i| wider.contains(i)));
}

#[test]
fn emptying_the_search_lists_every_row_again() {
    let data = make_csv_data(&["name"], &[&["Alice"], &["Bob"]]);
    assert_eq!(filter_rows(&data.rows, ""), vec![0, 1]);
    assert_eq!(filter_rows(&data.rows, "ali"), vec![0]);
}
