use csvr::compute::compute_numeric_columns;
use csvr::data::{ChartType, CsvData, SortDirection};
use csvr::view::{count_label, display_headers, pin_count, ChartPlan, Scroll, TableView};

fn view_of(headers: &[&str], rows: &[&[&str]]) -> TableView {
    let data = CsvData {
        headers: headers.iter().map(|s| s.to_string()).collect(),
        rows: rows
            .iter()
            .map(|row| row.iter().map(|s| s.to_string()).collect())
            .collect(),
    };
    let numeric = compute_numeric_columns(&data.rows, data.headers.len());
    let bits: Vec<Vec<u64>> = (0..data.headers.len())
        .map(|c| {
            if numeric[c] {
                data.rows
                    .iter()
                    .map(|r| {
                        r.get(c)
                            .and_then(|s| s.parse::<f64>().ok())
                            .unwrap_or(f64::NEG_INFINITY)
                            .to_bits()
                    })
                    .collect()
            } else {
                Vec::new()
            }
        })
        .collect();
    TableView::new(data, bits)
}

fn cities() -> TableView {
    view_of(
        &["name", "age", "city"],
        &[
            &["Alice", "30", "Tokyo"],
            &["Bob", "25", "Osaka"],
            &["Carol", "35", "Tokyo"],
        ],
    )
}

#[test]
fn new_view_lists_everything() {
    let v = cities();
    assert_eq!(v.filtered_indices, vec![0, 1, 2]);
    assert_eq!(v.visible_col_indices, vec![0, 1, 2]);
    assert_eq!(v.chart.col, 1);
    assert_eq!(v.chart.x_col, 1);
    assert_eq!(v.chart.chart_type, ChartType::Bar);
    assert!(v.selected_cell.is_none());
    assert_eq!(v.table.display_headers, vec!["NAME", "AGE", "CITY"]);
    assert_eq!(v.table.numeric_columns, vec![false, true, false]);
    assert_eq!(v.table.numeric_bits[1], vec![30f64.to_bits(), 25f64.to_bits(), 35f64.to_bits()]);
}

#[test]
fn sorting_a_column_past_the_last_sorts_by_empty_text() {
    let mut v = cities();
    v.toggle_sort(7);
    assert_eq!(v.sort_state, Some((7, SortDirection::Ascending)));
    assert_eq!(v.filtered_indices, vec![0, 1, 2]);
    v.toggle_sort(7);
    v.toggle_sort(7);
    assert_eq!(v.sort_state, None);
}

#[test]
fn header_clicks_cycle_ascending_descending_off() {
    let mut v = cities();
    let r = v.toggle_sort(1);
    assert_eq!(r.scroll, Scroll::Top);
    assert_eq!(v.sort_state, Some((1, SortDirection::Ascending)));
    assert_eq!(v.filtered_indices, vec![1, 0, 2]);
    v.toggle_sort(1);
    assert_eq!(v.sort_state, Some((1, SortDirection::Descending)));
    assert_eq!(v.filtered_indices, vec![2, 0, 1]);
    v.toggle_sort(1);
    assert_eq!(v.sort_state, None);
    assert_eq!(v.filtered_indices, vec![0, 1, 2]);
}

#[test]
fn sort_is_stable_for_equal_cells() {
    let mut v = cities();
    v.toggle_sort(2);
    assert_eq!(v.filtered_indices, vec![1, 0, 2]);
}

#[test]
fn search_then_clear() {
    let mut v = cities();
    v.set_search_query("tokyo".to_string());
    assert_eq!(v.filtered_indices, vec![0, 2]);
    v.set_search_query(String::new());
    assert_eq!(v.filtered_indices, vec![0, 1, 2]);
}

#[test]
fn row_filter_with_column_prefix() {
    let mut v = cities();
    v.set_row_filter_query("CITY:osa".to_string());
    assert_eq!(v.row_filter.col, Some(2));
    assert_eq!(v.row_filter.pattern, "osa");
    assert_eq!(v.filtered_indices, vec![1]);
    assert!(!v.row_filter.error);
}

#[test]
fn invalid_row_filter_keeps_search_result() {
    let mut v = cities();
    v.set_search_query("tokyo".to_string());
    v.set_row_filter_query("[bad".to_string());
    assert!(v.row_filter.error);
    assert_eq!(v.filtered_indices, vec![0, 2]);
}

#[test]
fn column_filter_and_invalid_pattern() {
    let mut v = cities();
    v.set_col_filter_query("^(name|city)$".to_string());
    assert_eq!(v.visible_col_indices, vec![0, 2]);
    assert!(!v.col_filter.error);
    let r = v.set_col_filter_query("(".to_string());
    assert!(v.col_filter.error);
    assert_eq!(v.visible_col_indices, vec![0, 1, 2]);
    assert!(!r.stats);
}

#[test]
fn pin_input_is_clamped_to_visible_columns() {
    let mut v = cities();
    v.toggle_pin_input();
    v.handle_key("9", Some("9"), false, false);
    v.handle_key("x", Some("x"), false, false);
    assert_eq!(v.pin_input.query, "9");
    v.handle_key("enter", None, false, false);
    assert_eq!(v.pinned_col_count, 3);
    assert!(!v.pin_input.active);
    assert_eq!(pin_count("99999999999999999999999", 4), 4);
    assert_eq!(pin_count("", 4), 0);
    assert_eq!(pin_count("2", 4), 2);
}

#[test]
fn arrow_keys_move_the_selection() {
    let mut v = cities();
    let r = v.handle_key("down", None, false, false);
    assert_eq!(v.selected_cell, Some((0, Some(0))));
    assert_eq!(r.scroll, Scroll::Reveal(0));
    v.handle_key("right", None, false, false);
    v.handle_key("right", None, false, false);
    v.handle_key("right", None, false, false);
    assert_eq!(v.selected_cell, Some((0, Some(2))));
    v.handle_key("down", None, false, false);
    v.handle_key("down", None, false, false);
    v.handle_key("down", None, false, false);
    assert_eq!(v.selected_cell, Some((2, Some(2))));
    assert_eq!(v.selection_text(), Some("Tokyo".to_string()));
    v.handle_key("left", None, false, false);
    assert_eq!(v.stats_column(), Some(1));
    v.handle_key("up", None, true, false);
    assert_eq!(v.selected_cell, Some((2, Some(1))));
}

#[test]
fn whole_row_copies_visible_cells_with_tabs() {
    let mut v = cities();
    v.select_cell(1, None);
    assert_eq!(v.selection_text(), Some("Bob\t25\tOsaka".to_string()));
    v.set_col_filter_query("a".to_string());
    assert_eq!(v.visible_col_indices, vec![0, 1]);
    v.select_cell(10, None);
    assert_eq!(v.selected_cell, Some((2, None)));
    assert_eq!(v.selection_text(), Some("Carol\t35".to_string()));
}

#[test]
fn typing_in_the_search_bar() {
    let mut v = cities();
    v.handle_key("/", Some("/"), false, false);
    assert!(v.search.active);
    v.handle_key("b", Some("b"), false, false);
    v.handle_key("o", Some("o"), false, false);
    assert_eq!(v.filtered_indices, vec![1]);
    v.handle_key("backspace", None, false, false);
    assert_eq!(v.search.query, "b");
    assert_eq!(v.filtered_indices, vec![1]);
    v.handle_key("enter", None, false, false);
    assert!(!v.search.active);
    assert_eq!(v.search.query, "b");
}

#[test]
fn escape_closes_bars_then_clears_selection() {
    let mut v = cities();
    v.select_cell(0, Some(0));
    v.toggle_row_filter();
    v.dismiss();
    assert!(!v.row_filter.active);
    assert!(v.selected_cell.is_some());
    let r = v.dismiss();
    assert!(v.selected_cell.is_none());
    assert!(r.stats);
}

#[test]
fn search_shortcut_respects_other_bars() {
    let mut v = cities();
    v.toggle_col_filter();
    v.search_shortcut();
    assert!(!v.search.active);
    v.close_col_filter();
    v.search_shortcut();
    assert!(v.search.active);
}

#[test]
fn chart_plan_follows_chart_kind() {
    let mut v = cities();
    assert_eq!(v.chart_plan(), None);
    v.toggle_chart();
    assert_eq!(v.chart_plan(), Some(ChartPlan::Points { col: 1, max: 100 }));
    v.set_chart_type(ChartType::Scatter);
    assert_eq!(v.chart_plan(), Some(ChartPlan::Pairs { x_col: 1, y_col: 1, max: 500 }));
    v.set_chart_type(ChartType::Histogram);
    assert_eq!(v.chart_plan(), Some(ChartPlan::Bins { col: 1, bins: 30 }));
    v.set_chart_col(0);
    assert_eq!(v.chart.col, 1);
    v.cycle_chart_col();
    assert_eq!(v.chart.col, 1);
    assert_eq!(v.numeric_col_indices(), vec![1]);
}

#[test]
fn display_headers_are_uppercase() {
    let headers = vec!["name".to_string(), "Straße".to_string(), String::new()];
    assert_eq!(display_headers(&headers), vec!["NAME", "STRASSE", ""]);
}

#[test]
fn count_labels() {
    assert_eq!(count_label(0, 12, "rows"), "0 / 12 rows");
    assert_eq!(count_label(1234567, 10, "cols"), "1234567 / 10 cols");
}

#[test]
fn status_line_parts() {
    let mut v = cities();
    assert_eq!(v.status_text(), "3 / 3 rows");
    v.set_search_query("tokyo".to_string());
    assert_eq!(v.status_text(), "2 / 3 rows");
    v.visible_col_indices = vec![0, 2];
    assert_eq!(v.status_text(), "2 / 3 rows  2 / 3 cols");
    v.pinned_col_count = 5;
    assert_eq!(v.status_text(), "2 / 3 rows  2 / 3 cols  f2");
    v.visible_col_indices = vec![0, 1, 2];
    v.pinned_col_count = 1;
    assert_eq!(v.status_text(), "2 / 3 rows  f1");
}
