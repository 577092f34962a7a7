//! The viewer's table state and how each user action changes it.
//!
//! Everything the window shows is derived from this state: which rows are listed and in
//! which order, which columns are visible and pinned, which cell is selected, and the
//! chart settings. Work that needs floating point (chart data, column statistics) or the
//! window itself is left to the caller, which each action tells what to refresh.
use vstd::prelude::*;

use crate::compute::{
    all_positions, column_filter_result, compute_numeric_columns, column_filter_spec, filter_columns_by_regex, filter_rows,
    filter_rows_regex, is_numeric_column, parse_column_filter, row_filter_result, search_result,
    sort_indices, sorted_by_column, lemma_filter_bounded, cell_or_empty, cell_str, lemma_sorted_entries, row_has_text,
    row_passes,
};
use crate::text::{lowercase, to_uppercase, uppercase};
use crate::data::{ChartType, CsvData, SortDirection};
use crate::export::{join, lemma_join_push};
use crate::text::{chars_of, pop_char, push_char, same_text};
use crate::pattern::{compile, pattern_compiles};

verus! {

/// The loaded table and what is known of its columns.
pub struct Table {
    pub headers: Vec<String>,
    pub rows: Vec<Vec<String>>,
    /// Whether each column is numeric (see `is_numeric_column`).
    pub numeric_columns: Vec<bool>,
    /// For each numeric column, the bit pattern of each row's value as a double
    /// (negative infinity where it does not parse); other columns' entries are not used.
    pub numeric_bits: Vec<Vec<u64>>,
    /// The headers as the table shows them: in uppercase.
    pub display_headers: Vec<String>,
}

/// A text input bar (the incremental search).
pub struct SearchInput {
    pub active: bool,
    pub query: String,
}

/// The column filter bar (`*`): a pattern choosing the visible columns.
pub struct ColumnFilter {
    pub active: bool,
    pub query: String,
    pub error: bool,
}

/// The pin input bar (`f`): digits giving the number of columns to freeze.
pub struct PinInput {
    pub active: bool,
    pub query: String,
}

/// The row filter bar (`&`): a pattern, optionally prefixed by `column:`.
pub struct RowFilter {
    pub active: bool,
    pub query: String,
    pub col: Option<usize>,
    pub pattern: String,
    pub error: bool,
}

/// The chart panel settings.
pub struct ChartSettings {
    pub active: bool,
    pub chart_type: ChartType,
    pub col: usize,
    pub x_col: usize,
}

/// How the list should scroll after an action.
#[derive(Clone, Copy, PartialEq, Eq, Debug)]
pub enum Scroll {
    Keep,
    /// Back to the first row.
    Top,
    /// Bring this listed row into view.
    Reveal(usize),
}

/// What the caller must recompute after an action.
#[derive(Clone, Copy, PartialEq, Eq, Debug)]
pub struct Refresh {
    /// The chart data (needed only while the chart panel is open).
    pub chart: bool,
    /// The statistics of the selected column.
    pub stats: bool,
    pub scroll: Scroll,
}

pub open spec fn nothing_to_refresh() -> Refresh {
    Refresh { chart: false, stats: false, scroll: Scroll::Keep }
}

fn no_refresh() -> (res: Refresh)
    ensures
        res == nothing_to_refresh(),
{
    Refresh { chart: false, stats: false, scroll: Scroll::Keep }
}

/// The headers as shown: each in uppercase.
pub open spec fn uppercase_all(headers: Seq<Seq<char>>) -> Seq<Seq<char>> {
    headers.map_values(|h: Seq<char>| uppercase(h))
}

/// The headers as the table shows them: each in uppercase.
pub fn display_headers(headers: &[String]) -> (res: Vec<String>)
    ensures
        res.len() == headers.len(),
        forall|c: int| 0 <= c < headers.len() ==> #[trigger] res@[c]@ == uppercase(headers@[c]@),
        res.deep_view() == uppercase_all(headers.deep_view()),
{
    let mut out: Vec<String> = Vec::new();
    let mut c: usize = 0;
    while c < headers.len()
        invariant
            c <= headers.len(),
            out.len() == c,
            forall|d: int| 0 <= d < c ==> #[trigger] out@[d]@ == uppercase(headers@[d]@),
        decreases headers.len() - c,
    {
        out.push(to_uppercase(headers[c].as_str()));
        c = c + 1;
    }
    proof {
        assert(out.deep_view() =~= uppercase_all(headers.deep_view()));
    }
    out
}

/// The whole state of the table view.
pub struct TableView {
    pub table: Table,
    pub search: SearchInput,
    /// The listed rows, as indices into `table.rows`, in display order.
    pub filtered_indices: Vec<usize>,
    pub sort_state: Option<(usize, SortDirection)>,
    pub chart: ChartSettings,
    /// Selected cell: (position in the listed rows, column); no column selects the row.
    pub selected_cell: Option<(usize, Option<usize>)>,
    pub col_filter: ColumnFilter,
    pub visible_col_indices: Vec<usize>,
    pub pinned_col_count: usize,
    pub pin_input: PinInput,
    pub row_filter: RowFilter,
}

/// Position of the first `true` in `v` at or after `i`, or `v.len()`.
pub open spec fn first_true_from(v: Seq<bool>, i: nat) -> nat
    decreases v.len() - i,
{
    if i >= v.len() {
        v.len()
    } else if v[i as int] {
        i
    } else {
        first_true_from(v, i + 1)
    }
}

/// The default chart column: the first numeric column, or 0.
pub open spec fn default_chart_col(numeric: Seq<bool>) -> usize {
    let f = first_true_from(numeric, 0);
    if f < numeric.len() {
        f as usize
    } else {
        0
    }
}

/// The default X column of a scatter chart: the next numeric column after the default
/// chart column, or the chart column itself.
pub open spec fn default_chart_x_col(numeric: Seq<bool>) -> usize {
    let first = default_chart_col(numeric);
    let s = first_true_from(numeric, first as nat + 1);
    if s < numeric.len() {
        s as usize
    } else {
        first
    }
}

/// All characters are ASCII digits.
pub open spec fn all_ascii_digits(s: Seq<char>) -> bool {
    forall|i: int| 0 <= i < s.len() ==> '0' <= #[trigger] s[i] && s[i] <= '9'
}

impl Table {
    pub open spec fn wf(&self) -> bool {
        &&& self.numeric_columns.len() == self.headers.len()
        &&& self.numeric_bits.len() == self.headers.len()
        &&& forall|c: int|
            0 <= c < self.headers.len() ==> (#[trigger] self.numeric_columns@[c] == is_numeric_column(
                self.rows.deep_view(),
                c,
            ))
        &&& forall|c: int|
            0 <= c < self.headers.len() && #[trigger] self.numeric_columns@[c] ==> self.numeric_bits@[c].len()
                == self.rows.len()
    }

    /// The numeric keys used when column `col` is sorted: present for numeric columns.
    pub open spec fn sort_bits(&self, col: int) -> Option<Seq<u64>> {
        if 0 <= col < self.numeric_columns.len() && self.numeric_columns@[col] {
            Some(self.numeric_bits@[col]@)
        } else {
            None
        }
    }

    pub open spec fn is_numeric(&self, col: int) -> bool {
        0 <= col < self.numeric_columns.len() && self.numeric_columns@[col]
    }
}

impl TableView {
    /// The state's internal consistency: listed rows exist, the selection points into
    /// the listing, visible columns exist, the pin input holds digits only.
    pub open spec fn wf(&self) -> bool {
        &&& self.table.wf()
        &&& forall|k: int|
            0 <= k < self.filtered_indices.len() ==> #[trigger] self.filtered_indices@[k] < self.table.rows.len()
        &&& forall|k: int|
            0 <= k < self.visible_col_indices.len() ==> #[trigger] self.visible_col_indices@[k]
                < self.table.headers.len()
        &&& (self.selected_cell matches Some((r, _)) ==> r < self.filtered_indices.len())
        &&& all_ascii_digits(self.pin_input.query@)
    }

    /// The rows that the search and the row filter keep, in table order: the row filter
    /// applies when its pattern is non-empty and compiles.
    pub open spec fn kept_rows(&self) -> Seq<usize> {
        let base = search_result(self.table.rows.deep_view(), self.search.query@);
        if self.row_filter.pattern@.len() > 0 && pattern_compiles(self.row_filter.pattern@) {
            row_filter_result(self.table.rows.deep_view(), base, self.row_filter.pattern@, self.row_filter.col)
        } else {
            base
        }
    }

    /// `listing` is what the view lists: the kept rows, sorted by the sort column when
    /// there is one.
    pub open spec fn lists(&self, listing: Seq<usize>) -> bool {
        match self.sort_state {
            Some((c, d)) => sorted_by_column(
                listing,
                self.table.rows.deep_view(),
                self.kept_rows(),
                c as int,
                self.table.sort_bits(c as int),
                d,
            ),
            None => listing == self.kept_rows(),
        }
    }

    /// Build the initial view of a table: every row listed in table order, every column
    /// visible, nothing selected, sorted, pinned or filtered, the chart closed on the
    /// first numeric columns.
    ///
    /// `numeric_bits` holds, for each numeric column (see `is_numeric_column`), the bit
    /// pattern of each row's value as a double; the table keeps these as its numeric sort
    /// keys.
    pub fn new(data: CsvData, numeric_bits: Vec<Vec<u64>>) -> (res: TableView)
        requires
            numeric_bits.len() == data.headers.len(),
            forall|c: int|
                0 <= c < data.headers.len() && is_numeric_column(data.rows.deep_view(), c)
                    ==> #[trigger] numeric_bits@[c].len() == data.rows.len(),
        ensures
            res.wf(),
            res.table.headers@ == data.headers@,
            res.table.rows@ == data.rows@,
            res.table.numeric_columns.len() == data.headers.len(),
            forall|c: int|
                0 <= c < data.headers.len() ==> #[trigger] res.table.numeric_columns@[c]
                    == is_numeric_column(data.rows.deep_view(), c),
            res.table.numeric_bits.deep_view() == numeric_bits.deep_view(),
            res.table.display_headers.deep_view() == uppercase_all(data.headers.deep_view()),
            res.filtered_indices@ == all_positions(data.rows.len() as int),
            res.visible_col_indices@ == all_positions(data.headers.len() as int),
            res.sort_state is None,
            res.selected_cell is None,
            res.pinned_col_count == 0,
            !res.search.active && res.search.query@.len() == 0,
            !res.col_filter.active && res.col_filter.query@.len() == 0 && !res.col_filter.error,
            !res.pin_input.active && res.pin_input.query@.len() == 0,
            !res.row_filter.active && res.row_filter.query@.len() == 0 && res.row_filter.col is None
                && res.row_filter.pattern@.len() == 0 && !res.row_filter.error,
            !res.chart.active,
            res.chart.chart_type == ChartType::Bar,
            res.chart.col == default_chart_col(res.table.numeric_columns@),
            res.chart.x_col == default_chart_x_col(res.table.numeric_columns@),
    {
        let col_count = data.headers.len();
        let row_count = data.rows.len();
        let row_slice = data.rows.as_slice();
        let header_slice = data.headers.as_slice();
        let numeric_columns = compute_numeric_columns(row_slice, col_count);
        let display_headers = display_headers(header_slice);
        proof {
            assert(row_slice.deep_view() =~= data.rows.deep_view());
            assert(header_slice.deep_view() =~= data.headers.deep_view());
        }
        let first = first_true(&numeric_columns, 0);
        let chart_col = if first < numeric_columns.len() {
            first
        } else {
            0
        };
        let second = first_true(&numeric_columns, chart_col + 1);
        let chart_x_col = if second < numeric_columns.len() {
            second
        } else {
            chart_col
        };
        let filtered = positions(row_count);
        let visible = positions(col_count);
        TableView {
            table: Table { headers: data.headers, rows: data.rows, numeric_columns, numeric_bits, display_headers },
            search: SearchInput { active: false, query: String::new() },
            filtered_indices: filtered,
            sort_state: None,
            chart: ChartSettings { active: false, chart_type: ChartType::Bar, col: chart_col, x_col: chart_x_col },
            selected_cell: None,
            col_filter: ColumnFilter { active: false, query: String::new(), error: false },
            visible_col_indices: visible,
            pinned_col_count: 0,
            pin_input: PinInput { active: false, query: String::new() },
            row_filter: RowFilter {
                active: false,
                query: String::new(),
                col: None,
                pattern: String::new(),
                error: false,
            },
        }
    }
}

/// `a` and `b` agree on the table, the chart, the columns shown and pinned, and the
/// column filter and pin input bars.
pub open spec fn same_settings(a: TableView, b: TableView) -> bool {
    &&& a.table == b.table
    &&& a.chart == b.chart
    &&& a.col_filter == b.col_filter
    &&& a.visible_col_indices == b.visible_col_indices
    &&& a.pinned_col_count == b.pinned_col_count
    &&& a.pin_input == b.pin_input
}

/// `a` and `b` agree on the search query, the sort and the row filter's query.
pub open spec fn same_queries(a: TableView, b: TableView) -> bool {
    &&& a.search.query == b.search.query
    &&& a.sort_state == b.sort_state
    &&& a.row_filter.query == b.row_filter.query
    &&& a.row_filter.col == b.row_filter.col
    &&& a.row_filter.pattern == b.row_filter.pattern
}

/// `new` lists its rows afresh: same settings and open bars as `old`, the listing that its
/// queries and sort give, no selection, and the row filter's error flag telling whether
/// its pattern was refused.
pub open spec fn listing_refreshed(old: TableView, new: TableView) -> bool {
    &&& same_settings(old, new)
    &&& new.search.active == old.search.active
    &&& new.row_filter.active == old.row_filter.active
    &&& new.selected_cell is None
    &&& new.lists(new.filtered_indices@)
    &&& new.row_filter.error == (new.row_filter.pattern@.len() > 0 && !pattern_compiles(new.row_filter.pattern@))
}

/// After a new listing: recompute the chart (when open) and the statistics, and scroll
/// back to the top.
pub open spec fn relist_refresh(old: TableView) -> Refresh {
    Refresh { chart: old.chart.active, stats: true, scroll: Scroll::Top }
}

impl TableView {
    /// Recompute the listing from the search, the row filter and the sort; clears the
    /// selection. The row filter's error flag records whether its pattern was refused.
    fn recompute_filtered_indices(&mut self)
        requires
            old(self).wf(),
        ensures
            final(self).wf(),
            listing_refreshed(*old(self), *final(self)),
            same_queries(*old(self), *final(self)),
    {
        let ghost rv = self.table.rows.deep_view();
        let ghost n = self.table.rows.len() as int;
        let rows = self.table.rows.as_slice();
        let base = filter_rows(rows, self.search.query.as_str());
        proof {
            assert(rows.deep_view() =~= rv);
            if self.search.query@.len() > 0 {
                lemma_filter_bounded(all_positions(n), |i: usize| row_has_text(rv[i as int], lowercase(self.search.query@)), n);
            }
            assert(forall|k: int| 0 <= k < base.len() ==> #[trigger] base@[k] < n);
        }
        let kept = if !self.row_filter.pattern.as_str().is_empty() {
            match filter_rows_regex(rows, base.as_slice(), self.row_filter.pattern.as_str(), self.row_filter.col) {
                Ok(v) => {
                    self.row_filter.error = false;
                    proof {
                        lemma_filter_bounded(base@, |i: usize| row_passes(rv, i as int, self.row_filter.pattern@, self.row_filter.col), n);
                    }
                    v
                },
                Err(_) => {
                    self.row_filter.error = true;
                    base
                },
            }
        } else {
            self.row_filter.error = false;
            base
        };
        proof {
            assert(kept@ == self.kept_rows());
            assert(forall|k: int| 0 <= k < kept.len() ==> #[trigger] kept@[k] < n);
        }
        let listing = match self.sort_state {
            Some((col, direction)) => {
                let sorted = if col < self.table.numeric_columns.len() && self.table.numeric_columns[col] {
                    sort_indices(rows, kept.as_slice(), col, Some(&self.table.numeric_bits[col]), direction)
                } else {
                    sort_indices(rows, kept.as_slice(), col, None, direction)
                };
                proof {
                    lemma_sorted_entries(sorted@, rv, kept@, col as int, self.table.sort_bits(col as int), direction);
                    assert forall|k: int| 0 <= k < sorted.len() implies #[trigger] sorted@[k] < n by {
                        assert(kept@.contains(sorted@[k]));
                    }
                }
                sorted
            },
            None => kept,
        };
        self.filtered_indices = listing;
        self.selected_cell = None;
    }
}

/// The sort that a click on column `col`'s header gives: ascending, then descending,
/// then none.
pub open spec fn next_sort_state(s: Option<(usize, SortDirection)>, col: usize) -> Option<(usize, SortDirection)> {
    match s {
        Some((c, d)) => if c == col {
            match d {
                SortDirection::Ascending => Some((col, SortDirection::Descending)),
                SortDirection::Descending => None,
            }
        } else {
            Some((col, SortDirection::Ascending))
        },
        None => Some((col, SortDirection::Ascending)),
    }
}

pub open spec fn clamp(x: int, lo: int, hi: int) -> int {
    if x < lo {
        lo
    } else if x > hi {
        hi
    } else {
        x
    }
}

/// Position of the first `x` in `s`, or 0 when it does not occur.
pub open spec fn position_or_zero(s: Seq<usize>, x: usize) -> int {
    if s.contains(x) {
        choose|k: int| 0 <= k < s.len() && s[k] == x && forall|j: int| 0 <= j < k ==> s[j] != x
    } else {
        0
    }
}

/// The selection after moving it by the given numbers of rows and visible columns, and
/// what to refresh. With nothing selected, the first listed row (and first visible
/// column) is selected; moves stop at the edges.
pub open spec fn moved_selection(v: TableView, row_delta: int, col_delta: int) -> (Option<(usize, Option<usize>)>, Refresh) {
    let n = v.filtered_indices.len() as int;
    let vis = v.visible_col_indices@;
    if n == 0 {
        (v.selected_cell, nothing_to_refresh())
    } else {
        match v.selected_cell {
            None => (
                Some((0usize, if vis.len() > 0 { Some(vis[0]) } else { None })),
                Refresh { chart: false, stats: true, scroll: Scroll::Reveal(0) },
            ),
            Some((r, c)) => {
                let new_row = clamp(r + row_delta, 0, n - 1) as usize;
                let new_col = match c {
                    Some(cc) => if vis.len() > 0 {
                        Some(vis[clamp(position_or_zero(vis, cc) + col_delta, 0, vis.len() - 1)])
                    } else {
                        None
                    },
                    None => if col_delta > 0 && vis.len() > 0 {
                        Some(vis[0])
                    } else {
                        None
                    },
                };
                (
                    Some((new_row, new_col)),
                    Refresh { chart: false, stats: new_col != c, scroll: Scroll::Reveal(new_row) },
                )
            },
        }
    }
}

/// The column whose statistics are shown: the selected cell's column, when numeric.
pub open spec fn stats_column_spec(v: TableView) -> Option<usize> {
    match v.selected_cell {
        Some((_, Some(c))) => if v.table.is_numeric(c as int) {
            Some(c)
        } else {
            None
        },
        _ => None,
    }
}

/// The numeric columns, in order.
pub open spec fn numeric_columns_spec(v: TableView) -> Seq<usize> {
    all_positions(v.table.numeric_columns.len() as int).filter(|c: usize| v.table.numeric_columns@[c as int])
}

/// Numeric value of a text of decimal digits.
pub open spec fn decimal_value(s: Seq<char>) -> nat
    decreases s.len(),
{
    if s.len() == 0 {
        0
    } else {
        10 * decimal_value(s.drop_last()) + (s.last() as nat - '0' as nat) as nat
    }
}

/// Columns to pin for the pin input: none for an empty input, otherwise the number
/// typed, at most the number of visible columns.
pub open spec fn pin_count_spec(query: Seq<char>, visible: nat) -> usize {
    if query.len() == 0 {
        0
    } else if decimal_value(query) <= visible {
        decimal_value(query) as usize
    } else {
        visible as usize
    }
}

impl TableView {
    /// Some input bar is open.
    pub open spec fn input_active(&self) -> bool {
        self.search.active || self.col_filter.active || self.pin_input.active || self.row_filter.active
    }

    /// Whether an input bar is open (key presses then edit it).
    pub fn any_input_active(&self) -> (res: bool)
        ensures
            res == self.input_active(),
    {
        self.search.active || self.col_filter.active || self.pin_input.active || self.row_filter.active
    }

    /// Open or close the search bar.
    pub fn toggle_search(&mut self)
        ensures
            *final(self) == search_toggled(*old(self)),
    {
        self.search.active = !self.search.active;
    }

    /// Close the search bar; its query stays in force.
    pub fn close_search(&mut self)
        ensures
            *final(self) == search_closed(*old(self)),
    {
        self.search.active = false;
    }

    /// Apply a new search query.
    pub fn set_search_query(&mut self, query: String) -> (res: Refresh)
        requires
            old(self).wf(),
        ensures
            final(self).wf(),
            search_query_set(*old(self), *final(self), query@, res),
    {
        let ghost before = *self;
        self.search.query = query;
        self.recompute_filtered_indices();
        Refresh { chart: self.chart.active, stats: true, scroll: Scroll::Top }
    }

    /// Cycle the sort of column `col`: ascending, descending, none.
    pub fn toggle_sort(&mut self, col: usize) -> (res: Refresh)
        requires
            old(self).wf(),
        ensures
            final(self).wf(),
            sort_toggled(*old(self), *final(self), col, res),
    {
        self.sort_state = match self.sort_state {
            Some((c, d)) => if c == col {
                match d {
                    SortDirection::Ascending => Some((col, SortDirection::Descending)),
                    SortDirection::Descending => None,
                }
            } else {
                Some((col, SortDirection::Ascending))
            },
            None => Some((col, SortDirection::Ascending)),
        };
        self.recompute_filtered_indices();
        Refresh { chart: self.chart.active, stats: true, scroll: Scroll::Top }
    }

    /// Open or close the chart panel.
    pub fn toggle_chart(&mut self) -> (res: Refresh)
        ensures
            *final(self) == (TableView {
                chart: ChartSettings { active: !old(self).chart.active, ..old(self).chart },
                ..*old(self)
            }),
            res == (Refresh { chart: final(self).chart.active, stats: false, scroll: Scroll::Keep }),
    {
        self.chart.active = !self.chart.active;
        Refresh { chart: self.chart.active, stats: false, scroll: Scroll::Keep }
    }

    /// Choose the chart kind.
    pub fn set_chart_type(&mut self, ct: ChartType) -> (res: Refresh)
        ensures
            *final(self) == (TableView {
                chart: ChartSettings { chart_type: ct, ..old(self).chart },
                ..*old(self)
            }),
            res == (Refresh { chart: true, stats: false, scroll: Scroll::Keep }),
    {
        self.chart.chart_type = ct;
        Refresh { chart: true, stats: false, scroll: Scroll::Keep }
    }

    /// Chart column `col`, when it is numeric; otherwise nothing changes.
    pub fn set_chart_col(&mut self, col: usize) -> (res: Refresh)
        ensures
            old(self).table.is_numeric(col as int) ==> *final(self) == (TableView {
                chart: ChartSettings { col, ..old(self).chart },
                ..*old(self)
            }) && res == (Refresh { chart: true, stats: false, scroll: Scroll::Keep }),
            !old(self).table.is_numeric(col as int) ==> *final(self) == *old(self) && res == nothing_to_refresh(),
    {
        if col < self.table.numeric_columns.len() && self.table.numeric_columns[col] {
            self.chart.col = col;
            Refresh { chart: true, stats: false, scroll: Scroll::Keep }
        } else {
            no_refresh()
        }
    }

    /// Use column `col` for the X axis of the scatter chart, when it is numeric;
    /// otherwise nothing changes.
    pub fn set_chart_x_col(&mut self, col: usize) -> (res: Refresh)
        ensures
            old(self).table.is_numeric(col as int) ==> *final(self) == (TableView {
                chart: ChartSettings { x_col: col, ..old(self).chart },
                ..*old(self)
            }) && res == (Refresh { chart: true, stats: false, scroll: Scroll::Keep }),
            !old(self).table.is_numeric(col as int) ==> *final(self) == *old(self) && res == nothing_to_refresh(),
    {
        if col < self.table.numeric_columns.len() && self.table.numeric_columns[col] {
            self.chart.x_col = col;
            Refresh { chart: true, stats: false, scroll: Scroll::Keep }
        } else {
            no_refresh()
        }
    }

    /// The column whose statistics the status bar shows (see `stats_column_spec`).
    pub fn stats_column(&self) -> (res: Option<usize>)
        ensures
            res == stats_column_spec(*self),
    {
        match self.selected_cell {
            Some((_, Some(c))) => if c < self.table.numeric_columns.len() && self.table.numeric_columns[c] {
                Some(c)
            } else {
                None
            },
            _ => None,
        }
    }

    /// Select a cell (`col` none selects the whole row); the row position is clamped to
    /// the listing, and an empty listing clears the selection.
    pub fn select_cell(&mut self, filtered_idx: usize, col: Option<usize>) -> (res: Refresh)
        requires
            old(self).wf(),
        ensures
            final(self).wf(),
            old(self).filtered_indices.len() == 0 ==> *final(self) == (TableView { selected_cell: None, ..*old(self) }),
            old(self).filtered_indices.len() > 0 ==> *final(self) == (TableView {
                selected_cell: Some((
                    if filtered_idx < old(self).filtered_indices.len() {
                        filtered_idx
                    } else {
                        (old(self).filtered_indices.len() - 1) as usize
                    },
                    col,
                )),
                ..*old(self)
            }),
            res == (Refresh { chart: false, stats: true, scroll: Scroll::Keep }),
    {
        if self.filtered_indices.len() == 0 {
            return self.clear_selection();
        }
        let last = self.filtered_indices.len() - 1;
        let clamped = if filtered_idx < last {
            filtered_idx
        } else {
            last
        };
        self.selected_cell = Some((clamped, col));
        Refresh { chart: false, stats: true, scroll: Scroll::Keep }
    }

    /// Clear the selection.
    pub fn clear_selection(&mut self) -> (res: Refresh)
        requires
            old(self).wf(),
        ensures
            final(self).wf(),
            *final(self) == (TableView { selected_cell: None, ..*old(self) }),
            res == (Refresh { chart: false, stats: true, scroll: Scroll::Keep }),
    {
        self.selected_cell = None;
        Refresh { chart: false, stats: true, scroll: Scroll::Keep }
    }

    /// Move the selection (see `moved_selection`).
    pub fn move_selection(&mut self, row_delta: isize, col_delta: isize) -> (res: Refresh)
        requires
            old(self).wf(),
        ensures
            final(self).wf(),
            *final(self) == (TableView {
                selected_cell: moved_selection(*old(self), row_delta as int, col_delta as int).0,
                ..*old(self)
            }),
            res == moved_selection(*old(self), row_delta as int, col_delta as int).1,
    {
        let n = self.filtered_indices.len();
        if n == 0 {
            return no_refresh();
        }
        let vis_len = self.visible_col_indices.len();
        match self.selected_cell {
            None => {
                let initial_col = if vis_len > 0 {
                    Some(self.visible_col_indices[0])
                } else {
                    None
                };
                self.selected_cell = Some((0, initial_col));
                Refresh { chart: false, stats: true, scroll: Scroll::Reveal(0) }
            },
            Some((r, c)) => {
                let target: i128 = (r as i128) + (row_delta as i128);
                let top: i128 = (n as i128) - 1;
                let new_row: usize = if target < 0 {
                    0
                } else if target > top {
                    (n - 1) as usize
                } else {
                    target as usize
                };
                let new_col = match c {
                    Some(cc) => if vis_len > 0 {
                        let pos = self.position_in_visible(cc);
                        let t: i128 = (pos as i128) + (col_delta as i128);
                        let hi: i128 = (vis_len as i128) - 1;
                        let p: usize = if t < 0 {
                            0
                        } else if t > hi {
                            vis_len - 1
                        } else {
                            t as usize
                        };
                        Some(self.visible_col_indices[p])
                    } else {
                        None
                    },
                    None => if col_delta > 0 && vis_len > 0 {
                        Some(self.visible_col_indices[0])
                    } else {
                        None
                    },
                };
                let col_changed = !same_column(c, new_col);
                self.selected_cell = Some((new_row, new_col));
                Refresh { chart: false, stats: col_changed, scroll: Scroll::Reveal(new_row) }
            },
        }
    }

    fn position_in_visible(&self, c: usize) -> (res: usize)
        ensures
            res == position_or_zero(self.visible_col_indices@, c),
            self.visible_col_indices.len() > 0 ==> res < self.visible_col_indices.len(),
    {
        let vis = &self.visible_col_indices;
        let mut k: usize = 0;
        while k < vis.len()
            invariant
                k <= vis.len(),
                vis@ == self.visible_col_indices@,
                forall|j: int| 0 <= j < k ==> vis@[j] != c,
            decreases vis.len() - k,
        {
            if vis[k] == c {
                proof {
                    let ki = k as int;
                    assert(0 <= ki < vis@.len() && vis@[ki] == c && forall|j: int| 0 <= j < ki ==> vis@[j] != c);
                    assert(vis@.contains(c));
                    let w = choose|w: int|
                        0 <= w < vis@.len() && vis@[w] == c && forall|j: int| 0 <= j < w ==> vis@[j] != c;
                    if w > ki {
                        assert(vis@[ki] != c);
                    }
                    assert(w == ki);
                }
                return k;
            }
            k = k + 1;
        }
        proof {
            assert(!vis@.contains(c));
        }
        0
    }
}

fn same_column(a: Option<usize>, b: Option<usize>) -> (res: bool)
    ensures
        res == (a == b),
{
    match (a, b) {
        (Some(x), Some(y)) => x == y,
        (None, None) => true,
        _ => false,
    }
}

/// The text copied for the selection: the selected cell's text (empty when the row is
/// shorter), or for a whole row its visible cells that exist, joined by tabs.
pub open spec fn selection_text_spec(v: TableView) -> Option<Seq<char>> {
    match v.selected_cell {
        None => None,
        Some((fi, col)) => if fi >= v.filtered_indices.len() {
            None
        } else if v.filtered_indices@[fi as int] >= v.table.rows.len() {
            None
        } else {
            let row = v.table.rows.deep_view()[v.filtered_indices@[fi as int] as int];
            Some(
                match col {
                    Some(c) => cell_or_empty(row, c as int),
                    None => join(
                        v.visible_col_indices@.filter(|c: usize| c < row.len()).map_values(
                            |c: usize| row[c as int],
                        ),
                        seq!['\t'],
                    ),
                },
            )
        },
    }
}

/// Where the chart column moves when its selector is clicked: to the numeric column
/// after the current one, wrapping around; none when there is no numeric column.
pub open spec fn next_numeric_column(v: TableView, current: usize) -> Option<usize> {
    let nums = numeric_columns_spec(v);
    if nums.len() == 0 {
        None
    } else {
        Some(nums[(position_or_zero(nums, current) + 1) % (nums.len() as int)])
    }
}

impl TableView {
    /// The text to copy for the selection (see `selection_text_spec`).
    pub fn selection_text(&self) -> (res: Option<String>)
        ensures
            match res {
                Some(t) => selection_text_spec(*self) == Some(t@),
                None => selection_text_spec(*self) is None,
            },
    {
        let (fi, col) = match self.selected_cell {
            Some(sel) => sel,
            None => return None,
        };
        if fi >= self.filtered_indices.len() {
            return None;
        }
        let i = self.filtered_indices[fi];
        if i >= self.table.rows.len() {
            return None;
        }
        let row = &self.table.rows[i];
        proof {
            assert(self.table.rows.deep_view()[i as int] == row.deep_view());
        }
        match col {
            Some(c) => {
                let mut out = String::new();
                out.append(cell_str(row, c));
                Some(out)
            },
            None => {
                let ghost rv = row.deep_view();
                let ghost vis = self.visible_col_indices@;
                let ghost pred = |c: usize| c < rv.len();
                let ghost pick = |c: usize| rv[c as int];
                let mut out = String::new();
                let mut written: usize = 0;
                let mut k: usize = 0;
                while k < self.visible_col_indices.len()
                    invariant
                        k <= vis.len(),
                        vis == self.visible_col_indices@,
                        rv == row.deep_view(),
                        pred == (|c: usize| c < rv.len()),
                        pick == (|c: usize| rv[c as int]),
                        written == vis.take(k as int).filter(pred).len(),
                        out@ == join(vis.take(k as int).filter(pred).map_values(pick), seq!['\t']),
                    decreases vis.len() - k,
                {
                    let c = self.visible_col_indices[k];
                    let ghost prev = vis.take(k as int).filter(pred);
                    proof {
                        reveal(Seq::filter);
                        assert(vis.take(k + 1).drop_last() =~= vis.take(k as int));
                        assert(vis.take(k + 1).last() == c);
                    }
                    if c < row.len() {
                        if written > 0 {
                            push_char(&mut out, '\t');
                        }
                        out.append(row[c].as_str());
                        proof {
                            assert(rv[c as int] == row@[c as int]@);
                            assert(prev.push(c).map_values(pick) =~= prev.map_values(pick).push(pick(c)));
                            lemma_join_push(prev.map_values(pick), seq!['\t'], pick(c));
                            assert(out@ =~= join(vis.take(k + 1).filter(pred).map_values(pick), seq!['\t']));
                        }
                        written = written + 1;
                    }
                    k = k + 1;
                }
                proof {
                    assert(vis.take(vis.len() as int) =~= vis);
                }
                Some(out)
            },
        }
    }

    /// Indices of the numeric columns, in order.
    pub fn numeric_col_indices(&self) -> (res: Vec<usize>)
        ensures
            res@ == numeric_columns_spec(*self),
    {
        let ghost all = all_positions(self.table.numeric_columns.len() as int);
        let ghost pred = |c: usize| self.table.numeric_columns@[c as int];
        let mut out: Vec<usize> = Vec::new();
        let mut c: usize = 0;
        while c < self.table.numeric_columns.len()
            invariant
                c <= self.table.numeric_columns.len(),
                all == all_positions(self.table.numeric_columns.len() as int),
                pred == (|c: usize| self.table.numeric_columns@[c as int]),
                out@ == all.take(c as int).filter(pred),
            decreases self.table.numeric_columns.len() - c,
        {
            proof {
                reveal(Seq::filter);
                assert(all.take(c + 1).drop_last() =~= all.take(c as int));
                assert(all.take(c + 1).last() == c);
            }
            if self.table.numeric_columns[c] {
                out.push(c);
            }
            c = c + 1;
        }
        proof {
            assert(all.take(self.table.numeric_columns.len() as int) =~= all);
        }
        out
    }

    fn next_numeric(&self, current: usize) -> (res: Option<usize>)
        requires
            self.wf(),
        ensures
            res == next_numeric_column(*self, current),
            res matches Some(c) ==> self.table.is_numeric(c as int),
    {
        let nums = self.numeric_col_indices();
        if nums.len() == 0 {
            return None;
        }
        let mut k: usize = 0;
        while k < nums.len() && nums[k] != current
            invariant
                k <= nums.len(),
                forall|j: int| 0 <= j < k ==> nums@[j] != current,
            decreases nums.len() - k,
        {
            k = k + 1;
        }
        let pos = if k < nums.len() {
            k
        } else {
            0
        };
        proof {
            if k < nums.len() {
                let ki = k as int;
                assert(0 <= ki < nums@.len() && nums@[ki] == current && forall|j: int| 0 <= j < ki ==> nums@[j] != current);
                assert(nums@.contains(current));
                let w = choose|w: int|
                    0 <= w < nums@.len() && nums@[w] == current && forall|j: int| 0 <= j < w ==> nums@[j] != current;
                if w > ki {
                    assert(nums@[ki] != current);
                }
                assert(w == ki);
            } else {
                assert(!nums@.contains(current));
            }
        }
        let next = nums[(pos + 1) % nums.len()];
        proof {
            let all = all_positions(self.table.numeric_columns.len() as int);
            let pred = |c: usize| self.table.numeric_columns@[c as int];
            let idx = (pos as int + 1) % (nums.len() as int);
            all.lemma_filter_pred(pred, idx);
            lemma_filter_bounded(all, pred, self.table.numeric_columns.len() as int);
            assert(pred(all.filter(pred)[idx]));
        }
        Some(next)
    }

    /// Move the chart column to the next numeric column (see `next_numeric_column`).
    pub fn cycle_chart_col(&mut self) -> (res: Refresh)
        requires
            old(self).wf(),
        ensures
            final(self).wf(),
            next_numeric_column(*old(self), old(self).chart.col) matches Some(c) ==> *final(self) == (TableView {
                chart: ChartSettings { col: c, ..old(self).chart },
                ..*old(self)
            }) && res == (Refresh { chart: true, stats: false, scroll: Scroll::Keep }),
            next_numeric_column(*old(self), old(self).chart.col) is None ==> *final(self) == *old(self)
                && res == nothing_to_refresh(),
    {
        match self.next_numeric(self.chart.col) {
            Some(c) => self.set_chart_col(c),
            None => no_refresh(),
        }
    }

    /// Move the scatter chart's X column to the next numeric column.
    pub fn cycle_chart_x_col(&mut self) -> (res: Refresh)
        requires
            old(self).wf(),
        ensures
            final(self).wf(),
            next_numeric_column(*old(self), old(self).chart.x_col) matches Some(c) ==> *final(self) == (TableView {
                chart: ChartSettings { x_col: c, ..old(self).chart },
                ..*old(self)
            }) && res == (Refresh { chart: true, stats: false, scroll: Scroll::Keep }),
            next_numeric_column(*old(self), old(self).chart.x_col) is None ==> *final(self) == *old(self)
                && res == nothing_to_refresh(),
    {
        match self.next_numeric(self.chart.x_col) {
            Some(c) => self.set_chart_x_col(c),
            None => no_refresh(),
        }
    }
}

/// A non-empty pattern that the regular expression compiler refuses.
pub open spec fn refused_pattern(q: Seq<char>) -> bool {
    q.len() > 0 && !pattern_compiles(q)
}

/// Post-state of a new column filter pattern `q`: the columns whose header it matches
/// (all for an empty pattern) become the visible ones and the selection is cleared; a
/// refused pattern shows every column, keeps the selection and raises the error flag.
pub open spec fn col_filter_set(old: TableView, new: TableView, q: Seq<char>, res: Refresh) -> bool {
    &&& new.col_filter.query@ == q
    &&& if refused_pattern(q) {
        &&& new == (TableView {
            col_filter: ColumnFilter { query: new.col_filter.query, error: true, ..old.col_filter },
            visible_col_indices: new.visible_col_indices,
            ..old
        })
        &&& new.visible_col_indices@ == all_positions(old.table.headers.len() as int)
        &&& res == nothing_to_refresh()
    } else {
        &&& new == (TableView {
            col_filter: ColumnFilter { query: new.col_filter.query, error: false, ..old.col_filter },
            visible_col_indices: new.visible_col_indices,
            selected_cell: None,
            ..old
        })
        &&& new.visible_col_indices@ == column_filter_result(old.table.headers.deep_view(), q)
        &&& res == (Refresh { chart: false, stats: true, scroll: Scroll::Keep })
    }
}

/// Post-state of confirming the pin input: the typed number of columns (see
/// `pin_count_spec`) is pinned and the bar closes empty.
pub open spec fn pin_confirmed(old: TableView, new: TableView) -> bool {
    &&& new == (TableView {
        pinned_col_count: pin_count_spec(old.pin_input.query@, old.visible_col_indices.len() as nat),
        pin_input: PinInput { active: false, query: new.pin_input.query },
        ..old
    })
    &&& new.pin_input.query@.len() == 0
}

/// Post-state of editing the pin input to `q`.
pub open spec fn pin_query_set(old: TableView, new: TableView, q: Seq<char>) -> bool {
    &&& new == (TableView { pin_input: PinInput { query: new.pin_input.query, ..old.pin_input }, ..old })
    &&& new.pin_input.query@ == q
}

/// Post-state of opening or closing the pin input: its text is cleared.
pub open spec fn pin_input_toggled(old: TableView, new: TableView, active: bool) -> bool {
    &&& new == (TableView { pin_input: PinInput { active, query: new.pin_input.query }, ..old })
    &&& new.pin_input.query@.len() == 0
}

/// Post-state of a new row filter query `q`: it splits into target column and pattern
/// (see `column_filter_spec`) and the rows are listed afresh.
pub open spec fn row_filter_set(old: TableView, new: TableView, q: Seq<char>, res: Refresh) -> bool {
    &&& listing_refreshed(old, new)
    &&& new.search.query == old.search.query
    &&& new.sort_state == old.sort_state
    &&& new.row_filter.query@ == q
    &&& new.row_filter.col == column_filter_spec(q, old.table.headers.deep_view()).0
    &&& new.row_filter.pattern@ == column_filter_spec(q, old.table.headers.deep_view()).1
    &&& res == relist_refresh(old)
}

impl TableView {
    /// Open or close the column filter bar; opening re-checks whether its pattern
    /// compiles, without changing the visible columns.
    pub fn toggle_col_filter(&mut self)
        ensures
            *final(self) == col_filter_toggled(*old(self)),
    {
        self.col_filter.active = !self.col_filter.active;
        if self.col_filter.active {
            if !self.col_filter.query.as_str().is_empty() {
                self.col_filter.error = compile(self.col_filter.query.as_str()).is_err();
            } else {
                self.col_filter.error = false;
            }
        }
    }

    /// Apply a new column filter pattern (see `col_filter_set`).
    pub fn set_col_filter_query(&mut self, pattern: String) -> (res: Refresh)
        requires
            old(self).wf(),
        ensures
            final(self).wf(),
            col_filter_set(*old(self), *final(self), pattern@, res),
    {
        let ghost n = self.table.headers.len() as int;
        let ghost hv = self.table.headers.deep_view();
        let headers = self.table.headers.as_slice();
        let result = filter_columns_by_regex(headers, pattern.as_str());
        proof {
            assert(headers.deep_view() =~= hv);
        }
        self.col_filter.query = pattern;
        match result {
            Ok(indices) => {
                proof {
                    if self.col_filter.query@.len() > 0 {
                        lemma_filter_bounded(
                            all_positions(n),
                            |i: usize| crate::pattern::pattern_matches(self.col_filter.query@, hv[i as int]),
                            n,
                        );
                    }
                }
                self.col_filter.error = false;
                self.visible_col_indices = indices;
                self.selected_cell = None;
                Refresh { chart: false, stats: true, scroll: Scroll::Keep }
            },
            Err(_) => {
                self.col_filter.error = true;
                self.visible_col_indices = positions(self.table.headers.len());
                no_refresh()
            },
        }
    }

    /// Close the column filter bar; the visible columns stay.
    pub fn close_col_filter(&mut self)
        ensures
            *final(self) == col_filter_closed(*old(self)),
    {
        self.col_filter.active = false;
        self.col_filter.error = false;
    }

    /// Open or close the pin input; its text starts empty.
    pub fn toggle_pin_input(&mut self)
        requires
            old(self).wf(),
        ensures
            final(self).wf(),
            pin_input_toggled(*old(self), *final(self), !old(self).pin_input.active),
    {
        self.pin_input.active = !self.pin_input.active;
        self.pin_input.query = String::new();
    }

    /// Pin the typed number of columns and close the pin input (see `pin_confirmed`).
    pub fn confirm_pin_input(&mut self)
        requires
            old(self).wf(),
        ensures
            final(self).wf(),
            pin_confirmed(*old(self), *final(self)),
    {
        let count = pin_count(self.pin_input.query.as_str(), self.visible_col_indices.len());
        self.pinned_col_count = count;
        self.pin_input.active = false;
        self.pin_input.query = String::new();
    }

    /// Close the pin input without pinning.
    pub fn cancel_pin_input(&mut self)
        requires
            old(self).wf(),
        ensures
            final(self).wf(),
            pin_input_toggled(*old(self), *final(self), false),
    {
        self.pin_input.active = false;
        self.pin_input.query = String::new();
    }

    /// Replace the pin input's text.
    pub fn set_pin_query(&mut self, query: String)
        requires
            old(self).wf(),
            all_ascii_digits(query@),
        ensures
            final(self).wf(),
            pin_query_set(*old(self), *final(self), query@),
    {
        self.pin_input.query = query;
    }

    /// Open or close the row filter bar; opening re-checks whether its pattern compiles,
    /// without relisting.
    pub fn toggle_row_filter(&mut self)
        ensures
            *final(self) == row_filter_toggled(*old(self)),
    {
        self.row_filter.active = !self.row_filter.active;
        if self.row_filter.active {
            if !self.row_filter.pattern.as_str().is_empty() {
                self.row_filter.error = compile(self.row_filter.pattern.as_str()).is_err();
            } else {
                self.row_filter.error = false;
            }
        }
    }

    /// Apply a new row filter query (see `row_filter_set`).
    pub fn set_row_filter_query(&mut self, query: String) -> (res: Refresh)
        requires
            old(self).wf(),
        ensures
            final(self).wf(),
            row_filter_set(*old(self), *final(self), query@, res),
    {
        let headers = self.table.headers.as_slice();
        let (col, pattern) = parse_column_filter(query.as_str(), headers);
        proof {
            assert(headers.deep_view() =~= self.table.headers.deep_view());
        }
        self.row_filter.query = query;
        self.row_filter.col = col;
        self.row_filter.pattern = pattern;
        self.recompute_filtered_indices();
        Refresh { chart: self.chart.active, stats: true, scroll: Scroll::Top }
    }

    /// Close the row filter bar; its filter stays in force.
    pub fn close_row_filter(&mut self)
        ensures
            *final(self) == row_filter_closed(*old(self)),
    {
        self.row_filter.active = false;
        self.row_filter.error = false;
    }
}

/// Columns to pin for a digits-only pin input (see `pin_count_spec`).
pub fn pin_count(query: &str, max: usize) -> (res: usize)
    requires
        all_ascii_digits(query@),
    ensures
        res == pin_count_spec(query@, max as nat),
{
    let digits = chars_of(query);
    if digits.len() == 0 {
        return 0;
    }
    let cap: u128 = max as u128;
    let mut acc: u128 = 0;
    let mut k: usize = 0;
    while k < digits.len()
        invariant
            k <= digits.len(),
            digits@ == query@,
            all_ascii_digits(query@),
            cap == max,
            cap <= 0xFFFF_FFFF_FFFF_FFFF,
            decimal_value(query@.take(k as int)) <= cap ==> acc == decimal_value(query@.take(k as int)),
            decimal_value(query@.take(k as int)) > cap ==> acc > cap,
            acc <= 10 * cap + 9,
        decreases digits.len() - k,
    {
        let ch = digits[k];
        proof {
            assert(query@.take(k + 1).drop_last() =~= query@.take(k as int));
            assert(query@.take(k + 1).last() == ch);
            assert('0' <= ch && ch <= '9');
        }
        if acc <= cap {
            let d: u128 = (ch as u32 - '0' as u32) as u128;
            acc = acc * 10 + d;
        }
        k = k + 1;
    }
    proof {
        assert(query@.take(digits.len() as int) =~= query@);
    }
    if acc <= cap {
        acc as usize
    } else {
        max
    }
}

/// The view with the search bar toggled.
pub open spec fn search_toggled(v: TableView) -> TableView {
    TableView { search: SearchInput { active: !v.search.active, query: v.search.query }, ..v }
}

/// The view with the search bar closed.
pub open spec fn search_closed(v: TableView) -> TableView {
    TableView { search: SearchInput { active: false, query: v.search.query }, ..v }
}

/// The view with the column filter bar toggled; opening re-checks its pattern.
pub open spec fn col_filter_toggled(v: TableView) -> TableView {
    TableView {
        col_filter: ColumnFilter {
            active: !v.col_filter.active,
            error: if !v.col_filter.active {
                refused_pattern(v.col_filter.query@)
            } else {
                v.col_filter.error
            },
            ..v.col_filter
        },
        ..v
    }
}

/// The view with the column filter bar closed and its error cleared.
pub open spec fn col_filter_closed(v: TableView) -> TableView {
    TableView { col_filter: ColumnFilter { active: false, error: false, ..v.col_filter }, ..v }
}

/// The view with the row filter bar toggled; opening re-checks its pattern.
pub open spec fn row_filter_toggled(v: TableView) -> TableView {
    TableView {
        row_filter: RowFilter {
            active: !v.row_filter.active,
            error: if !v.row_filter.active {
                refused_pattern(v.row_filter.pattern@)
            } else {
                v.row_filter.error
            },
            ..v.row_filter
        },
        ..v
    }
}

/// The view with the row filter bar closed and its error cleared.
pub open spec fn row_filter_closed(v: TableView) -> TableView {
    TableView { row_filter: RowFilter { active: false, error: false, ..v.row_filter }, ..v }
}

/// What a key press does.
pub enum KeyAction {
    Ignore,
    /// Move the selection by rows and columns.
    Move(int, int),
    CloseColumnFilter,
    /// Set the column filter pattern to this text.
    EditColumnFilter(Seq<char>),
    ConfirmPin,
    /// Set the pin input to this text.
    EditPin(Seq<char>),
    CloseRowFilter,
    /// Set the row filter query to this text.
    EditRowFilter(Seq<char>),
    CloseSearch,
    /// Set the search query to this text.
    EditSearch(Seq<char>),
    ToggleSearch,
    ToggleColumnFilter,
    ToggleRowFilter,
    TogglePin,
}

/// A bar's text after a key: backspace drops the last character, a key that types
/// text appends it.
pub open spec fn edited_text(q: Seq<char>, key: Seq<char>, key_char: Option<Seq<char>>) -> Option<Seq<char>> {
    if key == "backspace"@ {
        Some(if q.len() == 0 { q } else { q.drop_last() })
    } else {
        match key_char {
            Some(ch) => Some(q + ch),
            None => None,
        }
    }
}

/// The selection move of an arrow key.
pub open spec fn arrow_move(key: Seq<char>) -> Option<(int, int)> {
    if key == "up"@ {
        Some((-1int, 0int))
    } else if key == "down"@ {
        Some((1int, 0int))
    } else if key == "left"@ {
        Some((0int, -1int))
    } else if key == "right"@ {
        Some((0int, 1int))
    } else {
        None
    }
}

/// The action of a key press: `key` names the key, `key_char` is the text it types,
/// `modifier` tells whether the command or control key is held. Without a modifier and
/// with no bar open, arrows move the selection. An open bar (column filter, then pin,
/// row filter, search) takes the key: enter closes it (confirms the pin input),
/// backspace and typed text edit it (the pin input takes digits only), anything with a
/// modifier is ignored. Otherwise `/`, `*`, `&` and `f` open the search, column filter,
/// row filter and pin bars.
pub open spec fn key_action(v: TableView, key: Seq<char>, key_char: Option<Seq<char>>, modifier: bool) -> KeyAction {
    if !modifier && !v.input_active() && arrow_move(key) is Some {
        let (dr, dc) = arrow_move(key)->0;
        KeyAction::Move(dr, dc)
    } else if v.col_filter.active {
        col_filter_key(v, key, key_char, modifier)
    } else if v.pin_input.active {
        pin_key(v, key, key_char, modifier)
    } else if v.row_filter.active {
        row_filter_key(v, key, key_char, modifier)
    } else if v.search.active {
        search_key(v, key, key_char, modifier)
    } else {
        bar_opening_key(key_char, modifier)
    }
}

/// A key while the column filter bar is open.
pub open spec fn col_filter_key(v: TableView, key: Seq<char>, key_char: Option<Seq<char>>, modifier: bool) -> KeyAction {
    if modifier {
        KeyAction::Ignore
    } else if key == "enter"@ {
        KeyAction::CloseColumnFilter
    } else {
        match edited_text(v.col_filter.query@, key, key_char) {
            Some(q) => KeyAction::EditColumnFilter(q),
            None => KeyAction::Ignore,
        }
    }
}

/// A key while the pin input is open.
pub open spec fn pin_key(v: TableView, key: Seq<char>, key_char: Option<Seq<char>>, modifier: bool) -> KeyAction {
    if modifier {
        KeyAction::Ignore
    } else if key == "enter"@ {
        KeyAction::ConfirmPin
    } else if key == "backspace"@ {
        KeyAction::EditPin(edited_text(v.pin_input.query@, key, key_char)->0)
    } else {
        match key_char {
            Some(ch) => if all_ascii_digits(ch) {
                KeyAction::EditPin(v.pin_input.query@ + ch)
            } else {
                KeyAction::Ignore
            },
            None => KeyAction::Ignore,
        }
    }
}

/// A key while the row filter bar is open.
pub open spec fn row_filter_key(v: TableView, key: Seq<char>, key_char: Option<Seq<char>>, modifier: bool) -> KeyAction {
    if modifier {
        KeyAction::Ignore
    } else if key == "enter"@ {
        KeyAction::CloseRowFilter
    } else {
        match edited_text(v.row_filter.query@, key, key_char) {
            Some(q) => KeyAction::EditRowFilter(q),
            None => KeyAction::Ignore,
        }
    }
}

/// A key while the search bar is open.
pub open spec fn search_key(v: TableView, key: Seq<char>, key_char: Option<Seq<char>>, modifier: bool) -> KeyAction {
    if modifier {
        KeyAction::Ignore
    } else if key == "enter"@ {
        KeyAction::CloseSearch
    } else {
        match edited_text(v.search.query@, key, key_char) {
            Some(q) => KeyAction::EditSearch(q),
            None => KeyAction::Ignore,
        }
    }
}

/// A key when no bar is open and it is not an arrow.
pub open spec fn bar_opening_key(key_char: Option<Seq<char>>, modifier: bool) -> KeyAction {
    if modifier {
        KeyAction::Ignore
    } else {
        match key_char {
            Some(ch) => if ch == "/"@ {
                KeyAction::ToggleSearch
            } else if ch == "*"@ {
                KeyAction::ToggleColumnFilter
            } else if ch == "&"@ {
                KeyAction::ToggleRowFilter
            } else if ch == "f"@ {
                KeyAction::TogglePin
            } else {
                KeyAction::Ignore
            },
            None => KeyAction::Ignore,
        }
    }
}

/// `new` and `res` are what performing `a` on `old` gives.
pub open spec fn applied(old: TableView, new: TableView, res: Refresh, a: KeyAction) -> bool {
    match a {
        KeyAction::Ignore => new == old && res == nothing_to_refresh(),
        KeyAction::Move(dr, dc) => new == (TableView { selected_cell: moved_selection(old, dr, dc).0, ..old })
            && res == moved_selection(old, dr, dc).1,
        KeyAction::CloseColumnFilter => new == col_filter_closed(old) && res == nothing_to_refresh(),
        KeyAction::EditColumnFilter(q) => col_filter_set(old, new, q, res),
        KeyAction::ConfirmPin => pin_confirmed(old, new) && res == nothing_to_refresh(),
        KeyAction::EditPin(q) => pin_query_set(old, new, q) && res == nothing_to_refresh(),
        KeyAction::CloseRowFilter => new == row_filter_closed(old) && res == nothing_to_refresh(),
        KeyAction::EditRowFilter(q) => row_filter_set(old, new, q, res),
        KeyAction::CloseSearch => new == search_closed(old) && res == nothing_to_refresh(),
        KeyAction::EditSearch(q) => search_query_set(old, new, q, res),
        KeyAction::ToggleSearch => new == search_toggled(old) && res == nothing_to_refresh(),
        KeyAction::ToggleColumnFilter => new == col_filter_toggled(old) && res == nothing_to_refresh(),
        KeyAction::ToggleRowFilter => new == row_filter_toggled(old) && res == nothing_to_refresh(),
        KeyAction::TogglePin => pin_input_toggled(old, new, !old.pin_input.active) && res == nothing_to_refresh(),
    }
}

/// Escape closes the innermost open bar (column filter, pin input, row filter, search,
/// in that order), or else clears the selection.
pub open spec fn dismissed(old: TableView, new: TableView, res: Refresh) -> bool {
    if old.col_filter.active {
        new == col_filter_closed(old) && res == nothing_to_refresh()
    } else if old.pin_input.active {
        pin_input_toggled(old, new, false) && res == nothing_to_refresh()
    } else if old.row_filter.active {
        new == row_filter_closed(old) && res == nothing_to_refresh()
    } else if old.search.active {
        new == search_closed(old) && res == nothing_to_refresh()
    } else if old.selected_cell is Some {
        new == (TableView { selected_cell: None, ..old }) && res == (Refresh {
            chart: false,
            stats: true,
            scroll: Scroll::Keep,
        })
    } else {
        new == old && res == nothing_to_refresh()
    }
}

fn all_digits(s: &str) -> (res: bool)
    ensures
        res == all_ascii_digits(s@),
{
    let chars = chars_of(s);
    let mut k: usize = 0;
    while k < chars.len()
        invariant
            k <= chars.len(),
            chars@ == s@,
            forall|j: int| 0 <= j < k ==> '0' <= #[trigger] chars@[j] && chars@[j] <= '9',
        decreases chars.len() - k,
    {
        if !('0' <= chars[k] && chars[k] <= '9') {
            return false;
        }
        k = k + 1;
    }
    true
}

/// The text a key types, as characters.
pub open spec fn key_char_view(key_char: Option<&str>) -> Option<Seq<char>> {
    match key_char {
        Some(c) => Some(c@),
        None => None,
    }
}

impl TableView {
    /// Escape (see `dismissed`).
    pub fn dismiss(&mut self) -> (res: Refresh)
        requires
            old(self).wf(),
        ensures
            final(self).wf(),
            dismissed(*old(self), *final(self), res),
    {
        if self.col_filter.active {
            self.close_col_filter();
            no_refresh()
        } else if self.pin_input.active {
            self.cancel_pin_input();
            no_refresh()
        } else if self.row_filter.active {
            self.close_row_filter();
            no_refresh()
        } else if self.search.active {
            self.close_search();
            no_refresh()
        } else if self.selected_cell.is_some() {
            self.clear_selection()
        } else {
            no_refresh()
        }
    }

    /// The search shortcut: toggles the search bar unless another bar is open.
    pub fn search_shortcut(&mut self)
        ensures
            !old(self).input_active() || old(self).search.active ==> *final(self) == search_toggled(*old(self)),
            old(self).input_active() && !old(self).search.active ==> *final(self) == *old(self),
    {
        if !self.any_input_active() || self.search.active {
            self.toggle_search();
        }
    }

    fn edit_text(current: &String, key: &str, key_char: Option<&str>) -> (res: Option<String>)
        ensures
            match res {
                Some(t) => edited_text(current@, key@, key_char_view(key_char)) == Some(t@),
                None => edited_text(current@, key@, key_char_view(key_char)) is None,
            },
    {
        proof {
            reveal_strlit("backspace");
        }
        if same_text(key, "backspace") {
            let mut q = current.clone();
            pop_char(&mut q);
            Some(q)
        } else {
            match key_char {
                Some(ch) => {
                    let mut q = current.clone();
                    q.append(ch);
                    Some(q)
                },
                None => None,
            }
        }
    }

    fn col_filter_key_press(&mut self, key: &str, key_char: Option<&str>, modifier: bool) -> (res: Refresh)
        requires
            old(self).wf(),
        ensures
            final(self).wf(),
            applied(*old(self), *final(self), res, col_filter_key(*old(self), key@, key_char_view(key_char), modifier)),
    {
        if modifier {
            return no_refresh();
        }
        proof {
            reveal_strlit("enter");
        }
        if same_text(key, "enter") {
            self.close_col_filter();
            return no_refresh();
        }
        match Self::edit_text(&self.col_filter.query, key, key_char) {
            Some(q) => self.set_col_filter_query(q),
            None => no_refresh(),
        }
    }

    fn pin_key_press(&mut self, key: &str, key_char: Option<&str>, modifier: bool) -> (res: Refresh)
        requires
            old(self).wf(),
        ensures
            final(self).wf(),
            applied(*old(self), *final(self), res, pin_key(*old(self), key@, key_char_view(key_char), modifier)),
    {
        if modifier {
            return no_refresh();
        }
        if same_text(key, "enter") {
            self.confirm_pin_input();
            return no_refresh();
        }
        if same_text(key, "backspace") {
            let mut q = self.pin_input.query.clone();
            pop_char(&mut q);
            proof {
                assert(all_ascii_digits(q@)) by {
                    assert forall|i: int| 0 <= i < q@.len() implies '0' <= #[trigger] q@[i] && q@[i] <= '9' by {
                        assert(q@[i] == old(self).pin_input.query@[i]);
                    }
                }
            }
            self.set_pin_query(q);
            return no_refresh();
        }
        match key_char {
            Some(ch) => {
                if all_digits(ch) {
                    let mut q = self.pin_input.query.clone();
                    q.append(ch);
                    proof {
                        let a = old(self).pin_input.query@;
                        assert forall|i: int| 0 <= i < q@.len() implies '0' <= #[trigger] q@[i] && q@[i] <= '9' by {
                            if i < a.len() {
                                assert(q@[i] == a[i]);
                            } else {
                                assert(q@[i] == ch@[i - a.len()]);
                            }
                        }
                    }
                    self.set_pin_query(q);
                }
            },
            None => {},
        }
        no_refresh()
    }

    fn row_filter_key_press(&mut self, key: &str, key_char: Option<&str>, modifier: bool) -> (res: Refresh)
        requires
            old(self).wf(),
        ensures
            final(self).wf(),
            applied(*old(self), *final(self), res, row_filter_key(*old(self), key@, key_char_view(key_char), modifier)),
    {
        if modifier {
            return no_refresh();
        }
        if same_text(key, "enter") {
            self.close_row_filter();
            return no_refresh();
        }
        match Self::edit_text(&self.row_filter.query, key, key_char) {
            Some(q) => self.set_row_filter_query(q),
            None => no_refresh(),
        }
    }

    fn search_key_press(&mut self, key: &str, key_char: Option<&str>, modifier: bool) -> (res: Refresh)
        requires
            old(self).wf(),
        ensures
            final(self).wf(),
            applied(*old(self), *final(self), res, search_key(*old(self), key@, key_char_view(key_char), modifier)),
    {
        if modifier {
            return no_refresh();
        }
        if same_text(key, "enter") {
            self.close_search();
            return no_refresh();
        }
        match Self::edit_text(&self.search.query, key, key_char) {
            Some(q) => self.set_search_query(q),
            None => no_refresh(),
        }
    }

    fn bar_opening_key_press(&mut self, key_char: Option<&str>, modifier: bool) -> (res: Refresh)
        requires
            old(self).wf(),
        ensures
            final(self).wf(),
            applied(*old(self), *final(self), res, bar_opening_key(key_char_view(key_char), modifier)),
    {
        if !modifier {
            if let Some(ch) = key_char {
                if same_text(ch, "/") {
                    self.toggle_search();
                } else if same_text(ch, "*") {
                    self.toggle_col_filter();
                } else if same_text(ch, "&") {
                    self.toggle_row_filter();
                } else if same_text(ch, "f") {
                    self.toggle_pin_input();
                }
            }
        }
        no_refresh()
    }

    /// Handle a key press (see `key_action`).
    pub fn handle_key(&mut self, key: &str, key_char: Option<&str>, platform: bool, control: bool) -> (res: Refresh)
        requires
            old(self).wf(),
        ensures
            final(self).wf(),
            applied(*old(self), *final(self), res, key_action(*old(self), key@, key_char_view(key_char), platform || control)),
    {
        let modifier = platform || control;
        if !modifier && !self.any_input_active() {
            if same_text(key, "up") {
                return self.move_selection(-1, 0);
            }
            if same_text(key, "down") {
                return self.move_selection(1, 0);
            }
            if same_text(key, "left") {
                return self.move_selection(0, -1);
            }
            if same_text(key, "right") {
                return self.move_selection(0, 1);
            }
        }
        if self.col_filter.active {
            self.col_filter_key_press(key, key_char, modifier)
        } else if self.pin_input.active {
            self.pin_key_press(key, key_char, modifier)
        } else if self.row_filter.active {
            self.row_filter_key_press(key, key_char, modifier)
        } else if self.search.active {
            self.search_key_press(key, key_char, modifier)
        } else {
            self.bar_opening_key_press(key_char, modifier)
        }
    }
}

/// Maximum number of points a bar chart draws.
pub const BAR_CHART_POINTS: usize = 100;
/// Maximum number of points a line or scatter chart draws.
pub const LINE_CHART_POINTS: usize = 500;
/// Number of histogram bins.
pub const HISTOGRAM_BINS: usize = 30;

/// What the chart panel draws, in terms of columns of the listed rows; the values
/// themselves are extracted by the caller.
#[derive(Clone, Copy, PartialEq, Eq, Debug)]
pub enum ChartPlan {
    /// The finite numbers of column `col`, downsampled to at most `max`.
    Points { col: usize, max: usize },
    /// A histogram of the finite numbers of column `col` in `bins` bins.
    Bins { col: usize, bins: usize },
    /// Pairs of finite numbers (X from `x_col`, Y from `y_col`), downsampled to at most
    /// `max`.
    Pairs { x_col: usize, y_col: usize, max: usize },
}

/// The chart to draw: nothing while the panel is closed, no row is listed or no column
/// is numeric; otherwise according to the chart kind.
pub open spec fn chart_plan_spec(v: TableView) -> Option<ChartPlan> {
    if !v.chart.active || v.filtered_indices.len() == 0 || numeric_columns_spec(v).len() == 0 {
        None
    } else {
        Some(
            match v.chart.chart_type {
                ChartType::Bar => ChartPlan::Points { col: v.chart.col, max: 100 },
                ChartType::Line => ChartPlan::Points { col: v.chart.col, max: 500 },
                ChartType::Histogram => ChartPlan::Bins { col: v.chart.col, bins: 30 },
                ChartType::Scatter => ChartPlan::Pairs { x_col: v.chart.x_col, y_col: v.chart.col, max: 500 },
            },
        )
    }
}

impl TableView {
    /// What the chart panel draws (see `chart_plan_spec`).
    pub fn chart_plan(&self) -> (res: Option<ChartPlan>)
        ensures
            res == chart_plan_spec(*self),
    {
        if !self.chart.active || self.filtered_indices.len() == 0 {
            return None;
        }
        let nums = self.numeric_col_indices();
        if nums.len() == 0 {
            return None;
        }
        Some(
            match self.chart.chart_type {
                ChartType::Bar => ChartPlan::Points { col: self.chart.col, max: BAR_CHART_POINTS },
                ChartType::Line => ChartPlan::Points { col: self.chart.col, max: LINE_CHART_POINTS },
                ChartType::Histogram => ChartPlan::Bins { col: self.chart.col, bins: HISTOGRAM_BINS },
                ChartType::Scatter => ChartPlan::Pairs {
                    x_col: self.chart.x_col,
                    y_col: self.chart.col,
                    max: LINE_CHART_POINTS,
                },
            },
        )
    }
}

/// Post-state of a new search query `query`.
pub open spec fn search_query_set(old: TableView, new: TableView, query: Seq<char>, res: Refresh) -> bool {
    &&& listing_refreshed(old, new)
    &&& new.search.query@ == query
    &&& new.sort_state == old.sort_state
    &&& new.row_filter.query == old.row_filter.query
    &&& new.row_filter.col == old.row_filter.col
    &&& new.row_filter.pattern == old.row_filter.pattern
    &&& res == relist_refresh(old)
}

/// Post-state of a click on column `col`'s header.
pub open spec fn sort_toggled(old: TableView, new: TableView, col: usize, res: Refresh) -> bool {
    &&& listing_refreshed(old, new)
    &&& new.search.query == old.search.query
    &&& new.sort_state == next_sort_state(old.sort_state, col)
    &&& new.row_filter.query == old.row_filter.query
    &&& new.row_filter.col == old.row_filter.col
    &&& new.row_filter.pattern == old.row_filter.pattern
    &&& res == relist_refresh(old)
}

/// Position of the first `true` at or after `i` (see `first_true_from`).
fn first_true(v: &Vec<bool>, i: usize) -> (res: usize)
    ensures
        res == first_true_from(v@, i as nat),
{
    let mut k = i;
    while k < v.len() && !v[k]
        invariant
            i <= k,
            k <= v.len() || k == i,
            first_true_from(v@, i as nat) == first_true_from(v@, k as nat),
        decreases v.len() - k,
    {
        k = k + 1;
    }
    if k >= v.len() {
        v.len()
    } else {
        k
    }
}

/// The positions `0..n` as a vector.
pub fn positions(n: usize) -> (res: Vec<usize>)
    ensures
        res@ == all_positions(n as int),
{
    let ghost all = all_positions(n as int);
    let mut out: Vec<usize> = Vec::new();
    let mut i: usize = 0;
    while i < n
        invariant
            i <= n,
            all == all_positions(n as int),
            out@ == all.take(i as int),
        decreases n - i,
    {
        proof {
            assert(all.take(i + 1) == all.take(i as int).push(i));
        }
        out.push(i);
        i = i + 1;
    }
    proof {
        assert(all.take(n as int) =~= all);
    }
    out
}

/// The decimal digit character of a value below 10.
pub open spec fn digit_char(d: nat) -> char {
    (('0' as nat) + d) as char
}

/// The decimal representation of a number, without leading zeros.
pub open spec fn decimal_text(n: nat) -> Seq<char>
    decreases n,
{
    if n < 10 {
        seq![digit_char(n)]
    } else {
        decimal_text(n / 10).push(digit_char(n % 10))
    }
}

/// `shown / total unit`, as the input bars and the status line write counts.
pub open spec fn count_text(shown: nat, total: nat, unit: Seq<char>) -> Seq<char> {
    decimal_text(shown) + seq![' ', '/', ' '] + decimal_text(total) + seq![' '] + unit
}

/// The status line: the listed and total rows; then, when some columns are hidden, the
/// visible and total columns; then, when columns are pinned, `f` and how many of the
/// visible ones are; parts separated by two spaces.
pub open spec fn status_line_spec(listed: nat, rows: nat, visible: nat, cols: nat, pinned: nat) -> Seq<char> {
    let shown_pinned = if pinned < visible {
        pinned
    } else {
        visible
    };
    count_text(listed, rows, "rows"@) + (if visible < cols {
        seq![' ', ' '] + count_text(visible, cols, "cols"@)
    } else {
        Seq::empty()
    }) + (if shown_pinned > 0 {
        seq![' ', ' ', 'f'] + decimal_text(shown_pinned)
    } else {
        Seq::empty()
    })
}

fn digit(d: usize) -> (res: char)
    requires
        d < 10,
    ensures
        res == digit_char(d as nat),
{
    let b: u8 = (48 + d) as u8;
    b as char
}

fn push_decimal(out: &mut String, n: usize)
    ensures
        final(out)@ == old(out)@ + decimal_text(n as nat),
    decreases n,
{
    if n >= 10 {
        push_decimal(out, n / 10);
    }
    push_char(out, digit(n % 10));
    proof {
        assert(out@ =~= old(out)@ + decimal_text(n as nat));
    }
}

fn push_text(out: &mut String, text: &str)
    ensures
        final(out)@ == old(out)@ + text@,
{
    out.append(text);
}

/// `shown / total unit`, as the input bars write the rows or columns they keep.
pub fn count_label(shown: usize, total: usize, unit: &str) -> (res: String)
    ensures
        res@ == count_text(shown as nat, total as nat, unit@),
{
    let mut out = String::new();
    push_decimal(&mut out, shown);
    proof {
        reveal_strlit(" / ");
        reveal_strlit(" ");
    }
    push_text(&mut out, " / ");
    push_decimal(&mut out, total);
    push_text(&mut out, " ");
    push_text(&mut out, unit);
    proof {
        assert(out@ =~= count_text(shown as nat, total as nat, unit@));
    }
    out
}

impl TableView {
    /// The status line under the table (see `status_line_spec`).
    pub fn status_text(&self) -> (res: String)
        ensures
            res@ == status_line_spec(
                self.filtered_indices.len() as nat,
                self.table.rows.len() as nat,
                self.visible_col_indices.len() as nat,
                self.table.headers.len() as nat,
                self.pinned_col_count as nat,
            ),
    {
        let visible = self.visible_col_indices.len();
        let cols = self.table.headers.len();
        let pinned = if self.pinned_col_count < visible {
            self.pinned_col_count
        } else {
            visible
        };
        proof {
            reveal_strlit("rows");
            reveal_strlit("cols");
            reveal_strlit("  ");
            reveal_strlit("  f");
        }
        let mut out = count_label(self.filtered_indices.len(), self.table.rows.len(), "rows");
        if visible < cols {
            push_text(&mut out, "  ");
            let part = count_label(visible, cols, "cols");
            push_text(&mut out, part.as_str());
        }
        if pinned > 0 {
            push_text(&mut out, "  f");
            push_decimal(&mut out, pinned);
        }
        proof {
            assert(out@ =~= status_line_spec(
                self.filtered_indices.len() as nat,
                self.table.rows.len() as nat,
                visible as nat,
                cols as nat,
                self.pinned_col_count as nat,
            ));
        }
        out
    }
}

} // verus!
