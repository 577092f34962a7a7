//! Properties of the viewer that hold across inputs and across actions.
use vstd::prelude::*;

use crate::compute::{
    all_positions, cell_or_empty, column_filter_spec, filled_count, find_char_from, find_header_from,
    is_numeric_column, number_count, row_has_text, search_result,
};
use crate::export::{concat, existing_rows, markdown_export, markdown_line, visible_cells, is_control, json_escape, json_escape_char, markdown_escape, markdown_escape_char};
use crate::layout::{column_width_for, content_chars, decimal_digits, longest_cell, row_number_width_spec, WIDTH_SAMPLE_ROWS};
use crate::text::uppercase;
use crate::number::{ascii_lower_text, digits_end, is_digit, is_float_text, is_number_text, is_sign};
use crate::text::ascii_fold;
use crate::text::{contains_text, eq_ignore_ascii_case, lowercase, occurs_at};
use crate::compute::{row_filter_result, row_passes, sort_keys, sorted_by_column, total_order_key_spec};
use crate::pattern::pattern_matches;
use crate::data::{is_descending, SortDirection};
use crate::order::{is_stable_order, lemma_lex_asymmetric, lemma_lex_irreflexive, lemma_precedes_asymmetric, lex_lt, precedes, strictly_ordered};
use crate::text::{char_codes, lemma_codes_text_le, text_le};
use crate::json::{exported_table, lemma_json_object_text, lemma_read_quoted, lemma_read_table, object_texts, read_json_string, read_json_table, row_pairs, skip_ws};
use crate::export::{json_export, json_object};
use crate::view::{next_sort_state, pin_count_spec, search_toggled, TableView};

verus! {

/// Three clicks on the same header bring its sort back to where it was, whether the
/// table was unsorted or sorted by that column.
pub proof fn sort_clicks_cycle(s: Option<(usize, crate::data::SortDirection)>, col: usize)
    requires
        s matches Some((c, _)) ==> c == col,
    ensures
        next_sort_state(next_sort_state(next_sort_state(s, col), col), col) == s,
{
}

/// Opening and then closing the search bar (or the reverse) leaves the view as it was.
pub proof fn search_toggle_twice(v: TableView)
    ensures
        search_toggled(search_toggled(v)) == v,
{
}

/// An empty search lists every row, in table order.
pub proof fn empty_search_lists_all(rows: Seq<Seq<Seq<char>>>, query: Seq<char>)
    requires
        query.len() == 0,
    ensures
        search_result(rows, query) == all_positions(rows.len() as int),
{
}

/// The search ignores case: two non-empty queries with the same lowercase form list the
/// same rows.
pub proof fn search_ignores_case(rows: Seq<Seq<Seq<char>>>, q1: Seq<char>, q2: Seq<char>)
    requires
        q1.len() > 0,
        q2.len() > 0,
        lowercase(q1) == lowercase(q2),
    ensures
        search_result(rows, q1) == search_result(rows, q2),
{
}

/// Every row a non-empty search lists exists and has a cell whose lowercase form
/// contains the lowercase query.
pub proof fn search_lists_only_matches(rows: Seq<Seq<Seq<char>>>, query: Seq<char>, k: int)
    requires
        query.len() > 0,
        0 <= k < search_result(rows, query).len(),
    ensures
        search_result(rows, query)[k] < rows.len(),
        row_has_text(rows[search_result(rows, query)[k] as int], lowercase(query)),
{
    let pred = |i: usize| row_has_text(rows[i as int], lowercase(query));
    let all = all_positions(rows.len() as int);
    all.lemma_filter_pred(pred, k);
    crate::compute::lemma_filter_bounded(all, pred, rows.len() as int);
}

/// Typing more into the search never brings rows back: when the lowercase form of the
/// earlier query `q1` occurs in that of the later query `q2`, every row `q2` lists is also
/// listed by `q1`. The lowercase form of each query is empty exactly when the query is,
/// as `to_lowercase` states of every text it is given.
pub proof fn longer_search_lists_no_new_rows(rows: Seq<Seq<Seq<char>>>, q1: Seq<char>, q2: Seq<char>, k: int)
    requires
        lowercase(q1).len() == 0 <==> q1.len() == 0,
        lowercase(q2).len() == 0 <==> q2.len() == 0,
        contains_text(lowercase(q2), lowercase(q1)),
        0 <= k < search_result(rows, q2).len(),
    ensures
        search_result(rows, q1).contains(search_result(rows, q2)[k]),
{
    let n = rows.len() as int;
    let all = all_positions(n);
    let l1 = lowercase(q1);
    let l2 = lowercase(q2);
    if q2.len() == 0 {
        let m = choose|m: int| #[trigger] occurs_at(l2, l1, m);
        assert(l1.len() == 0);
        let i = search_result(rows, q2)[k];
        assert(all[k] == i);
        assert(search_result(rows, q1) == all);
    } else {
        let pred2 = |i: usize| row_has_text(rows[i as int], l2);
        let pred1 = |i: usize| row_has_text(rows[i as int], l1);
        all.lemma_filter_pred(pred2, k);
        crate::compute::lemma_filter_bounded(all, pred2, n);
        let i = search_result(rows, q2)[k];
        assert(all[i as int] == i);
        if q1.len() > 0 {
            let c = choose|c: int| 0 <= c < rows[i as int].len() && contains_text(lowercase(#[trigger] rows[i as int][c]), l2);
            let cell = lowercase(rows[i as int][c]);
            let p = choose|p: int| #[trigger] occurs_at(cell, l2, p);
            let m = choose|m: int| #[trigger] occurs_at(l2, l1, m);
            assert(cell.subrange(p + m, p + m + l1.len()) =~= l2.subrange(m, m + l1.len()));
            assert(occurs_at(cell, l1, p + m));
            assert(pred1(i));
            all.lemma_filter_contains(pred1, i as int);
        }
    }
}

/// Column widths stay within 50..=400 px and grow with the content.
pub proof fn column_width_bounded_and_monotone(n1: nat, n2: nat)
    ensures
        100 <= column_width_for(n1) <= 800,
        n1 <= n2 ==> column_width_for(n1) <= column_width_for(n2),
{
}

proof fn lemma_digits_monotone(a: nat, b: nat)
    requires
        a <= b,
    ensures
        decimal_digits(a) <= decimal_digits(b),
    decreases b,
{
    if a >= 10 {
        lemma_digits_monotone(a / 10, b / 10);
    }
}

/// The row-number column is at least 40 px wide and never narrows as rows are added.
pub proof fn row_number_width_monotone(a: nat, b: nat)
    requires
        a <= usize::MAX,
        b <= usize::MAX,
    ensures
        row_number_width_spec(a) >= 80,
        a <= b ==> row_number_width_spec(a) <= row_number_width_spec(b),
{
    crate::layout::lemma_digits_bounded(a);
    crate::layout::lemma_digits_bounded(b);
    if a <= b {
        lemma_digits_monotone(a, b);
    }
}

proof fn lemma_counts_equal_when_all_numeric(rows: Seq<Seq<Seq<char>>>, col: int)
    requires
        forall|i: int|
            0 <= i < rows.len() && (#[trigger] cell_or_empty(rows[i], col)).len() > 0 ==> is_float_text(
                cell_or_empty(rows[i], col),
            ),
    ensures
        number_count(rows, col) == filled_count(rows, col),
    decreases rows.len(),
{
    if rows.len() > 0 {
        let prefix = rows.drop_last();
        assert forall|i: int|
            0 <= i < prefix.len() && (#[trigger] cell_or_empty(prefix[i], col)).len() > 0 implies is_float_text(
            cell_or_empty(prefix[i], col),
        ) by {
            assert(prefix[i] == rows[i]);
        }
        lemma_counts_equal_when_all_numeric(prefix, col);
        assert(rows.last() == rows[rows.len() - 1]);
    }
}

/// A column whose non-empty cells all parse as numbers, with at least one such cell, is
/// numeric.
pub proof fn all_number_column_is_numeric(rows: Seq<Seq<Seq<char>>>, col: int)
    requires
        forall|i: int|
            0 <= i < rows.len() && (#[trigger] cell_or_empty(rows[i], col)).len() > 0 ==> is_float_text(
                cell_or_empty(rows[i], col),
            ),
        filled_count(rows, col) > 0,
    ensures
        is_numeric_column(rows, col),
{
    lemma_counts_equal_when_all_numeric(rows, col);
}

/// The pin input never pins more columns than are visible.
pub proof fn pin_count_at_most_visible(query: Seq<char>, visible: nat)
    requires
        visible <= usize::MAX,
    ensures
        pin_count_spec(query, visible) <= visible,
{
}

proof fn lemma_json_escape_char_no_control(c: char)
    ensures
        forall|i: int| 0 <= i < json_escape_char(c).len() ==> !is_control(#[trigger] json_escape_char(c)[i]),
{
    if is_control(c) && c != '\n' && c != '\r' && c != '\t' {
        let v = c as u32;
        assert(v <= 0x9F);
        assert(((v / 4096) % 16) as u32 <= 15);
        assert(((v / 256) % 16) as u32 <= 15);
        assert(((v / 16) % 16) as u32 <= 15);
        assert((v % 16) as u32 <= 15);
    }
}

/// A JSON-escaped text holds no control character: all of them are written as escapes.
pub proof fn json_escape_has_no_control_chars(s: Seq<char>)
    ensures
        forall|i: int| 0 <= i < json_escape(s).len() ==> !is_control(#[trigger] json_escape(s)[i]),
    decreases s.len(),
{
    if s.len() > 0 {
        json_escape_has_no_control_chars(s.drop_last());
        lemma_json_escape_char_no_control(s.last());
        let a = json_escape(s.drop_last());
        let b = json_escape_char(s.last());
        assert forall|i: int| 0 <= i < json_escape(s).len() implies !is_control(#[trigger] json_escape(s)[i]) by {
            if i < a.len() {
                assert(json_escape(s)[i] == a[i]);
            } else {
                assert(json_escape(s)[i] == b[i - a.len()]);
            }
        }
    }
}

/// A JSON-escaped text between double quotes reads back, as a JSON string, as the text
/// itself, with nothing left over.
pub proof fn json_escaped_string_reads_back(s: Seq<char>)
    ensures
        read_json_string(seq!['"'] + json_escape(s) + seq!['"']) == Some((s, Seq::<char>::empty())),
{
    lemma_read_quoted(s, Seq::empty());
    assert(seq!['"'] + json_escape(s) + seq!['"'] + Seq::<char>::empty() =~= seq!['"'] + json_escape(s) + seq!['"']);
}

/// With at least one visible column, the JSON export reads back, as JSON, as an array
/// with one object per listed row that exists, in listing order; each object holds the
/// visible columns in order, keyed by their headers, with the row's cell texts (empty
/// where the row is short) as string values.
pub proof fn json_export_reads_back(
    headers: Seq<Seq<char>>,
    rows: Seq<Seq<Seq<char>>>,
    filtered: Seq<usize>,
    cols: Seq<usize>,
)
    requires
        cols.len() > 0,
    ensures
        read_json_table(json_export(headers, rows, filtered, cols)) == Some(exported_table(headers, rows, filtered, cols)),
{
    let ex = existing_rows(rows, filtered);
    let objs = exported_table(headers, rows, filtered, cols);
    let objects = ex.map_values(|i: usize| json_object(headers, rows[i as int], cols));
    assert forall|k: int| 0 <= k < ex.len() implies #[trigger] objects[k] == object_texts(objs)[k] by {
        lemma_json_object_text(headers, rows[ex[k] as int], cols);
    }
    assert(objects =~= object_texts(objs));
    if ex.len() == 0 {
        reveal(read_json_table);
        let t = seq!['[', ']', '\n'];
        assert(json_export(headers, rows, filtered, cols) == t);
        assert(skip_ws(t) == t);
        let r1 = seq![']', '\n'];
        assert(t.drop_first() =~= r1);
        assert(skip_ws(r1) == r1);
        assert(r1.drop_first() =~= seq!['\n']);
        assert(seq!['\n'].drop_first() =~= Seq::<char>::empty());
        assert(skip_ws(seq!['\n']) == skip_ws(Seq::<char>::empty()));
        assert(objs =~= Seq::<Seq<(Seq<char>, Seq<char>)>>::empty());
    } else {
        assert forall|i: int| 0 <= i < objs.len() implies #[trigger] objs[i].len() > 0 by {
            assert(objs[i] == row_pairs(headers, rows[ex[i] as int], cols));
        }
        lemma_read_table(objs);
    }
}

/// A Markdown-escaped cell holds no line break, and every '|' in it is escaped by a
/// preceding backslash, so the cell cannot break the table's row.
pub proof fn markdown_escape_keeps_cell_on_its_row(s: Seq<char>)
    ensures
        forall|i: int|
            0 <= i < markdown_escape(s).len() ==> #[trigger] markdown_escape(s)[i] != '\n'
                && markdown_escape(s)[i] != '\r',
        forall|i: int|
            0 <= i < markdown_escape(s).len() && #[trigger] markdown_escape(s)[i] == '|' ==> i > 0
                && markdown_escape(s)[i - 1] == '\\',
    decreases s.len(),
{
    if s.len() > 0 {
        markdown_escape_keeps_cell_on_its_row(s.drop_last());
        let a = markdown_escape(s.drop_last());
        let b = markdown_escape_char(s.last());
        let m = markdown_escape(s);
        assert(m == a + b);
        assert forall|i: int| 0 <= i < m.len() implies #[trigger] m[i] != '\n' && m[i] != '\r' by {
            if i < a.len() {
                assert(m[i] == a[i]);
            } else {
                assert(m[i] == b[i - a.len()]);
            }
        }
        assert forall|i: int| 0 <= i < m.len() && #[trigger] m[i] == '|' implies i > 0 && m[i - 1] == '\\' by {
            if i < a.len() {
                assert(m[i] == a[i]);
                assert(m[i - 1] == a[i - 1]);
            } else {
                assert(m[i] == b[i - a.len()]);
                if s.last() == '|' {
                    assert(i - a.len() == 1);
                    assert(m[i - 1] == b[0]);
                }
            }
        }
    }
}

proof fn lemma_find_char(s: Seq<char>, c: char, i: nat)
    ensures
        i <= find_char_from(s, c, i) || find_char_from(s, c, i) == s.len(),
        find_char_from(s, c, i) <= s.len() || i > s.len(),
        find_char_from(s, c, i) < s.len() ==> s[find_char_from(s, c, i) as int] == c,
    decreases s.len() - i,
{
    if i < s.len() && s[i as int] != c {
        lemma_find_char(s, c, i + 1);
    }
}

proof fn lemma_find_header(headers: Seq<Seq<char>>, name: Seq<char>, i: nat)
    ensures
        find_header_from(headers, name, i) < headers.len() ==> eq_ignore_ascii_case(
            headers[find_header_from(headers, name, i) as int],
            name,
        ),
    decreases headers.len() - i,
{
    if i < headers.len() && !eq_ignore_ascii_case(headers[i as int], name) {
        lemma_find_header(headers, name, i + 1);
    }
}

/// When a row filter query names a column, it reads back as that column's header (up to
/// ASCII case), a ':' and the pattern; otherwise the whole query is the pattern.
pub proof fn column_filter_reads_back(query: Seq<char>, headers: Seq<Seq<char>>)
    requires
        headers.len() <= usize::MAX,
    ensures
        column_filter_spec(query, headers).0 matches Some(c) ==> {
            let k = find_char_from(query, ':', 0);
            &&& c < headers.len()
            &&& eq_ignore_ascii_case(headers[c as int], query.take(k as int))
            &&& query == query.take(k as int) + seq![':'] + column_filter_spec(query, headers).1
        },
        column_filter_spec(query, headers).0 is None ==> column_filter_spec(query, headers).1 == query,
{
    let k = find_char_from(query, ':', 0);
    lemma_find_char(query, ':', 0);
    if k < query.len() {
        lemma_find_header(headers, query.take(k as int), 0);
        assert(query =~= query.take(k as int) + seq![':'] + query.skip((k + 1) as int));
    }
}

proof fn lemma_strict_order_unique(a: Seq<usize>, b: Seq<usize>, keys: Seq<Seq<u64>>, descending: bool)
    requires
        a.len() == b.len(),
        strictly_ordered(a, keys, descending),
        strictly_ordered(b, keys, descending),
        forall|k: int| 0 <= k < a.len() ==> b.contains(#[trigger] a[k]),
        forall|k: int| 0 <= k < b.len() ==> a.contains(#[trigger] b[k]),
    ensures
        a == b,
    decreases a.len(),
{
    if a.len() > 0 {
        if a[0] != b[0] {
            assert(b.contains(a[0]));
            let j = choose|j: int| 0 <= j < b.len() && b[j] == a[0];
            assert(precedes(keys, descending, b[0] as int, b[j] as int));
            assert(a.contains(b[0]));
            let i = choose|i: int| 0 <= i < a.len() && a[i] == b[0];
            assert(precedes(keys, descending, a[0] as int, a[i] as int));
            lemma_precedes_asymmetric(keys, descending, a[0] as int, b[0] as int);
        }
        let a1 = a.drop_first();
        let b1 = b.drop_first();
        assert forall|i: int, j: int| 0 <= i < j < a1.len() implies #[trigger] precedes(
            keys,
            descending,
            a1[i] as int,
            a1[j] as int,
        ) by {
            assert(precedes(keys, descending, a[i + 1] as int, a[j + 1] as int));
        }
        assert forall|i: int, j: int| 0 <= i < j < b1.len() implies #[trigger] precedes(
            keys,
            descending,
            b1[i] as int,
            b1[j] as int,
        ) by {
            assert(precedes(keys, descending, b[i + 1] as int, b[j + 1] as int));
        }
        assert forall|k: int| 0 <= k < a1.len() implies b1.contains(#[trigger] a1[k]) by {
            let x = a1[k];
            assert(x == a[k + 1]);
            assert(precedes(keys, descending, a[0] as int, a[k + 1] as int));
            lemma_precedes_asymmetric(keys, descending, a[0] as int, a[k + 1] as int);
            assert(b.contains(x));
            let j = choose|j: int| 0 <= j < b.len() && b[j] == x;
            assert(j != 0);
            assert(b1[j - 1] == x);
        }
        assert forall|k: int| 0 <= k < b1.len() implies a1.contains(#[trigger] b1[k]) by {
            let x = b1[k];
            assert(x == b[k + 1]);
            assert(precedes(keys, descending, b[0] as int, b[k + 1] as int));
            lemma_precedes_asymmetric(keys, descending, b[0] as int, b[k + 1] as int);
            assert(a.contains(x));
            let i = choose|i: int| 0 <= i < a.len() && a[i] == x;
            assert(i != 0);
            assert(a1[i - 1] == x);
        }
        lemma_strict_order_unique(a1, b1, keys, descending);
        assert(a =~= seq![a[0]] + a1);
        assert(b =~= seq![b[0]] + b1);
    }
}

/// Sorting lists each listed row exactly once: with distinct indices, the sorted
/// listing has the same entries, none repeated.
pub proof fn sort_lists_each_row_once(
    res: Seq<usize>,
    rows: Seq<Seq<Seq<char>>>,
    indices: Seq<usize>,
    col: int,
    numeric_bits: Option<Seq<u64>>,
    direction: SortDirection,
)
    requires
        sorted_by_column(res, rows, indices, col, numeric_bits, direction),
        indices.no_duplicates(),
        indices.len() <= usize::MAX,
    ensures
        res.len() == indices.len(),
        res.no_duplicates(),
        forall|x: usize| res.contains(x) <==> indices.contains(x),
{
    let keys = sort_keys(rows, indices, col, numeric_bits);
    let d = is_descending(direction);
    let perm = choose|perm: Seq<usize>|
        #[trigger] is_stable_order(perm, keys, d) && res == perm.map_values(|p: usize| indices[p as int]);
    assert forall|i: int, j: int| 0 <= i < res.len() && 0 <= j < res.len() && i != j implies res[i] != res[j] by {
        let (lo, hi) = if i < j {
            (i, j)
        } else {
            (j, i)
        };
        assert(precedes(keys, d, perm[lo] as int, perm[hi] as int));
        lemma_precedes_asymmetric(keys, d, perm[lo] as int, perm[hi] as int);
        assert(perm[lo] < keys.len() && perm[hi] < keys.len());
    }
    assert forall|x: usize| res.contains(x) <==> indices.contains(x) by {
        if res.contains(x) {
            let k = choose|k: int| 0 <= k < res.len() && res[k] == x;
            assert(perm[k] < keys.len());
            assert(indices[perm[k] as int] == x);
        }
        if indices.contains(x) {
            let p = choose|p: int| 0 <= p < indices.len() && indices[p] == x;
            assert(perm.contains(p as usize));
            let k = choose|k: int| 0 <= k < perm.len() && perm[k] == p as usize;
            assert(res[k] == indices[perm[k] as int]);
            assert(res[k] == x);
        }
    }
}

/// When the sort keys of the listed rows are all different, sorting descending lists
/// them in exactly the reverse of the ascending order.
pub proof fn descending_reverses_ascending(
    asc: Seq<usize>,
    desc: Seq<usize>,
    rows: Seq<Seq<Seq<char>>>,
    indices: Seq<usize>,
    col: int,
    numeric_bits: Option<Seq<u64>>,
)
    requires
        sorted_by_column(asc, rows, indices, col, numeric_bits, SortDirection::Ascending),
        sorted_by_column(desc, rows, indices, col, numeric_bits, SortDirection::Descending),
        forall|p: int, q: int|
            0 <= p < indices.len() && 0 <= q < indices.len() && p != q ==> #[trigger] sort_keys(
                rows,
                indices,
                col,
                numeric_bits,
            )[p] != #[trigger] sort_keys(rows, indices, col, numeric_bits)[q],
    ensures
        desc == asc.reverse(),
{
    let keys = sort_keys(rows, indices, col, numeric_bits);
    let pa = choose|perm: Seq<usize>|
        #[trigger] is_stable_order(perm, keys, false) && asc == perm.map_values(|p: usize| indices[p as int]);
    let pd = choose|perm: Seq<usize>|
        #[trigger] is_stable_order(perm, keys, true) && desc == perm.map_values(|p: usize| indices[p as int]);
    let n = pa.len() as int;
    let rev = pa.reverse();
    assert forall|i: int, j: int| 0 <= i < j < rev.len() implies #[trigger] precedes(
        keys,
        true,
        rev[i] as int,
        rev[j] as int,
    ) by {
        assert(rev[i] == pa[n - 1 - i]);
        assert(rev[j] == pa[n - 1 - j]);
        assert(precedes(keys, false, pa[n - 1 - j] as int, pa[n - 1 - i] as int));
        lemma_precedes_asymmetric(keys, false, pa[n - 1 - j] as int, pa[n - 1 - i] as int);
        assert(pa[n - 1 - j] < keys.len() && pa[n - 1 - i] < keys.len());
        assert(keys[pa[n - 1 - j] as int] != keys[pa[n - 1 - i] as int]);
    }
    assert forall|k: int| 0 <= k < rev.len() implies pd.contains(#[trigger] rev[k]) by {
        assert(rev[k] == pa[n - 1 - k]);
        assert(pd.contains(pa[n - 1 - k]));
    }
    assert forall|k: int| 0 <= k < pd.len() implies rev.contains(#[trigger] pd[k]) by {
        assert(pd[k] < keys.len());
        assert(pa.contains(pd[k]));
        let i = choose|i: int| 0 <= i < pa.len() && pa[i] == pd[k];
        assert(rev[n - 1 - i] == pd[k]);
    }
    lemma_strict_order_unique(rev, pd, keys, true);
    assert(desc =~= asc.reverse());
}

/// Number of line breaks in a text.
pub open spec fn line_breaks(s: Seq<char>) -> nat {
    s.filter(|c: char| c == '\n').len()
}

proof fn lemma_line_breaks_add(a: Seq<char>, b: Seq<char>)
    ensures
        line_breaks(a + b) == line_breaks(a) + line_breaks(b),
{
    Seq::filter_distributes_over_add(a, b, |c: char| c == '\n');
}

proof fn lemma_no_line_breaks(s: Seq<char>)
    requires
        forall|i: int| 0 <= i < s.len() ==> #[trigger] s[i] != '\n',
    ensures
        line_breaks(s) == 0,
    decreases s.len(),
{
    reveal(Seq::filter);
    if s.len() > 0 {
        lemma_no_line_breaks(s.drop_last());
    }
}

proof fn lemma_one_line_break()
    ensures
        line_breaks(seq!['\n']) == 1,
{
    reveal_with_fuel(Seq::filter, 2);
    assert(seq!['\n'].drop_last() =~= Seq::<char>::empty());
}

proof fn lemma_concat_line_breaks_zero(parts: Seq<Seq<char>>)
    requires
        forall|k: int| 0 <= k < parts.len() ==> line_breaks(#[trigger] parts[k]) == 0,
    ensures
        line_breaks(concat(parts)) == 0,
    decreases parts.len(),
{
    if parts.len() == 0 {
        reveal(Seq::filter);
    } else {
        lemma_concat_line_breaks_zero(parts.drop_last());
        lemma_line_breaks_add(concat(parts.drop_last()), parts.last());
    }
}

proof fn lemma_concat_line_breaks_one(parts: Seq<Seq<char>>)
    requires
        forall|k: int| 0 <= k < parts.len() ==> line_breaks(#[trigger] parts[k]) == 1,
    ensures
        line_breaks(concat(parts)) == parts.len(),
    decreases parts.len(),
{
    if parts.len() == 0 {
        reveal(Seq::filter);
    } else {
        lemma_concat_line_breaks_one(parts.drop_last());
        lemma_line_breaks_add(concat(parts.drop_last()), parts.last());
    }
}

proof fn lemma_markdown_line_one_break(cells: Seq<Seq<char>>)
    ensures
        line_breaks(markdown_line(cells)) == 1,
{
    let parts = cells.map_values(|t: Seq<char>| seq![' '] + markdown_escape(t) + seq![' ', '|']);
    assert forall|k: int| 0 <= k < parts.len() implies line_breaks(#[trigger] parts[k]) == 0 by {
        let t = cells[k];
        markdown_escape_keeps_cell_on_its_row(t);
        let p = seq![' '] + markdown_escape(t) + seq![' ', '|'];
        assert(parts[k] == p);
        assert forall|i: int| 0 <= i < p.len() implies #[trigger] p[i] != '\n' by {
            if 1 <= i < 1 + markdown_escape(t).len() {
                assert(p[i] == markdown_escape(t)[i - 1]);
            }
        }
        lemma_no_line_breaks(p);
    }
    lemma_concat_line_breaks_zero(parts);
    lemma_no_line_breaks(seq!['|']);
    lemma_one_line_break();
    lemma_line_breaks_add(seq!['|'], concat(parts));
    lemma_line_breaks_add(seq!['|'] + concat(parts), seq!['\n']);
}

/// The Markdown export is one line per listed row that exists, after the header and
/// separator lines: cell texts never add line breaks.
pub proof fn markdown_export_line_count(
    headers: Seq<Seq<char>>,
    rows: Seq<Seq<Seq<char>>>,
    filtered: Seq<usize>,
    cols: Seq<usize>,
)
    requires
        cols.len() > 0,
    ensures
        line_breaks(markdown_export(headers, rows, filtered, cols)) == 2 + existing_rows(rows, filtered).len(),
{
    let head = markdown_line(visible_cells(headers, cols));
    let seps = cols.map_values(|c: usize| seq![' ', '-', '-', '-', ' ', '|']);
    let lines = existing_rows(rows, filtered).map_values(
        |i: usize| markdown_line(visible_cells(rows[i as int], cols)),
    );
    lemma_markdown_line_one_break(visible_cells(headers, cols));
    assert forall|k: int| 0 <= k < seps.len() implies line_breaks(#[trigger] seps[k]) == 0 by {
        lemma_no_line_breaks(seps[k]);
    }
    lemma_concat_line_breaks_zero(seps);
    assert forall|k: int| 0 <= k < lines.len() implies line_breaks(#[trigger] lines[k]) == 1 by {
        lemma_markdown_line_one_break(visible_cells(rows[existing_rows(rows, filtered)[k] as int], cols));
    }
    lemma_concat_line_breaks_one(lines);
    lemma_no_line_breaks(seq!['|']);
    lemma_one_line_break();
    lemma_line_breaks_add(head, seq!['|']);
    lemma_line_breaks_add(head + seq!['|'], concat(seps));
    lemma_line_breaks_add(head + seq!['|'] + concat(seps), seq!['\n']);
    lemma_line_breaks_add(head + seq!['|'] + concat(seps) + seq!['\n'], concat(lines));
}

/// With no search query, no row filter pattern and no sort, the view lists every row
/// in table order.
pub proof fn cleared_view_lists_every_row(v: TableView)
    requires
        v.lists(v.filtered_indices@),
        v.search.query@.len() == 0,
        v.row_filter.pattern@.len() == 0,
        v.sort_state is None,
    ensures
        v.filtered_indices@ == all_positions(v.table.rows.len() as int),
{
}

/// Sorting a text column compares whole cell texts: in an ascending sort, each listed row's
/// cell comes no later, in string order, than the cell of any row listed after it; in a
/// descending sort, no earlier.
pub proof fn text_sort_orders_whole_cells(
    res: Seq<usize>,
    rows: Seq<Seq<Seq<char>>>,
    indices: Seq<usize>,
    col: int,
    direction: SortDirection,
    a: int,
    b: int,
)
    requires
        forall|p: int| 0 <= p < indices.len() ==> #[trigger] indices[p] < rows.len(),
        sorted_by_column(res, rows, indices, col, None, direction),
        0 <= a < b < res.len(),
    ensures
        direction == SortDirection::Ascending ==> text_le(
            cell_or_empty(rows[res[a] as int], col),
            cell_or_empty(rows[res[b] as int], col),
        ),
        direction == SortDirection::Descending ==> text_le(
            cell_or_empty(rows[res[b] as int], col),
            cell_or_empty(rows[res[a] as int], col),
        ),
{
    let keys = sort_keys(rows, indices, col, None);
    let desc = is_descending(direction);
    let perm = choose|perm: Seq<usize>|
        #[trigger] is_stable_order(perm, keys, desc) && res == perm.map_values(|p: usize| indices[p as int]);
    let p = perm[a] as int;
    let q = perm[b] as int;
    assert(precedes(keys, desc, p, q));
    assert(res[a] == indices[p] && res[b] == indices[q]);
    let ca = cell_or_empty(rows[res[a] as int], col);
    let cb = cell_or_empty(rows[res[b] as int], col);
    assert(keys[p] == char_codes(ca));
    assert(keys[q] == char_codes(cb));
    if desc {
        if lex_lt(keys[p], keys[q]) {
            if lex_lt(keys[q], keys[p]) {
                lemma_lex_asymmetric(keys[q], keys[p]);
            } else {
                lemma_lex_irreflexive(keys[p]);
            }
        }
        lemma_codes_text_le(cb, ca);
    } else {
        if lex_lt(keys[q], keys[p]) {
            if lex_lt(keys[p], keys[q]) {
                lemma_lex_asymmetric(keys[p], keys[q]);
            } else {
                lemma_lex_irreflexive(keys[q]);
            }
        }
        lemma_codes_text_le(ca, cb);
    }
}

/// The total order of doubles, read on their bit patterns: a pattern with the sign bit set
/// (a negative value) comes before one without; among patterns without it the smaller
/// comes first, among patterns with it the larger (the larger magnitude) comes first.
pub open spec fn double_bits_le(x: u64, y: u64) -> bool {
    let neg_x = x >= 0x8000_0000_0000_0000u64;
    let neg_y = y >= 0x8000_0000_0000_0000u64;
    if neg_x && !neg_y {
        true
    } else if !neg_x && neg_y {
        false
    } else if !neg_x {
        x <= y
    } else {
        y <= x
    }
}

/// Sorting a numeric column orders the rows by the total order of their doubles: in an
/// ascending sort each listed row's value comes no later than that of any row listed after
/// it; in a descending sort, no earlier.
pub proof fn numeric_sort_orders_doubles(
    res: Seq<usize>,
    rows: Seq<Seq<Seq<char>>>,
    indices: Seq<usize>,
    col: int,
    bits: Seq<u64>,
    direction: SortDirection,
    a: int,
    b: int,
)
    requires
        forall|p: int| 0 <= p < indices.len() ==> #[trigger] indices[p] < bits.len(),
        sorted_by_column(res, rows, indices, col, Some(bits), direction),
        0 <= a < b < res.len(),
    ensures
        direction == SortDirection::Ascending ==> double_bits_le(bits[res[a] as int], bits[res[b] as int]),
        direction == SortDirection::Descending ==> double_bits_le(bits[res[b] as int], bits[res[a] as int]),
{
    let keys = sort_keys(rows, indices, col, Some(bits));
    let desc = is_descending(direction);
    let perm = choose|perm: Seq<usize>|
        #[trigger] is_stable_order(perm, keys, desc) && res == perm.map_values(|p: usize| indices[p as int]);
    let p = perm[a] as int;
    let q = perm[b] as int;
    assert(precedes(keys, desc, p, q));
    assert(res[a] == indices[p] && res[b] == indices[q]);
    let x = bits[res[a] as int];
    let y = bits[res[b] as int];
    let kx = total_order_key_spec(x);
    let ky = total_order_key_spec(y);
    assert(keys[p] == seq![kx]);
    assert(keys[q] == seq![ky]);
    assert(seq![kx].drop_first() =~= Seq::<u64>::empty());
    assert(seq![ky].drop_first() =~= Seq::<u64>::empty());
    if desc {
        assert(ky <= kx);
    } else {
        assert(kx <= ky);
    }
}

/// A row filter with a non-empty pattern keeps exactly those listed rows that exist and
/// have a cell the pattern matches: any cell of the row when no column is named, the cell
/// in the named column (when the row has one) otherwise.
pub proof fn row_filter_keeps_rows_with_a_matching_cell(
    rows: Seq<Seq<Seq<char>>>,
    indices: Seq<usize>,
    pattern: Seq<char>,
    target_col: Option<usize>,
    i: usize,
)
    requires
        pattern.len() > 0,
    ensures
        row_filter_result(rows, indices, pattern, target_col).contains(i) <==> {
            &&& indices.contains(i)
            &&& (i as int) < rows.len()
            &&& match target_col {
                None => exists|c: int| 0 <= c < rows[i as int].len() && pattern_matches(pattern, #[trigger] rows[i as int][c]),
                Some(t) => (t as int) < rows[i as int].len() && pattern_matches(pattern, rows[i as int][t as int]),
            }
        },
{
    let pred = |j: usize| row_passes(rows, j as int, pattern, target_col);
    let kept = indices.filter(pred);
    assert(row_filter_result(rows, indices, pattern, target_col) == kept);
    if kept.contains(i) {
        let k = choose|k: int| 0 <= k < kept.len() && kept[k] == i;
        indices.lemma_filter_pred(pred, k);
        indices.lemma_filter_contains_rev(pred, i);
    }
    if indices.contains(i) && pred(i) {
        let k = choose|k: int| 0 <= k < indices.len() && indices[k] == i;
        indices.lemma_filter_contains(pred, k);
    }
}

/// The digits run from `i` up to `digits_end(s, i)`, which stops at the end of the text or
/// at the first character that is not a digit.
proof fn lemma_digits_end_run(s: Seq<char>, i: int)
    requires
        0 <= i <= s.len(),
    ensures
        i <= digits_end(s, i) <= s.len(),
        forall|k: int| i <= k < digits_end(s, i) ==> is_digit(#[trigger] s[k]),
        digits_end(s, i) < s.len() ==> !is_digit(s[digits_end(s, i)]),
    decreases s.len() - i,
{
    if i < s.len() && is_digit(s[i]) {
        lemma_digits_end_run(s, i + 1);
    }
}

/// Where the digits from `i` stop at `j`, `digits_end(s, i)` is `j`.
proof fn lemma_digits_end_at(s: Seq<char>, i: int, j: int)
    requires
        0 <= i <= j <= s.len(),
        forall|k: int| i <= k < j ==> is_digit(#[trigger] s[k]),
        j < s.len() ==> !is_digit(s[j]),
    ensures
        digits_end(s, i) == j,
    decreases j - i,
{
    if i < j {
        lemma_digits_end_at(s, i + 1, j);
    }
}

/// Every character of a number text is a digit, the point, the exponent mark or a sign.
proof fn lemma_number_text_chars(t: Seq<char>, j: int)
    requires
        is_number_text(t),
        0 <= j < t.len(),
    ensures
        is_digit(t[j]) || t[j] == '.' || t[j] == 'e' || t[j] == '+' || t[j] == '-',
{
    let a = digits_end(t, 0);
    lemma_digits_end_run(t, 0);
    let has_point = a < t.len() && t[a] == '.';
    if has_point {
        lemma_digits_end_run(t, a + 1);
    }
    let b = if has_point {
        digits_end(t, a + 1)
    } else {
        a
    };
    if b < t.len() {
        let c = if b + 1 < t.len() && is_sign(t[b + 1]) {
            b + 2
        } else {
            b + 1
        };
        lemma_digits_end_run(t, c);
    }
}

/// A sign in front of an unsigned text changes nothing of whether it reads as a number:
/// `-t` and `+t` parse exactly when `t` does (so "-5" is a number as "5" is).
pub proof fn sign_keeps_numbers(t: Seq<char>)
    requires
        t.len() > 0 ==> t[0] != '+' && t[0] != '-',
    ensures
        is_float_text(seq!['-'] + t) == is_float_text(t),
        is_float_text(seq!['+'] + t) == is_float_text(t),
{
    assert((seq!['-'] + t).drop_first() =~= t);
    assert((seq!['+'] + t).drop_first() =~= t);
}

/// Digits with at most one decimal point among or around them, and at least one digit in
/// all, read as a number: "42", "3.5", ".5" and "7." are numbers.
pub proof fn decimal_digits_are_numbers(int_part: Seq<char>, frac_part: Seq<char>, point: bool)
    requires
        forall|k: int| 0 <= k < int_part.len() ==> '0' <= #[trigger] int_part[k] && int_part[k] <= '9',
        forall|k: int| 0 <= k < frac_part.len() ==> '0' <= #[trigger] frac_part[k] && frac_part[k] <= '9',
        int_part.len() + frac_part.len() > 0,
        !point ==> frac_part.len() == 0,
    ensures
        is_float_text(int_part + (if point { seq!['.'] } else { Seq::<char>::empty() }) + frac_part),
{
    let s = int_part + (if point { seq!['.'] } else { Seq::<char>::empty() }) + frac_part;
    let n = int_part.len() as int;
    assert(forall|k: int| 0 <= k < n ==> #[trigger] s[k] == int_part[k]);
    assert(ascii_lower_text(s) =~= s) by {
        assert forall|k: int| 0 <= k < s.len() implies #[trigger] ascii_fold(s[k]) == s[k] by {
            if k < n {
                assert(s[k] == int_part[k]);
            } else if point && k == n {
            } else {
                let m = if point { n + 1 } else { n };
                assert(s[k] == frac_part[k - m]);
            }
        }
    }
    if s[0] == '+' || s[0] == '-' {
        if n > 0 {
            assert(s[0] == int_part[0]);
        } else if !point {
            assert(s[0] == frac_part[0]);
        }
    }
    if point {
        assert(s[n] == '.');
        lemma_digits_end_at(s, 0, n);
        assert forall|k: int| n + 1 <= k < s.len() implies is_digit(#[trigger] s[k]) by {
            assert(s[k] == frac_part[k - n - 1]);
        }
        lemma_digits_end_at(s, n + 1, s.len() as int);
    } else {
        assert(s =~= int_part + frac_part);
        lemma_digits_end_at(s, 0, s.len() as int);
    }
}

/// A number is written with digits, ASCII letters, signs and the decimal point only: a
/// text holding any other character (a space, a comma, ...) is not a number.
pub proof fn numbers_use_number_characters(s: Seq<char>, k: int)
    requires
        0 <= k < s.len(),
        !('0' <= s[k] && s[k] <= '9'),
        !('a' <= s[k] && s[k] <= 'z'),
        !('A' <= s[k] && s[k] <= 'Z'),
        s[k] != '+',
        s[k] != '-',
        s[k] != '.',
    ensures
        !is_float_text(s),
{
    let signed = s.len() > 0 && is_sign(s[0]);
    let body = if signed {
        s.drop_first()
    } else {
        s
    };
    let t = ascii_lower_text(body);
    let j = if signed {
        k - 1
    } else {
        k
    };
    assert(0 <= j < body.len());
    assert(body[j] == s[k]);
    assert(t[j] == ascii_fold(s[k]));
    assert(t[j] == s[k]);
    let inf = seq!['i', 'n', 'f'];
    let infinity = seq!['i', 'n', 'f', 'i', 'n', 'i', 't', 'y'];
    let nan = seq!['n', 'a', 'n'];
    assert(forall|m: int| 0 <= m < 3 ==> 'a' <= #[trigger] inf[m] && inf[m] <= 'z');
    assert(forall|m: int| 0 <= m < 8 ==> 'a' <= #[trigger] infinity[m] && infinity[m] <= 'z');
    assert(forall|m: int| 0 <= m < 3 ==> 'a' <= #[trigger] nan[m] && nan[m] <= 'z');
    if t == inf {
        assert(t[j] == inf[j]);
    }
    if t == infinity {
        assert(t[j] == infinity[j]);
    }
    if t == nan {
        assert(t[j] == nan[j]);
    }
    if is_number_text(t) {
        lemma_number_text_chars(t, j);
    }
}

/// The longest cell is at least as long as each cell, and is the length of one of them
/// (or zero when there are no rows).
proof fn lemma_longest_cell(rows: Seq<Seq<Seq<char>>>, col: int)
    ensures
        forall|i: int| 0 <= i < rows.len() ==> longest_cell(rows, col) >= #[trigger] cell_or_empty(rows[i], col).len(),
        longest_cell(rows, col) == 0 || exists|i: int|
            0 <= i < rows.len() && longest_cell(rows, col) == #[trigger] cell_or_empty(rows[i], col).len(),
    decreases rows.len(),
{
    if rows.len() > 0 {
        let init = rows.drop_last();
        lemma_longest_cell(init, col);
        assert forall|i: int| 0 <= i < rows.len() implies longest_cell(rows, col) >= #[trigger] cell_or_empty(rows[i], col).len() by {
            if i < init.len() {
                assert(rows[i] == init[i]);
            }
        }
        if longest_cell(rows, col) != cell_or_empty(rows.last(), col).len() && longest_cell(rows, col) != 0 {
            let i = choose|i: int| 0 <= i < init.len() && longest_cell(init, col) == #[trigger] cell_or_empty(init[i], col).len();
            assert(rows[i] == init[i]);
        }
    }
}

/// Each column is wide enough for its uppercase header and for its cell in each of the
/// first `WIDTH_SAMPLE_ROWS` rows, and no wider than the widest of these needs: its width
/// is that of the header or of one of those cells.
pub proof fn column_width_fits_sampled_cells(headers: Seq<Seq<char>>, rows: Seq<Seq<Seq<char>>>, widths: Seq<u32>, c: int)
    requires
        widths.len() == headers.len(),
        forall|d: int| 0 <= d < headers.len() ==> #[trigger] widths[d] == column_width_for(content_chars(headers, rows, d)),
        0 <= c < headers.len(),
    ensures
        widths[c] >= column_width_for(uppercase(headers[c]).len()),
        forall|i: int|
            0 <= i < rows.len() && i < WIDTH_SAMPLE_ROWS ==> widths[c] >= column_width_for(
                #[trigger] cell_or_empty(rows[i], c).len(),
            ),
        widths[c] == column_width_for(uppercase(headers[c]).len()) || exists|i: int|
            0 <= i < rows.len() && i < WIDTH_SAMPLE_ROWS && widths[c] == column_width_for(
                #[trigger] cell_or_empty(rows[i], c).len(),
            ),
{
    let sample = if rows.len() <= 100 {
        rows
    } else {
        rows.take(100)
    };
    lemma_longest_cell(sample, c);
    let n = content_chars(headers, rows, c);
    assert forall|i: int| 0 <= i < rows.len() && i < WIDTH_SAMPLE_ROWS implies widths[c] >= column_width_for(
        #[trigger] cell_or_empty(rows[i], c).len(),
    ) by {
        assert(sample[i] == rows[i]);
        column_width_bounded_and_monotone(cell_or_empty(rows[i], c).len(), n);
    }
    column_width_bounded_and_monotone(uppercase(headers[c]).len(), n);
    if n != uppercase(headers[c]).len() {
        let i = choose|i: int| 0 <= i < sample.len() && longest_cell(sample, c) == #[trigger] cell_or_empty(sample[i], c).len();
        assert(sample[i] == rows[i]);
    }
}

} // verus!
