//! Row filtering, column classification, sorting and downsampling over the table.
use vstd::prelude::*;

use crate::data::{SortDirection, is_descending};
use crate::order::{is_stable_order, stable_order, key_view};
use crate::number::{is_float_text, parses_as_float};
use crate::pattern::{compile, is_match, pattern_compiles, pattern_matches, InvalidPattern};
use crate::laws::double_bits_le;
use crate::text::{text_le, string_from_chars, eq_ignore_ascii_case, chars_eq_ignore_ascii_case, char_codes, codes_of, chars_of, contains_chars, contains_text, lowercase, to_lowercase};

verus! {

/// The text of cell `col` of a row, or the empty text where the row is shorter.
pub open spec fn cell_or_empty(row: Seq<Seq<char>>, col: int) -> Seq<char> {
    if 0 <= col < row.len() {
        row[col]
    } else {
        Seq::empty()
    }
}

/// Borrow cell `col` of a row, or the empty string where the row is shorter.
pub fn cell_str(row: &Vec<String>, col: usize) -> (res: &str)
    ensures
        res@ == cell_or_empty(row.deep_view(), col as int),
{
    if col < row.len() {
        row[col].as_str()
    } else {
        proof {
            reveal_strlit("");
        }
        ""
    }
}

/// Key under which the total order of IEEE-754 doubles becomes the plain order of
/// unsigned integers: negative bit patterns are inverted, non-negative ones get the
/// sign bit set.
pub open spec fn total_order_key_spec(bits: u64) -> u64 {
    if bits >= 0x8000_0000_0000_0000u64 {
        (0xFFFF_FFFF_FFFF_FFFFu64 - bits) as u64
    } else {
        (bits + 0x8000_0000_0000_0000u64) as u64
    }
}

/// The sort key of a double given by its bit pattern (see `total_order_key_spec`).
pub fn total_order_key(bits: u64) -> (res: u64)
    ensures
        res == total_order_key_spec(bits),
{
    if bits >= 0x8000_0000_0000_0000u64 {
        0xFFFF_FFFF_FFFF_FFFFu64 - bits
    } else {
        bits + 0x8000_0000_0000_0000u64
    }
}

/// The sort key of row `i`: its numeric key when the column sorts numerically,
/// otherwise the code points of its cell text.
pub open spec fn sort_key(
    rows: Seq<Seq<Seq<char>>>,
    i: int,
    col: int,
    numeric_bits: Option<Seq<u64>>,
) -> Seq<u64> {
    match numeric_bits {
        Some(bits) => seq![total_order_key_spec(bits[i])],
        None => char_codes(cell_or_empty(rows[i], col)),
    }
}

/// The sort keys of the listed rows, position by position.
pub open spec fn sort_keys(
    rows: Seq<Seq<Seq<char>>>,
    indices: Seq<usize>,
    col: int,
    numeric_bits: Option<Seq<u64>>,
) -> Seq<Seq<u64>> {
    Seq::new(indices.len(), |p: int| sort_key(rows, indices[p] as int, col, numeric_bits))
}

/// The bit patterns of a numeric column, as a sequence.
pub open spec fn bits_view(numeric_bits: Option<&Vec<u64>>) -> Option<Seq<u64>> {
    match numeric_bits {
        Some(v) => Some(v@),
        None => None,
    }
}

/// `res` is `indices` in the stable order of the rows' sort keys for column `col` (see
/// `sort_keys`), reversed key order when descending.
pub open spec fn sorted_by_column(
    res: Seq<usize>,
    rows: Seq<Seq<Seq<char>>>,
    indices: Seq<usize>,
    col: int,
    numeric_bits: Option<Seq<u64>>,
    direction: SortDirection,
) -> bool {
    exists|perm: Seq<usize>|
        #[trigger] is_stable_order(perm, sort_keys(rows, indices, col, numeric_bits), is_descending(direction))
            && res == perm.map_values(|p: usize| indices[p as int])
}

/// The entries of a sorted listing are the listed entries, as many as there were.
pub proof fn lemma_sorted_entries(
    res: Seq<usize>,
    rows: Seq<Seq<Seq<char>>>,
    indices: Seq<usize>,
    col: int,
    numeric_bits: Option<Seq<u64>>,
    direction: SortDirection,
)
    requires
        sorted_by_column(res, rows, indices, col, numeric_bits, direction),
    ensures
        res.len() == indices.len(),
        forall|k: int| 0 <= k < res.len() ==> indices.contains(#[trigger] res[k]),
{
    let keys = sort_keys(rows, indices, col, numeric_bits);
    let perm = choose|perm: Seq<usize>|
        #[trigger] is_stable_order(perm, keys, is_descending(direction)) && res == perm.map_values(
            |p: usize| indices[p as int],
        );
    assert forall|k: int| 0 <= k < res.len() implies indices.contains(#[trigger] res[k]) by {
        assert(perm[k] < keys.len());
        assert(res[k] == indices[perm[k] as int]);
    }
}

/// Filtering keeps entries below a bound below it.
pub proof fn lemma_filter_bounded(s: Seq<usize>, pred: spec_fn(usize) -> bool, n: int)
    requires
        forall|k: int| 0 <= k < s.len() ==> #[trigger] s[k] < n,
    ensures
        forall|k: int| 0 <= k < s.filter(pred).len() ==> #[trigger] s.filter(pred)[k] < n,
    decreases s.len(),
{
    reveal(Seq::filter);
    if s.len() > 0 {
        lemma_filter_bounded(s.drop_last(), pred, n);
        assert forall|k: int| 0 <= k < s.filter(pred).len() implies #[trigger] s.filter(pred)[k] < n by {
            if k < s.drop_last().filter(pred).len() {
                assert(s.drop_last().filter(pred)[k] < n);
            }
        }
    }
}

/// Sort the listed row indices by column `col`.
///
/// Text columns compare cells (missing cells as empty text) by code points. A numeric
/// column passes, per row of the table, the bit pattern of the double its cell parses
/// to (negative infinity where it does not parse); rows then compare in the total order
/// of doubles. Descending reverses the key order. Rows with equal keys keep the order
/// they have in `indices`.
pub fn sort_indices(
    rows: &[Vec<String>],
    indices: &[usize],
    col: usize,
    numeric_bits: Option<&Vec<u64>>,
    direction: SortDirection,
) -> (res: Vec<usize>)
    requires
        forall|p: int| 0 <= p < indices.len() ==> #[trigger] indices@[p] < rows.len(),
        numeric_bits matches Some(b) ==> b.len() == rows.len(),
    ensures
        sorted_by_column(res@, rows.deep_view(), indices@, col as int, bits_view(numeric_bits), direction),
        numeric_bits is None && direction == SortDirection::Ascending ==> forall|a: int, b: int|
            0 <= a < b < res.len() ==> text_le(
                cell_or_empty(rows.deep_view()[#[trigger] res@[a] as int], col as int),
                cell_or_empty(rows.deep_view()[#[trigger] res@[b] as int], col as int),
            ),
        numeric_bits is None && direction == SortDirection::Descending ==> forall|a: int, b: int|
            0 <= a < b < res.len() ==> text_le(
                cell_or_empty(rows.deep_view()[#[trigger] res@[b] as int], col as int),
                cell_or_empty(rows.deep_view()[#[trigger] res@[a] as int], col as int),
            ),
        numeric_bits matches Some(bv) ==> forall|a: int, b: int|
            0 <= a < b < res.len() ==> if direction == SortDirection::Ascending {
                double_bits_le(bv@[#[trigger] res@[a] as int], bv@[#[trigger] res@[b] as int])
            } else {
                double_bits_le(bv@[res@[b] as int], bv@[res@[a] as int])
            },
{
    let ghost target = sort_keys(rows.deep_view(), indices@, col as int, bits_view(numeric_bits));
    let mut keys: Vec<Vec<u64>> = Vec::new();
    let mut p: usize = 0;
    while p < indices.len()
        invariant
            p <= indices.len(),
            target == sort_keys(rows.deep_view(), indices@, col as int, bits_view(numeric_bits)),
            forall|q: int| 0 <= q < indices.len() ==> #[trigger] indices@[q] < rows.len(),
            numeric_bits matches Some(b) ==> b.len() == rows.len(),
            keys.len() == p,
            forall|q: int| 0 <= q < p ==> #[trigger] key_view(&keys)[q] == target[q],
        decreases indices.len() - p,
    {
        let i = indices[p];
        let key = match numeric_bits {
            Some(bits) => {
                let mut k: Vec<u64> = Vec::new();
                k.push(total_order_key(bits[i]));
                proof {
                    assert(k@ =~= seq![total_order_key_spec(bits@[i as int])]);
                }
                k
            },
            None => codes_of(cell_str(&rows[i], col)),
        };
        let ghost old_keys = keys;
        keys.push(key);
        proof {
            assert forall|q: int| 0 <= q < p + 1 implies #[trigger] key_view(&keys)[q] == target[q] by {
                if q < p {
                    assert(key_view(&keys)[q] == key_view(&old_keys)[q]);
                }
            }
        }
        p = p + 1;
    }
    proof {
        assert(key_view(&keys) =~= target);
    }
    let descending = match direction {
        SortDirection::Ascending => false,
        SortDirection::Descending => true,
    };
    let perm = stable_order(&keys, descending);
    let mut out: Vec<usize> = Vec::new();
    let mut k: usize = 0;
    while k < perm.len()
        invariant
            k <= perm.len(),
            perm.len() == indices.len(),
            forall|q: int| 0 <= q < perm.len() ==> #[trigger] perm@[q] < indices.len(),
            out@ == perm@.take(k as int).map_values(|p: usize| indices@[p as int]),
        decreases perm.len() - k,
    {
        proof {
            assert(perm@.take(k + 1) == perm@.take(k as int).push(perm@[k as int]));
        }
        out.push(indices[perm[k]]);
        proof {
            assert(out@ =~= perm@.take(k + 1).map_values(|p: usize| indices@[p as int]));
        }
        k = k + 1;
    }
    proof {
        assert(perm@.take(perm.len() as int) == perm@);
        assert(descending == is_descending(direction));
        assert(is_stable_order(perm@, target, is_descending(direction)));
        assert(out@ == perm@.map_values(|p: usize| indices@[p as int]));
        if numeric_bits is None {
            assert forall|a: int, b: int| 0 <= a < b < out.len() implies (direction == SortDirection::Ascending ==> text_le(
                cell_or_empty(rows.deep_view()[#[trigger] out@[a] as int], col as int),
                cell_or_empty(rows.deep_view()[#[trigger] out@[b] as int], col as int),
            )) && (direction == SortDirection::Descending ==> text_le(
                cell_or_empty(rows.deep_view()[out@[b] as int], col as int),
                cell_or_empty(rows.deep_view()[out@[a] as int], col as int),
            )) by {
                crate::laws::text_sort_orders_whole_cells(out@, rows.deep_view(), indices@, col as int, direction, a, b);
            }
        }
        if let Some(bv) = numeric_bits {
            assert forall|a: int, b: int| 0 <= a < b < out.len() implies (if direction == SortDirection::Ascending {
                double_bits_le(bv@[#[trigger] out@[a] as int], bv@[#[trigger] out@[b] as int])
            } else {
                double_bits_le(bv@[out@[b] as int], bv@[out@[a] as int])
            }) by {
                crate::laws::numeric_sort_orders_doubles(out@, rows.deep_view(), indices@, col as int, bv@, direction, a, b);
            }
        }
    }
    out
}

/// The positions `0..n`.
pub open spec fn all_positions(n: int) -> Seq<usize> {
    Seq::new(n as nat, |i: int| i as usize)
}

/// Some cell of the row, lowercased, contains `needle`.
pub open spec fn row_has_text(row: Seq<Seq<char>>, needle: Seq<char>) -> bool {
    exists|c: int| 0 <= c < row.len() && contains_text(lowercase(#[trigger] row[c]), needle)
}

/// The rows kept by the incremental search: every row for an empty query, otherwise
/// those with a cell whose lowercase form contains the lowercase query, in table order.
pub open spec fn search_result(rows: Seq<Seq<Seq<char>>>, query: Seq<char>) -> Seq<usize> {
    if query.len() == 0 {
        all_positions(rows.len() as int)
    } else {
        all_positions(rows.len() as int).filter(
            |i: usize| row_has_text(rows[i as int], lowercase(query)),
        )
    }
}

fn row_has_chars(row: &Vec<String>, needle: &Vec<char>) -> (res: bool)
    ensures
        res == row_has_text(row.deep_view(), needle@),
{
    let mut c: usize = 0;
    while c < row.len()
        invariant
            c <= row.len(),
            forall|d: int|
                0 <= d < c ==> !contains_text(lowercase(#[trigger] row.deep_view()[d]), needle@),
        decreases row.len() - c,
    {
        let lower = to_lowercase(row[c].as_str());
        let lower_chars = chars_of(lower.as_str());
        if contains_chars(&lower_chars, needle) {
            assert(row.deep_view()[c as int] == row@[c as int]@);
            return true;
        }
        c = c + 1;
    }
    false
}

/// Incremental search over all rows (case-insensitive substring match on any cell).
pub fn filter_rows(rows: &[Vec<String>], query: &str) -> (res: Vec<usize>)
    ensures
        res@ == search_result(rows.deep_view(), query@),
{
    let ghost all = all_positions(rows.len() as int);
    let mut out: Vec<usize> = Vec::new();
    if query.is_empty() {
        let mut i: usize = 0;
        while i < rows.len()
            invariant
                i <= rows.len(),
                out@ == all.take(i as int),
                all == all_positions(rows.len() as int),
            decreases rows.len() - i,
        {
            proof {
                assert(all.take(i + 1) == all.take(i as int).push(i));
            }
            out.push(i);
            i = i + 1;
        }
        proof {
            assert(all.take(rows.len() as int) =~= all);
        }
        return out;
    }
    let lower = to_lowercase(query);
    let needle = chars_of(lower.as_str());
    let ghost pred = |i: usize| row_has_text(rows.deep_view()[i as int], lowercase(query@));
    let mut i: usize = 0;
    while i < rows.len()
        invariant
            i <= rows.len(),
            all == all_positions(rows.len() as int),
            needle@ == lowercase(query@),
            pred == (|i: usize| row_has_text(rows.deep_view()[i as int], lowercase(query@))),
            out@ == all.take(i as int).filter(pred),
        decreases rows.len() - i,
    {
        let keep = row_has_chars(&rows[i], &needle);
        proof {
            reveal(Seq::filter);
            assert(all.take(i + 1).drop_last() =~= all.take(i as int));
            assert(all.take(i + 1).last() == i);
            assert(rows.deep_view()[i as int] == rows@[i as int].deep_view());
        }
        if keep {
            out.push(i);
        }
        i = i + 1;
    }
    proof {
        assert(all.take(rows.len() as int) =~= all);
    }
    out
}

/// Number of rows whose cell `col` is non-empty.
pub open spec fn filled_count(rows: Seq<Seq<Seq<char>>>, col: int) -> nat
    decreases rows.len(),
{
    if rows.len() == 0 {
        0
    } else {
        filled_count(rows.drop_last(), col) + if cell_or_empty(rows.last(), col).len() > 0 {
            1nat
        } else {
            0nat
        }
    }
}

/// Number of rows whose cell `col` is non-empty and parses as a number.
pub open spec fn number_count(rows: Seq<Seq<Seq<char>>>, col: int) -> nat
    decreases rows.len(),
{
    if rows.len() == 0 {
        0
    } else {
        number_count(rows.drop_last(), col) + if cell_or_empty(rows.last(), col).len() > 0
            && is_float_text(cell_or_empty(rows.last(), col)) {
            1nat
        } else {
            0nat
        }
    }
}

/// A column is numeric when it has a non-empty cell and more than half of its
/// non-empty cells parse as numbers.
pub open spec fn is_numeric_column(rows: Seq<Seq<Seq<char>>>, col: int) -> bool {
    filled_count(rows, col) > 0 && number_count(rows, col) > filled_count(rows, col) / 2
}

pub proof fn lemma_counts_bounded(rows: Seq<Seq<Seq<char>>>, col: int)
    ensures
        number_count(rows, col) <= filled_count(rows, col) <= rows.len(),
    decreases rows.len(),
{
    if rows.len() > 0 {
        lemma_counts_bounded(rows.drop_last(), col);
    }
}

fn numeric_column(rows: &[Vec<String>], col: usize) -> (res: bool)
    ensures
        res == is_numeric_column(rows.deep_view(), col as int),
{
    let ghost view = rows.deep_view();
    let mut filled: usize = 0;
    let mut numbers: usize = 0;
    let mut i: usize = 0;
    while i < rows.len()
        invariant
            i <= rows.len(),
            view == rows.deep_view(),
            filled == filled_count(view.take(i as int), col as int),
            numbers == number_count(view.take(i as int), col as int),
        decreases rows.len() - i,
    {
        proof {
            assert(view.take(i + 1).drop_last() =~= view.take(i as int));
            lemma_counts_bounded(view.take(i as int), col as int);
        }
        let cell = cell_str(&rows[i], col);
        if !cell.is_empty() {
            filled = filled + 1;
            if parses_as_float(cell) {
                numbers = numbers + 1;
            }
        }
        i = i + 1;
    }
    proof {
        assert(view.take(rows.len() as int) =~= view);
    }
    filled > 0 && numbers > filled / 2
}

/// For each of the first `col_count` columns, whether it is numeric (see
/// `is_numeric_column`).
pub fn compute_numeric_columns(rows: &[Vec<String>], col_count: usize) -> (res: Vec<bool>)
    ensures
        res.len() == col_count,
        forall|c: int| 0 <= c < col_count ==> #[trigger] res@[c] == is_numeric_column(rows.deep_view(), c),
{
    let mut out: Vec<bool> = Vec::new();
    let mut c: usize = 0;
    while c < col_count
        invariant
            c <= col_count,
            out.len() == c,
            forall|d: int| 0 <= d < c ==> #[trigger] out@[d] == is_numeric_column(rows.deep_view(), d),
        decreases col_count - c,
    {
        out.push(numeric_column(rows, c));
        c = c + 1;
    }
    out
}

/// `num / den` rounded to the nearest integer, halves rounded up.
pub open spec fn rounded_ratio(num: int, den: int) -> int {
    if 2 * (num % den) >= den {
        num / den + 1
    } else {
        num / den
    }
}

/// At most `max` entries picked from `values` at evenly spaced positions: all of them
/// when they fit, only the first when `max` is one, none when `max` is zero; otherwise
/// entry `i` is taken from position `i * (len - 1) / (max - 1)`, rounded.
pub open spec fn downsample_spec<T>(values: Seq<T>, max: int) -> Seq<T> {
    if max == 0 {
        Seq::empty()
    } else if values.len() <= max {
        values
    } else if max == 1 {
        seq![values[0]]
    } else {
        Seq::new(
            max as nat,
            |i: int| values[rounded_ratio(i * (values.len() - 1), max - 1)],
        )
    }
}

proof fn lemma_rounded_ratio_in_range(i: int, last: int, d: int)
    requires
        0 <= i <= d,
        0 < d,
        0 <= last,
    ensures
        0 <= rounded_ratio(i * last, d) <= last,
{
    let num = i * last;
    assert(0 <= num) by (nonlinear_arith)
        requires
            num == i * last,
            0 <= i,
            0 <= last,
    ;
    let q = num / d;
    let r = num % d;
    assert(num == d * q + r && 0 <= r < d) by (nonlinear_arith)
        requires
            0 < d,
            q == num / d,
            r == num % d,
    ;
    if i == d {
        assert(num == d * last) by (nonlinear_arith)
            requires
                num == i * last,
                i == d,
        ;
        assert(q == last && r == 0) by (nonlinear_arith)
            requires
                num == d * last,
                num == d * q + r,
                0 <= r < d,
        ;
    } else {
        assert(num <= d * last - last) by (nonlinear_arith)
            requires
                num == i * last,
                i <= d - 1,
                0 <= last,
        ;
        if last > 0 {
            assert(q < last) by (nonlinear_arith)
                requires
                    num == d * q + r,
                    0 <= r,
                    num <= d * last - last,
                    last > 0,
                    d > 0,
            ;
        } else {
            assert(num == 0);
            assert(q == 0 && r == 0) by (nonlinear_arith)
                requires
                    num == 0,
                    num == d * q + r,
                    0 <= r < d,
            ;
        }
        assert(0 <= q) by (nonlinear_arith)
            requires
                num == d * q + r,
                r < d,
                0 <= num,
                d > 0,
        ;
    }
}

/// Reduce `values` to at most `max` evenly spaced entries (see `downsample_spec`).
pub fn downsample<T: Copy>(values: &[T], max: usize) -> (res: Vec<T>)
    ensures
        res@ == downsample_spec(values@, max as int),
{
    let mut out: Vec<T> = Vec::new();
    if max == 0 {
        return out;
    }
    if values.len() <= max {
        let mut k: usize = 0;
        while k < values.len()
            invariant
                k <= values.len(),
                out@ == values@.take(k as int),
            decreases values.len() - k,
        {
            proof {
                assert(values@.take(k + 1) == values@.take(k as int).push(values@[k as int]));
            }
            out.push(values[k]);
            k = k + 1;
        }
        proof {
            assert(values@.take(values.len() as int) =~= values@);
        }
        return out;
    }
    if max == 1 {
        out.push(values[0]);
        proof {
            assert(out@ =~= seq![values@[0]]);
        }
        return out;
    }
    let last = values.len() - 1;
    let d: u128 = (max - 1) as u128;
    let ghost target = downsample_spec(values@, max as int);
    let mut i: usize = 0;
    while i < max
        invariant
            2 <= max,
            values.len() > max,
            last == values.len() - 1,
            d == max - 1,
            i <= max,
            target == downsample_spec(values@, max as int),
            out@ == target.take(i as int),
        decreases max - i,
    {
        proof {
            lemma_rounded_ratio_in_range(i as int, last as int, d as int);
            let a = i as int;
            let b = last as int;
            assert(a * b <= 0xFFFF_FFFF_FFFF_FFFF * 0xFFFF_FFFF_FFFF_FFFF) by (nonlinear_arith)
                requires
                    0 <= a <= 0xFFFF_FFFF_FFFF_FFFF,
                    0 <= b <= 0xFFFF_FFFF_FFFF_FFFF,
            ;
        }
        let num: u128 = (i as u128) * (last as u128);
        let q: u128 = num / d;
        let r: u128 = num % d;
        let idx: u128 = if 2 * r >= d {
            q + 1
        } else {
            q
        };
        proof {
            assert(idx == rounded_ratio(i * last, max - 1));
            assert(target.take(i + 1) =~= target.take(i as int).push(values@[idx as int]));
        }
        out.push(values[idx as usize]);
        i = i + 1;
    }
    proof {
        assert(target.take(max as int) =~= target);
    }
    out
}

/// When at least two entries are kept and some must be dropped, the first and last
/// entries of the input are always among those kept.
pub proof fn downsample_keeps_endpoints<T>(values: Seq<T>, max: int)
    requires
        2 <= max,
    ensures
        values.len() > 0 ==> downsample_spec(values, max)[0] == values[0],
        values.len() > 0 ==> downsample_spec(values, max).last() == values.last(),
        downsample_spec(values, max).len() == if values.len() <= max {
            values.len() as int
        } else {
            max
        },
{
    if values.len() > max {
        let last = values.len() - 1;
        assert(rounded_ratio(0 * last, max - 1) == 0);
        assert((max - 1) * last == last * (max - 1)) by (nonlinear_arith);
        assert(((max - 1) * last) % (max - 1) == 0 && ((max - 1) * last) / (max - 1) == last) by (nonlinear_arith)
            requires
                max >= 2,
                last >= 0,
        ;
    }
}

/// Position of the first `c` in `s` at or after `i`, or `s.len()` when there is none.
pub open spec fn find_char_from(s: Seq<char>, c: char, i: nat) -> nat
    decreases s.len() - i,
{
    if i >= s.len() {
        s.len()
    } else if s[i as int] == c {
        i
    } else {
        find_char_from(s, c, i + 1)
    }
}

/// Position of the first header at or after `i` equal to `name` up to ASCII case, or
/// `headers.len()` when there is none.
pub open spec fn find_header_from(headers: Seq<Seq<char>>, name: Seq<char>, i: nat) -> nat
    decreases headers.len() - i,
{
    if i >= headers.len() {
        headers.len()
    } else if eq_ignore_ascii_case(headers[i as int], name) {
        i
    } else {
        find_header_from(headers, name, i + 1)
    }
}

/// How a row filter query reads: `name:pattern`, where `name` is a header (ASCII case
/// ignored) and the text splits at its first ':', targets that column with `pattern`;
/// anything else is a pattern for every column.
pub open spec fn column_filter_spec(query: Seq<char>, headers: Seq<Seq<char>>) -> (
    Option<usize>,
    Seq<char>,
) {
    let k = find_char_from(query, ':', 0);
    if k < query.len() {
        let m = find_header_from(headers, query.take(k as int), 0);
        if m < headers.len() {
            (Some(m as usize), query.skip((k + 1) as int))
        } else {
            (None, query)
        }
    } else {
        (None, query)
    }
}

/// Split a row filter query into an optional target column and a pattern (see
/// `column_filter_spec`).
pub fn parse_column_filter(query: &str, headers: &[String]) -> (res: (Option<usize>, String))
    ensures
        res.0 == column_filter_spec(query@, headers.deep_view()).0,
        res.1@ == column_filter_spec(query@, headers.deep_view()).1,
{
    let chars = chars_of(query);
    let mut k: usize = 0;
    while k < chars.len() && chars[k] != ':'
        invariant
            k <= chars.len(),
            chars@ == query@,
            find_char_from(query@, ':', 0) == find_char_from(query@, ':', k as nat),
        decreases chars.len() - k,
    {
        k = k + 1;
    }
    if k < chars.len() {
        let prefix = string_from_chars(&chars, 0, k);
        let prefix_chars = chars_of(prefix.as_str());
        let ghost hv = headers.deep_view();
        let mut m: usize = 0;
        while m < headers.len()
            invariant
                m <= headers.len(),
                k < chars.len(),
                chars@ == query@,
                query@[k as int] == ':',
                find_char_from(query@, ':', 0) == k,
                hv == headers.deep_view(),
                prefix_chars@ == query@.take(k as int),
                find_header_from(hv, query@.take(k as int), 0) == find_header_from(
                    hv,
                    query@.take(k as int),
                    m as nat,
                ),
            decreases headers.len() - m,
        {
            let header_chars = chars_of(headers[m].as_str());
            if chars_eq_ignore_ascii_case(&header_chars, &prefix_chars) {
                let suffix = string_from_chars(&chars, k + 1, chars.len());
                proof {
                    assert(query@.subrange(k + 1, query@.len() as int) =~= query@.skip(k + 1));
                }
                return (Some(m), suffix);
            }
            m = m + 1;
        }
    }
    let whole = string_from_chars(&chars, 0, chars.len());
    proof {
        assert(chars@.subrange(0, chars.len() as int) =~= query@);
    }
    (None, whole)
}

/// The columns shown under a column filter: all of them for an empty pattern,
/// otherwise those whose header the pattern matches, in order.
pub open spec fn column_filter_result(headers: Seq<Seq<char>>, pattern: Seq<char>) -> Seq<usize> {
    if pattern.len() == 0 {
        all_positions(headers.len() as int)
    } else {
        all_positions(headers.len() as int).filter(|i: usize| pattern_matches(pattern, headers[i as int]))
    }
}

/// Indices of the columns whose header matches `pattern` case-insensitively; every
/// column for an empty pattern. Fails exactly when a non-empty pattern does not compile.
pub fn filter_columns_by_regex(headers: &[String], pattern: &str) -> (res: Result<Vec<usize>, InvalidPattern>)
    ensures
        res is Err <==> (pattern@.len() > 0 && !pattern_compiles(pattern@)),
        res matches Ok(v) ==> v@ == column_filter_result(headers.deep_view(), pattern@),
{
    let ghost all = all_positions(headers.len() as int);
    let mut out: Vec<usize> = Vec::new();
    if pattern.is_empty() {
        let mut i: usize = 0;
        while i < headers.len()
            invariant
                i <= headers.len(),
                out@ == all.take(i as int),
                all == all_positions(headers.len() as int),
            decreases headers.len() - i,
        {
            proof {
                assert(all.take(i + 1) == all.take(i as int).push(i));
            }
            out.push(i);
            i = i + 1;
        }
        proof {
            assert(all.take(headers.len() as int) =~= all);
        }
        return Ok(out);
    }
    let re = match compile(pattern) {
        Ok(re) => re,
        Err(e) => return Err(e),
    };
    let ghost pred = |i: usize| pattern_matches(pattern@, headers.deep_view()[i as int]);
    let mut i: usize = 0;
    while i < headers.len()
        invariant
            i <= headers.len(),
            all == all_positions(headers.len() as int),
            re.source() == pattern@,
            pred == (|i: usize| pattern_matches(pattern@, headers.deep_view()[i as int])),
            out@ == all.take(i as int).filter(pred),
        decreases headers.len() - i,
    {
        let keep = is_match(&re, headers[i].as_str());
        proof {
            reveal(Seq::filter);
            assert(all.take(i + 1).drop_last() =~= all.take(i as int));
            assert(all.take(i + 1).last() == i);
            assert(headers.deep_view()[i as int] == headers@[i as int]@);
        }
        if keep {
            out.push(i);
        }
        i = i + 1;
    }
    proof {
        assert(all.take(headers.len() as int) =~= all);
    }
    Ok(out)
}

/// Whether row `i` passes a row filter: the row exists and either its cell `col`
/// exists and matches, or, without a target column, one of its cells matches.
pub open spec fn row_passes(
    rows: Seq<Seq<Seq<char>>>,
    i: int,
    pattern: Seq<char>,
    target_col: Option<usize>,
) -> bool {
    &&& 0 <= i < rows.len()
    &&& match target_col {
        Some(c) => c < rows[i].len() && pattern_matches(pattern, rows[i][c as int]),
        None => exists|c: int| 0 <= c < rows[i].len() && pattern_matches(pattern, #[trigger] rows[i][c]),
    }
}

/// The listed rows that a row filter keeps, in their listed order; all of them for an
/// empty pattern.
pub open spec fn row_filter_result(
    rows: Seq<Seq<Seq<char>>>,
    indices: Seq<usize>,
    pattern: Seq<char>,
    target_col: Option<usize>,
) -> Seq<usize> {
    if pattern.len() == 0 {
        indices
    } else {
        indices.filter(|i: usize| row_passes(rows, i as int, pattern, target_col))
    }
}

fn row_passes_exec(
    rows: &[Vec<String>],
    i: usize,
    re: &crate::pattern::CaseInsensitivePattern,
    target_col: Option<usize>,
) -> (res: bool)
    ensures
        res == row_passes(rows.deep_view(), i as int, re.source(), target_col),
{
    if i >= rows.len() {
        return false;
    }
    let row = &rows[i];
    proof {
        assert(rows.deep_view()[i as int] == row.deep_view());
    }
    match target_col {
        Some(c) => {
            if c < row.len() {
                is_match(re, row[c].as_str())
            } else {
                false
            }
        },
        None => {
            let mut c: usize = 0;
            while c < row.len()
                invariant
                    c <= row.len(),
                    i < rows.len(),
                    target_col is None,
                    rows.deep_view()[i as int] == row.deep_view(),
                    forall|d: int| 0 <= d < c ==> !pattern_matches(re.source(), #[trigger] row.deep_view()[d]),
                decreases row.len() - c,
            {
                if is_match(re, row[c].as_str()) {
                    assert(row.deep_view()[c as int] == row@[c as int]@);
                    assert(pattern_matches(re.source(), rows.deep_view()[i as int][c as int]));
                    return true;
                }
                c = c + 1;
            }
            false
        },
    }
}

/// Keep the listed rows that `pattern` matches case-insensitively, in one target
/// column or, without one, in any cell; indices past the table are dropped. Fails
/// exactly when a non-empty pattern does not compile.
pub fn filter_rows_regex(
    rows: &[Vec<String>],
    indices: &[usize],
    pattern: &str,
    target_col: Option<usize>,
) -> (res: Result<Vec<usize>, InvalidPattern>)
    ensures
        res is Err <==> (pattern@.len() > 0 && !pattern_compiles(pattern@)),
        res matches Ok(v) ==> v@ == row_filter_result(rows.deep_view(), indices@, pattern@, target_col),
        res matches Ok(v) ==> pattern@.len() > 0 ==> forall|i: usize| #[trigger] v@.contains(i) <==> {
            &&& indices@.contains(i)
            &&& (i as int) < rows.len()
            &&& match target_col {
                None => exists|c: int|
                    0 <= c < rows.deep_view()[i as int].len() && pattern_matches(pattern@, #[trigger] rows.deep_view()[i as int][c]),
                Some(t) => (t as int) < rows.deep_view()[i as int].len() && pattern_matches(
                    pattern@,
                    rows.deep_view()[i as int][t as int],
                ),
            }
        },
{
    let mut out: Vec<usize> = Vec::new();
    if pattern.is_empty() {
        let mut k: usize = 0;
        while k < indices.len()
            invariant
                k <= indices.len(),
                out@ == indices@.take(k as int),
            decreases indices.len() - k,
        {
            proof {
                assert(indices@.take(k + 1) == indices@.take(k as int).push(indices@[k as int]));
            }
            out.push(indices[k]);
            k = k + 1;
        }
        proof {
            assert(indices@.take(indices.len() as int) =~= indices@);
        }
        return Ok(out);
    }
    let re = match compile(pattern) {
        Ok(re) => re,
        Err(e) => return Err(e),
    };
    let ghost pred = |i: usize| row_passes(rows.deep_view(), i as int, pattern@, target_col);
    let mut k: usize = 0;
    while k < indices.len()
        invariant
            k <= indices.len(),
            re.source() == pattern@,
            pred == (|i: usize| row_passes(rows.deep_view(), i as int, pattern@, target_col)),
            out@ == indices@.take(k as int).filter(pred),
        decreases indices.len() - k,
    {
        let keep = row_passes_exec(rows, indices[k], &re, target_col);
        proof {
            reveal(Seq::filter);
            assert(indices@.take(k + 1).drop_last() =~= indices@.take(k as int));
        }
        if keep {
            out.push(indices[k]);
        }
        k = k + 1;
    }
    proof {
        assert(indices@.take(indices.len() as int) =~= indices@);
        assert forall|i: usize| #[trigger] out@.contains(i) <==> {
            &&& indices@.contains(i)
            &&& (i as int) < rows.len()
            &&& match target_col {
                None => exists|c: int|
                    0 <= c < rows.deep_view()[i as int].len() && pattern_matches(pattern@, #[trigger] rows.deep_view()[i as int][c]),
                Some(t) => (t as int) < rows.deep_view()[i as int].len() && pattern_matches(
                    pattern@,
                    rows.deep_view()[i as int][t as int],
                ),
            }
        } by {
            crate::laws::row_filter_keeps_rows_with_a_matching_cell(rows.deep_view(), indices@, pattern@, target_col, i);
        }
    }
    Ok(out)
}

} // verus!
