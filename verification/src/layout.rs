//! Column and row-number widths of the table, in half pixels.
//!
//! A character is taken to be 7.5 pixels wide (15 half pixels), so every width the
//! viewer computes is a whole number of half pixels.
use vstd::prelude::*;

use crate::compute::{cell_or_empty, cell_str};
use crate::data::CsvData;
use crate::text::{to_uppercase, uppercase};

verus! {

/// Half pixels per character.
pub const CHAR_WIDTH_HALF_PX: u32 = 15;
/// Narrowest column, in half pixels (50 px).
pub const MIN_COL_WIDTH_HALF_PX: u32 = 100;
/// Widest column, in half pixels (400 px).
pub const MAX_COL_WIDTH_HALF_PX: u32 = 800;
/// Horizontal padding of a column, in half pixels (24 px).
pub const COL_PADDING_HALF_PX: u32 = 48;
/// Padding of the row-number column, in half pixels (16 px).
pub const ROW_NUM_PADDING_HALF_PX: u32 = 32;
/// Narrowest row-number column, in half pixels (40 px).
pub const MIN_ROW_NUM_WIDTH_HALF_PX: u32 = 80;
/// Number of leading rows sampled for column widths.
pub const WIDTH_SAMPLE_ROWS: usize = 100;

pub open spec fn max_nat(a: nat, b: nat) -> nat {
    if a >= b {
        a
    } else {
        b
    }
}

/// Length of the longest cell `col` among `rows` (missing cells count as empty).
pub open spec fn longest_cell(rows: Seq<Seq<Seq<char>>>, col: int) -> nat
    decreases rows.len(),
{
    if rows.len() == 0 {
        0
    } else {
        max_nat(longest_cell(rows.drop_last(), col), cell_or_empty(rows.last(), col).len())
    }
}

/// The number of characters column `col` must fit: its uppercase header, and its cells
/// among the first hundred rows.
pub open spec fn content_chars(headers: Seq<Seq<char>>, rows: Seq<Seq<Seq<char>>>, col: int) -> nat {
    let sample = if rows.len() <= 100 {
        rows
    } else {
        rows.take(100)
    };
    max_nat(longest_cell(sample, col), uppercase(headers[col]).len())
}

/// Width in half pixels for a content of `n` characters: 7.5 px a character plus 24 px
/// of padding, kept within 50..=400 px.
pub open spec fn column_width_for(n: nat) -> u32 {
    let w = 15 * n + 48;
    if w < 100 {
        100
    } else if w > 800 {
        800
    } else {
        w as u32
    }
}

fn width_for(n: usize) -> (res: u32)
    ensures
        res == column_width_for(n as nat),
{
    if n > 50 {
        MAX_COL_WIDTH_HALF_PX
    } else {
        let w: u32 = (n as u32) * CHAR_WIDTH_HALF_PX + COL_PADDING_HALF_PX;
        if w < MIN_COL_WIDTH_HALF_PX {
            MIN_COL_WIDTH_HALF_PX
        } else if w > MAX_COL_WIDTH_HALF_PX {
            MAX_COL_WIDTH_HALF_PX
        } else {
            w
        }
    }
}

/// Width of each header's column, in half pixels (see `content_chars` and
/// `column_width_for`).
pub fn compute_column_widths(data: &CsvData) -> (res: Vec<u32>)
    ensures
        res.len() == data.headers.len(),
        forall|c: int|
            0 <= c < data.headers.len() ==> #[trigger] res@[c] == column_width_for(
                content_chars(data.headers.deep_view(), data.rows.deep_view(), c),
            ),
        forall|c: int, i: int|
            0 <= c < data.headers.len() && 0 <= i < data.rows.len() && i < WIDTH_SAMPLE_ROWS ==> #[trigger] res@[c]
                >= column_width_for(#[trigger] cell_or_empty(data.rows.deep_view()[i], c).len()),
        forall|c: int|
            0 <= c < data.headers.len() ==> #[trigger] res@[c] >= column_width_for(
                uppercase(data.headers.deep_view()[c]).len(),
            ),
{
    let headers = data.headers.as_slice();
    let rows = data.rows.as_slice();
    proof {
        assert(headers.deep_view() =~= data.headers.deep_view());
        assert(rows.deep_view() =~= data.rows.deep_view());
    }
    let sample_count = if rows.len() < WIDTH_SAMPLE_ROWS {
        rows.len()
    } else {
        WIDTH_SAMPLE_ROWS
    };
    let ghost rv = rows.deep_view();
    let ghost sample = if rv.len() <= 100 {
        rv
    } else {
        rv.take(100)
    };
    proof {
        assert(rv.take(sample_count as int) =~= sample);
    }
    let mut out: Vec<u32> = Vec::new();
    let mut c: usize = 0;
    while c < headers.len()
        invariant
            c <= headers.len(),
            out.len() == c,
            sample_count <= rows.len(),
            rv == rows.deep_view(),
            sample == rv.take(sample_count as int),
            sample == (if rv.len() <= 100 {
                rv
            } else {
                rv.take(100)
            }),
            forall|d: int|
                0 <= d < c ==> #[trigger] out@[d] == column_width_for(
                    content_chars(headers.deep_view(), rows.deep_view(), d),
                ),
        decreases headers.len() - c,
    {
        let mut longest: usize = 0;
        let mut i: usize = 0;
        while i < sample_count
            invariant
                i <= sample_count <= rows.len(),
                rv == rows.deep_view(),
                longest == longest_cell(rv.take(i as int), c as int),
            decreases sample_count - i,
        {
            let n = cell_str(&rows[i], c).unicode_len();
            proof {
                assert(rv.take(i + 1).drop_last() =~= rv.take(i as int));
                assert(rv[i as int] == rows@[i as int].deep_view());
            }
            if n > longest {
                longest = n;
            }
            i = i + 1;
        }
        let upper = to_uppercase(headers[c].as_str());
        let header_len = upper.as_str().unicode_len();
        let needed = if header_len > longest {
            header_len
        } else {
            longest
        };
        proof {
            assert(headers.deep_view()[c as int] == headers@[c as int]@);
        }
        out.push(width_for(needed));
        c = c + 1;
    }
    proof {
        assert(headers.deep_view() =~= data.headers.deep_view());
        assert forall|c: int, i: int|
            0 <= c < data.headers.len() && 0 <= i < data.rows.len() && i < WIDTH_SAMPLE_ROWS implies #[trigger] out@[c]
                >= column_width_for(#[trigger] cell_or_empty(data.rows.deep_view()[i], c).len()) by {
            crate::laws::column_width_fits_sampled_cells(data.headers.deep_view(), data.rows.deep_view(), out@, c);
        }
        assert forall|c: int| 0 <= c < data.headers.len() implies #[trigger] out@[c] >= column_width_for(
            uppercase(data.headers.deep_view()[c]).len(),
        ) by {
            crate::laws::column_width_fits_sampled_cells(data.headers.deep_view(), data.rows.deep_view(), out@, c);
        }
    }
    out
}

/// Number of decimal digits of `n` (one for zero).
pub open spec fn decimal_digits(n: nat) -> nat
    decreases n,
{
    if n < 10 {
        1
    } else {
        1 + decimal_digits(n / 10)
    }
}

/// Width of the row-number column, in half pixels: 7.5 px per digit of the row count
/// (at least one digit) plus 16 px, and never under 40 px.
pub open spec fn row_number_width_spec(total_rows: nat) -> u32 {
    let w = 15 * decimal_digits(total_rows) + 32;
    if w < 80 {
        80
    } else {
        w as u32
    }
}

spec fn pow10(k: nat) -> nat
    decreases k,
{
    if k == 0 {
        1
    } else {
        10 * pow10((k - 1) as nat)
    }
}

proof fn lemma_digits_below(n: nat, k: nat)
    requires
        k >= 1,
        n < pow10(k),
    ensures
        decimal_digits(n) <= k,
    decreases k,
{
    if n >= 10 {
        if k == 1 {
            assert(pow10(1) == 10) by {
                reveal_with_fuel(pow10, 2);
            }
        }
        lemma_digits_below(n / 10, (k - 1) as nat);
    }
}

pub proof fn lemma_digits_bounded(n: nat)
    ensures
        1 <= decimal_digits(n),
        n <= 0xFFFF_FFFF_FFFF_FFFF ==> decimal_digits(n) <= 20,
    decreases n,
{
    if n >= 10 {
        lemma_digits_bounded(n / 10);
    }
    if n <= 0xFFFF_FFFF_FFFF_FFFF {
        assert(pow10(20) == 100_000_000_000_000_000_000) by {
            reveal_with_fuel(pow10, 21);
        }
        lemma_digits_below(n, 20);
    }
}

/// Width of the row-number column for a table of `total_rows` rows (see
/// `row_number_width_spec`).
pub fn row_number_col_width(total_rows: usize) -> (res: u32)
    ensures
        res == row_number_width_spec(total_rows as nat),
{
    let mut digits: u32 = 1;
    let mut rest = total_rows;
    proof {
        lemma_digits_bounded(total_rows as nat);
    }
    while rest >= 10
        invariant
            decimal_digits(total_rows as nat) == digits + decimal_digits(rest as nat) - 1,
            1 <= digits <= 20,
            decimal_digits(rest as nat) + digits <= 21,
        decreases rest,
    {
        proof {
            lemma_digits_bounded((rest / 10) as nat);
        }
        rest = rest / 10;
        digits = digits + 1;
    }
    let w = digits * CHAR_WIDTH_HALF_PX + ROW_NUM_PADDING_HALF_PX;
    if w < MIN_ROW_NUM_WIDTH_HALF_PX {
        MIN_ROW_NUM_WIDTH_HALF_PX
    } else {
        w
    }
}

} // verus!
