//! Export of the visible rows and columns as JSON or as a Markdown table.
use vstd::prelude::*;

use crate::compute::cell_or_empty;
use crate::text::push_char;

verus! {

/// Concatenation of `parts` with `sep` between neighbours.
pub open spec fn join(parts: Seq<Seq<char>>, sep: Seq<char>) -> Seq<char>
    decreases parts.len(),
{
    if parts.len() == 0 {
        Seq::empty()
    } else if parts.len() == 1 {
        parts[0]
    } else {
        join(parts.drop_last(), sep) + sep + parts.last()
    }
}

/// Concatenation of `parts`.
pub open spec fn concat(parts: Seq<Seq<char>>) -> Seq<char>
    decreases parts.len(),
{
    if parts.len() == 0 {
        Seq::empty()
    } else {
        concat(parts.drop_last()) + parts.last()
    }
}

/// Control characters (Unicode general category Cc): U+0000..U+001F and U+007F..U+009F.
pub open spec fn is_control(c: char) -> bool {
    (c as u32) <= 0x1F || (0x7F <= (c as u32) && (c as u32) <= 0x9F)
}

/// Lowercase hexadecimal digit of a value below 16.
pub open spec fn hex_digit(d: u32) -> char {
    if d < 10 {
        (('0' as u32) + d) as char
    } else {
        (('a' as u32) + d - 10) as char
    }
}

/// Four lowercase hexadecimal digits of a value below 0x10000.
pub open spec fn hex4(v: u32) -> Seq<char> {
    seq![
        hex_digit(((v / 4096) % 16) as u32),
        hex_digit(((v / 256) % 16) as u32),
        hex_digit(((v / 16) % 16) as u32),
        hex_digit((v % 16) as u32),
    ]
}

/// JSON string escape of one character.
pub open spec fn json_escape_char(c: char) -> Seq<char> {
    if c == '"' {
        seq!['\\', '"']
    } else if c == '\\' {
        seq!['\\', '\\']
    } else if c == '\n' {
        seq!['\\', 'n']
    } else if c == '\r' {
        seq!['\\', 'r']
    } else if c == '\t' {
        seq!['\\', 't']
    } else if is_control(c) {
        seq!['\\', 'u'] + hex4(c as u32)
    } else {
        seq![c]
    }
}

/// JSON string escape of a text.
pub open spec fn json_escape(s: Seq<char>) -> Seq<char>
    decreases s.len(),
{
    if s.len() == 0 {
        Seq::empty()
    } else {
        json_escape(s.drop_last()) + json_escape_char(s.last())
    }
}

/// Markdown table-cell escape of one character: '|' is escaped, line breaks become spaces.
pub open spec fn markdown_escape_char(c: char) -> Seq<char> {
    if c == '|' {
        seq!['\\', '|']
    } else if c == '\n' || c == '\r' {
        seq![' ']
    } else {
        seq![c]
    }
}

/// Markdown table-cell escape of a text.
pub open spec fn markdown_escape(s: Seq<char>) -> Seq<char>
    decreases s.len(),
{
    if s.len() == 0 {
        Seq::empty()
    } else {
        markdown_escape(s.drop_last()) + markdown_escape_char(s.last())
    }
}

/// `"key": "value"`, both escaped.
pub open spec fn json_field(key: Seq<char>, value: Seq<char>) -> Seq<char> {
    seq!['"'] + json_escape(key) + seq!['"', ':', ' ', '"'] + json_escape(value) + seq!['"']
}

/// One exported row: `  {` then its visible fields joined by `, `, then `}`.
pub open spec fn json_object(headers: Seq<Seq<char>>, row: Seq<Seq<char>>, cols: Seq<usize>) -> Seq<char> {
    seq![' ', ' ', '{'] + join(
        cols.map_values(|c: usize| json_field(cell_or_empty(headers, c as int), cell_or_empty(row, c as int))),
        seq![',', ' '],
    ) + seq!['}']
}

/// The listed rows that exist in the table.
pub open spec fn existing_rows(rows: Seq<Seq<Seq<char>>>, filtered: Seq<usize>) -> Seq<usize> {
    filtered.filter(|i: usize| i < rows.len())
}

/// The JSON export: an array of one object per listed row that exists, each with the
/// visible columns as fields named by their headers; `[]` and a newline when there is no
/// visible column or no such row.
pub open spec fn json_export(
    headers: Seq<Seq<char>>,
    rows: Seq<Seq<Seq<char>>>,
    filtered: Seq<usize>,
    cols: Seq<usize>,
) -> Seq<char> {
    let objects = existing_rows(rows, filtered).map_values(
        |i: usize| json_object(headers, rows[i as int], cols),
    );
    if cols.len() == 0 || objects.len() == 0 {
        seq!['[', ']', '\n']
    } else {
        seq!['[', '\n'] + join(objects, seq![',', '\n']) + seq!['\n', ']', '\n']
    }
}

/// One Markdown table line: `|` then ` text |` for each entry, then a newline.
pub open spec fn markdown_line(cells: Seq<Seq<char>>) -> Seq<char> {
    seq!['|'] + concat(cells.map_values(|t: Seq<char>| seq![' '] + markdown_escape(t) + seq![' ', '|']))
        + seq!['\n']
}

/// The texts of the visible columns of a row.
pub open spec fn visible_cells(row: Seq<Seq<char>>, cols: Seq<usize>) -> Seq<Seq<char>> {
    cols.map_values(|c: usize| cell_or_empty(row, c as int))
}

/// The Markdown export: a header line, a separator line of ` --- |` per visible column,
/// and a line per listed row that exists; nothing when no column is visible.
pub open spec fn markdown_export(
    headers: Seq<Seq<char>>,
    rows: Seq<Seq<Seq<char>>>,
    filtered: Seq<usize>,
    cols: Seq<usize>,
) -> Seq<char> {
    if cols.len() == 0 {
        Seq::empty()
    } else {
        markdown_line(visible_cells(headers, cols)) + seq!['|'] + concat(
            cols.map_values(|c: usize| seq![' ', '-', '-', '-', ' ', '|']),
        ) + seq!['\n'] + concat(
            existing_rows(rows, filtered).map_values(
                |i: usize| markdown_line(visible_cells(rows[i as int], cols)),
            ),
        )
    }
}

pub proof fn lemma_join_push(parts: Seq<Seq<char>>, sep: Seq<char>, x: Seq<char>)
    ensures
        join(parts.push(x), sep) == if parts.len() == 0 {
            x
        } else {
            join(parts, sep) + sep + x
        },
{
    assert(parts.push(x).drop_last() =~= parts);
}

proof fn lemma_concat_push(parts: Seq<Seq<char>>, x: Seq<char>)
    ensures
        concat(parts.push(x)) == concat(parts) + x,
{
    assert(parts.push(x).drop_last() =~= parts);
}

fn is_control_char(c: char) -> (res: bool)
    ensures
        res == is_control(c),
{
    let v = c as u32;
    v <= 0x1F || (0x7F <= v && v <= 0x9F)
}

fn hex_digit_char(d: u32) -> (res: char)
    requires
        d < 16,
    ensures
        res == hex_digit(d),
{
    if d < 10 {
        let b: u8 = (48 + d) as u8;
        b as char
    } else {
        let b: u8 = (97 + d - 10) as u8;
        b as char
    }
}

fn append_literal(out: &mut String, lit: &str)
    ensures
        final(out)@ == old(out)@ + lit@,
{
    out.append(lit);
}

fn append_escaped_json_char(out: &mut String, c: char)
    ensures
        final(out)@ == old(out)@ + json_escape_char(c),
{
    if c == '"' {
        push_char(out, '\\');
        push_char(out, '"');
    } else if c == '\\' {
        push_char(out, '\\');
        push_char(out, '\\');
    } else if c == '\n' {
        push_char(out, '\\');
        push_char(out, 'n');
    } else if c == '\r' {
        push_char(out, '\\');
        push_char(out, 'r');
    } else if c == '\t' {
        push_char(out, '\\');
        push_char(out, 't');
    } else if is_control_char(c) {
        let v = c as u32;
        push_char(out, '\\');
        push_char(out, 'u');
        push_char(out, hex_digit_char((v / 4096) % 16));
        push_char(out, hex_digit_char((v / 256) % 16));
        push_char(out, hex_digit_char((v / 16) % 16));
        push_char(out, hex_digit_char(v % 16));
    } else {
        push_char(out, c);
    }
    proof {
        assert(final(out)@ =~= old(out)@ + json_escape_char(c));
    }
}

fn append_json_escaped(out: &mut String, s: &str)
    ensures
        final(out)@ == old(out)@ + json_escape(s@),
{
    let ghost start = out@;
    for c in it: s.chars()
        invariant
            it.seq() == s@,
            out@ == start + json_escape(s@.take(it.index())),
    {
        proof {
            let t = s@.take(it.index() + 1);
            assert(t.drop_last() =~= s@.take(it.index()));
            assert(t.last() == c);
        }
        append_escaped_json_char(out, c);
        proof {
            assert(out@ =~= start + json_escape(s@.take(it.index() + 1)));
        }
    }
    proof {
        assert(s@.take(s@.len() as int) =~= s@);
    }
}

/// JSON string escape: quote, backslash, newline, carriage return and tab get their
/// short escapes, other control characters `\uXXXX`, everything else is kept.
pub fn escape_json_string(s: &str) -> (res: String)
    ensures
        res@ == json_escape(s@),
{
    let mut out = String::new();
    append_json_escaped(&mut out, s);
    proof {
        assert(out@ =~= json_escape(s@));
    }
    out
}

fn append_markdown_escaped(out: &mut String, s: &str)
    ensures
        final(out)@ == old(out)@ + markdown_escape(s@),
{
    let ghost start = out@;
    for c in it: s.chars()
        invariant
            it.seq() == s@,
            out@ == start + markdown_escape(s@.take(it.index())),
    {
        proof {
            let t = s@.take(it.index() + 1);
            assert(t.drop_last() =~= s@.take(it.index()));
            assert(t.last() == c);
        }
        if c == '|' {
            push_char(out, '\\');
            push_char(out, '|');
        } else if c == '\n' || c == '\r' {
            push_char(out, ' ');
        } else {
            push_char(out, c);
        }
        proof {
            assert(out@ =~= start + markdown_escape(s@.take(it.index() + 1)));
        }
    }
    proof {
        assert(s@.take(s@.len() as int) =~= s@);
    }
}

/// Markdown table-cell escape: '|' becomes `\|`, line breaks become spaces.
pub fn escape_markdown_cell(s: &str) -> (res: String)
    ensures
        res@ == markdown_escape(s@),
{
    let mut out = String::new();
    append_markdown_escaped(&mut out, s);
    proof {
        assert(out@ =~= markdown_escape(s@));
    }
    out
}

fn text_or_empty(v: &[String], i: usize) -> (res: &str)
    ensures
        res@ == cell_or_empty(v.deep_view(), i as int),
{
    if i < v.len() {
        v[i].as_str()
    } else {
        proof {
            reveal_strlit("");
        }
        ""
    }
}

fn append_json_object(out: &mut String, headers: &[String], row: &Vec<String>, cols: &[usize])
    ensures
        final(out)@ == old(out)@ + json_object(headers.deep_view(), row.deep_view(), cols@),
{
    let ghost start = out@;
    let ghost fields = cols@.map_values(
        |c: usize| json_field(cell_or_empty(headers.deep_view(), c as int), cell_or_empty(row.deep_view(), c as int)),
    );
    proof {
        reveal_strlit("  {");
    }
    append_literal(out, "  {");
    let mut j: usize = 0;
    while j < cols.len()
        invariant
            j <= cols.len(),
            fields == cols@.map_values(
                |c: usize| json_field(cell_or_empty(headers.deep_view(), c as int), cell_or_empty(row.deep_view(), c as int)),
            ),
            out@ == start + seq![' ', ' ', '{'] + join(fields.take(j as int), seq![',', ' ']),
        decreases cols.len() - j,
    {
        let ghost before = out@;
        if j > 0 {
            proof {
                reveal_strlit(", ");
            }
            append_literal(out, ", ");
        }
        let c = cols[j];
        let key = text_or_empty(headers, c);
        let row_slice = row.as_slice();
        let val = text_or_empty(row_slice, c);
        proof {
            reveal_strlit("\": \"");
            reveal_strlit("\"");
            assert(row_slice.deep_view() =~= row.deep_view());
        }
        append_literal(out, "\"");
        append_json_escaped(out, key);
        append_literal(out, "\": \"");
        append_json_escaped(out, val);
        append_literal(out, "\"");
        proof {
            assert(fields.take(j + 1) =~= fields.take(j as int).push(fields[j as int]));
            lemma_join_push(fields.take(j as int), seq![',', ' '], fields[j as int]);
            if j > 0 {
                assert(out@ =~= start + seq![' ', ' ', '{'] + join(fields.take(j + 1), seq![',', ' ']));
            } else {
                assert(out@ =~= start + seq![' ', ' ', '{'] + join(fields.take(j + 1), seq![',', ' ']));
            }
        }
        j = j + 1;
    }
    proof {
        reveal_strlit("}");
        assert(fields.take(cols.len() as int) =~= fields);
    }
    append_literal(out, "}");
    proof {
        assert(final(out)@ =~= start + json_object(headers.deep_view(), row.deep_view(), cols@));
    }
}

/// Export the listed rows' visible columns as a JSON array of objects (see
/// `json_export`).
pub fn export_json(headers: &[String], rows: &[Vec<String>], filtered_indices: &[usize], visible_col_indices: &[usize]) -> (res: String)
    ensures
        res@ == json_export(headers.deep_view(), rows.deep_view(), filtered_indices@, visible_col_indices@),
{
    let ghost hv = headers.deep_view();
    let ghost rv = rows.deep_view();
    let ghost cols = visible_col_indices@;
    let ghost pred = |i: usize| i < rv.len();
    let ghost obj = |i: usize| json_object(hv, rv[i as int], cols);
    if visible_col_indices.len() == 0 {
        proof {
            reveal_strlit("[]\n");
        }
        let mut e = String::new();
        append_literal(&mut e, "[]\n");
        return e;
    }
    let mut body = String::new();
    let mut written: usize = 0;
    let mut k: usize = 0;
    while k < filtered_indices.len()
        invariant
            k <= filtered_indices.len(),
            hv == headers.deep_view(),
            rv == rows.deep_view(),
            cols == visible_col_indices@,
            pred == (|i: usize| i < rv.len()),
            obj == (|i: usize| json_object(hv, rv[i as int], cols)),
            written == filtered_indices@.take(k as int).filter(pred).len(),
            body@ == join(filtered_indices@.take(k as int).filter(pred).map_values(obj), seq![',', '\n']),
        decreases filtered_indices.len() - k,
    {
        let i = filtered_indices[k];
        let ghost prev = filtered_indices@.take(k as int).filter(pred);
        proof {
            reveal(Seq::filter);
            assert(filtered_indices@.take(k + 1).drop_last() =~= filtered_indices@.take(k as int));
            assert(filtered_indices@.take(k + 1).last() == i);
        }
        if i < rows.len() {
            if written > 0 {
                proof {
                    reveal_strlit(",\n");
                }
                append_literal(&mut body, ",\n");
            }
            append_json_object(&mut body, headers, &rows[i], visible_col_indices);
            proof {
                assert(rows@[i as int].deep_view() == rv[i as int]);
                assert(prev.push(i).map_values(obj) =~= prev.map_values(obj).push(obj(i)));
                lemma_join_push(prev.map_values(obj), seq![',', '\n'], obj(i));
            }
            written = written + 1;
        }
        k = k + 1;
    }
    proof {
        assert(filtered_indices@.take(filtered_indices.len() as int) =~= filtered_indices@);
    }
    let mut out = String::new();
    if written == 0 {
        proof {
            reveal_strlit("[]\n");
        }
        append_literal(&mut out, "[]\n");
        return out;
    }
    proof {
        reveal_strlit("[\n");
        reveal_strlit("\n]\n");
    }
    append_literal(&mut out, "[\n");
    append_literal(&mut out, body.as_str());
    append_literal(&mut out, "\n]\n");
    out
}

fn append_markdown_line(out: &mut String, cells_of: &[String], cols: &[usize])
    ensures
        final(out)@ == old(out)@ + markdown_line(visible_cells(cells_of.deep_view(), cols@)),
{
    let ghost start = out@;
    let ghost parts = visible_cells(cells_of.deep_view(), cols@).map_values(
        |t: Seq<char>| seq![' '] + markdown_escape(t) + seq![' ', '|'],
    );
    proof {
        reveal_strlit("|");
    }
    append_literal(out, "|");
    let mut j: usize = 0;
    while j < cols.len()
        invariant
            j <= cols.len(),
            parts == visible_cells(cells_of.deep_view(), cols@).map_values(
                |t: Seq<char>| seq![' '] + markdown_escape(t) + seq![' ', '|'],
            ),
            out@ == start + seq!['|'] + concat(parts.take(j as int)),
        decreases cols.len() - j,
    {
        let text = text_or_empty(cells_of, cols[j]);
        proof {
            reveal_strlit(" ");
            reveal_strlit(" |");
        }
        append_literal(out, " ");
        append_markdown_escaped(out, text);
        append_literal(out, " |");
        proof {
            assert(parts.take(j + 1) =~= parts.take(j as int).push(parts[j as int]));
            lemma_concat_push(parts.take(j as int), parts[j as int]);
            assert(out@ =~= start + seq!['|'] + concat(parts.take(j + 1)));
        }
        j = j + 1;
    }
    proof {
        reveal_strlit("\n");
        assert(parts.take(cols.len() as int) =~= parts);
    }
    append_literal(out, "\n");
    proof {
        assert(final(out)@ =~= start + markdown_line(visible_cells(cells_of.deep_view(), cols@)));
    }
}

/// Export the listed rows' visible columns as a GitHub-flavoured Markdown table (see
/// `markdown_export`).
pub fn export_markdown(headers: &[String], rows: &[Vec<String>], filtered_indices: &[usize], visible_col_indices: &[usize]) -> (res: String)
    ensures
        res@ == markdown_export(headers.deep_view(), rows.deep_view(), filtered_indices@, visible_col_indices@),
{
    let ghost rv = rows.deep_view();
    let ghost cols = visible_col_indices@;
    let ghost pred = |i: usize| i < rv.len();
    let ghost line = |i: usize| markdown_line(visible_cells(rv[i as int], cols));
    let ghost sep_parts = cols.map_values(|c: usize| seq![' ', '-', '-', '-', ' ', '|']);
    let mut out = String::new();
    if visible_col_indices.len() == 0 {
        proof {
            assert(out@ =~= markdown_export(headers.deep_view(), rows.deep_view(), filtered_indices@, visible_col_indices@));
        }
        return out;
    }
    append_markdown_line(&mut out, headers, visible_col_indices);
    let ghost head = out@;
    proof {
        reveal_strlit("|");
    }
    append_literal(&mut out, "|");
    let mut j: usize = 0;
    while j < visible_col_indices.len()
        invariant
            j <= visible_col_indices.len(),
            cols == visible_col_indices@,
            sep_parts == cols.map_values(|c: usize| seq![' ', '-', '-', '-', ' ', '|']),
            out@ == head + seq!['|'] + concat(sep_parts.take(j as int)),
        decreases visible_col_indices.len() - j,
    {
        proof {
            reveal_strlit(" --- |");
        }
        append_literal(&mut out, " --- |");
        proof {
            assert(sep_parts.take(j + 1) =~= sep_parts.take(j as int).push(sep_parts[j as int]));
            lemma_concat_push(sep_parts.take(j as int), sep_parts[j as int]);
        }
        j = j + 1;
    }
    proof {
        reveal_strlit("\n");
        assert(sep_parts.take(cols.len() as int) =~= sep_parts);
    }
    append_literal(&mut out, "\n");
    let ghost prefix = out@;
    let mut k: usize = 0;
    while k < filtered_indices.len()
        invariant
            k <= filtered_indices.len(),
            rv == rows.deep_view(),
            cols == visible_col_indices@,
            pred == (|i: usize| i < rv.len()),
            line == (|i: usize| markdown_line(visible_cells(rv[i as int], cols))),
            out@ == prefix + concat(filtered_indices@.take(k as int).filter(pred).map_values(line)),
        decreases filtered_indices.len() - k,
    {
        let i = filtered_indices[k];
        let ghost prev = filtered_indices@.take(k as int).filter(pred);
        proof {
            reveal(Seq::filter);
            assert(filtered_indices@.take(k + 1).drop_last() =~= filtered_indices@.take(k as int));
            assert(filtered_indices@.take(k + 1).last() == i);
        }
        if i < rows.len() {
            let row_slice = rows[i].as_slice();
            append_markdown_line(&mut out, row_slice, visible_col_indices);
            proof {
                assert(row_slice.deep_view() =~= rv[i as int]);
                assert(prev.push(i).map_values(line) =~= prev.map_values(line).push(line(i)));
                lemma_concat_push(prev.map_values(line), line(i));
                assert(out@ =~= prefix + concat(filtered_indices@.take(k + 1).filter(pred).map_values(line)));
            }
        }
        k = k + 1;
    }
    proof {
        assert(filtered_indices@.take(filtered_indices.len() as int) =~= filtered_indices@);
        assert(out@ =~= markdown_export(headers.deep_view(), rows.deep_view(), filtered_indices@, visible_col_indices@));
    }
    out
}

} // verus!
