use csvr::export::{escape_json_string, escape_markdown_cell, export_json, export_markdown};

fn make_rc_rows(rows: &[&[&str]]) -> Vec<Vec<String>> {
    rows.iter()
        .map(|row| row.iter().map(|s| s.to_string()).collect())
        .collect()
}

#[test]
fn export_json_basic() {
    let rows = make_rc_rows(&[&["Alice", "30"], &["Bob", "25"]]);
    let result = export_json(&["name".into(), "age".into()], &rows, &[0, 1], &[0, 1]);
    assert_eq!(
        result,
        "[\n  {\"name\": \"Alice\", \"age\": \"30\"},\n  {\"name\": \"Bob\", \"age\": \"25\"}\n]\n"
    );
}

#[test]
fn export_json_special_chars() {
    let rows = make_rc_rows(&[&["say \"hi\"", "line1\nline2"]]);
    let result = export_json(&["msg".into(), "note".into()], &rows, &[0], &[0, 1]);
    assert!(result.contains("say \\\"hi\\\""));
    assert!(result.contains("line1\\nline2"));
}

#[test]
fn export_json_empty_rows() {
    let rows = make_rc_rows(&[&["a"]]);
    let result = export_json(&["col".into()], &rows, &[], &[0]);
    assert_eq!(result, "[]\n");
}

#[test]
fn export_json_visible_cols() {
    let rows = make_rc_rows(&[&["Alice", "30", "Tokyo"]]);
    let result = export_json(
        &["name".into(), "age".into(), "city".into()],
        &rows,
        &[0],
        &[0, 2],
    );
    assert!(result.contains("\"name\""));
    assert!(result.contains("\"city\""));
    assert!(!result.contains("\"age\""));
}

#[test]
fn export_markdown_basic() {
    let rows = make_rc_rows(&[&["Alice", "30"], &["Bob", "25"]]);
    let result = export_markdown(&["name".into(), "age".into()], &rows, &[0, 1], &[0, 1]);
    assert_eq!(
        result,
        "| name | age |\n| --- | --- |\n| Alice | 30 |\n| Bob | 25 |\n"
    );
}

#[test]
fn export_markdown_pipe_escape() {
    let rows = make_rc_rows(&[&["a|b"]]);
    let result = export_markdown(&["val".into()], &rows, &[0], &[0]);
    assert!(result.contains("a\\|b"));
}

#[test]
fn export_markdown_empty_rows() {
    let rows = make_rc_rows(&[&["a"]]);
    let result = export_markdown(&["col".into()], &rows, &[], &[0]);
    assert_eq!(result, "| col |\n| --- |\n");
}

#[test]
fn export_markdown_visible_cols() {
    let rows = make_rc_rows(&[&["Alice", "30", "Tokyo"]]);
    let result = export_markdown(
        &["name".into(), "age".into(), "city".into()],
        &rows,
        &[0],
        &[0, 2],
    );
    assert!(result.contains("| name | city |"));
    assert!(!result.contains("age"));
}

#[test]
fn export_json_control_chars() {
    let rows = make_rc_rows(&[&["a\x00b\x08c\x1f"]]);
    let result = export_json(&["val".into()], &rows, &[0], &[0]);
    assert!(result.contains("a\\u0000b\\u0008c\\u001f"));
}

#[test]
fn export_markdown_newline_in_cell() {
    let rows = make_rc_rows(&[&["line1\nline2"]]);
    let result = export_markdown(&["val".into()], &rows, &[0], &[0]);
    assert!(result.contains("| line1 line2 |"));
}

#[test]
fn export_json_out_of_bounds_index() {
    let rows = make_rc_rows(&[&["Alice"]]);
    let result = export_json(&["name".into()], &rows, &[0, 99], &[0]);
    // Row index 99 is skipped safely; only Alice appears
    assert_eq!(result, "[\n  {\"name\": \"Alice\"}\n]\n");
}

#[test]
fn export_json_header_escape() {
    let rows = make_rc_rows(&[&["val"]]);
    let result = export_json(&["col\"name".into()], &rows, &[0], &[0]);
    assert!(result.contains("\"col\\\"name\""));
}

#[test]
fn export_markdown_header_pipe_escape() {
    let rows = make_rc_rows(&[&["val"]]);
    let result = export_markdown(&["col|name".into()], &rows, &[0], &[0]);
    assert!(result.contains("col\\|name"));
}

#[test]
fn export_json_empty_visible_cols() {
    let rows = make_rc_rows(&[&["Alice"]]);
    let result = export_json(&["name".into()], &rows, &[0], &[]);
    assert_eq!(result, "[]\n");
}

#[test]
fn export_markdown_empty_visible_cols() {
    let rows = make_rc_rows(&[&["Alice"]]);
    let result = export_markdown(&["name".into()], &rows, &[0], &[]);
    assert_eq!(result, "");
}

#[test]
fn export_json_out_of_bounds_first() {
    // When the first filtered index is out of bounds, the written counter
    // prevents a leading comma from appearing in the output.
    let rows = make_rc_rows(&[&["Alice"]]);
    let result = export_json(&["name".into()], &rows, &[99, 0], &[0]);
    assert_eq!(result, "[\n  {\"name\": \"Alice\"}\n]\n");
}

#[test]
fn export_markdown_cr_in_cell() {
    let rows = make_rc_rows(&[&["line1\r\nline2"]]);
    let result = export_markdown(&["val".into()], &rows, &[0], &[0]);
    assert!(result.contains("| line1  line2 |"));
}

#[test]
fn escape_json_string_all_short_escapes() {
    assert_eq!(escape_json_string("a\"b\\c\nd\re\tf"), "a\\\"b\\\\c\\nd\\re\\tf");
}

#[test]
fn escape_json_string_c1_control_and_unicode() {
    assert_eq!(escape_json_string("\u{7f}\u{9f}é"), "\\u007f\\u009fé");
}

#[test]
fn escape_markdown_cell_mixed() {
    assert_eq!(escape_markdown_cell("a|b\nc\rd"), "a\\|b c d");
}

/// Decodes the body of a JSON string (without its quotes), as a JSON reader would.
fn decode_json_string_body(s: &str) -> String {
    let mut out = String::new();
    let mut chars = s.chars();
    while let Some(c) = chars.next() {
        if c != '\\' {
            assert!(c != '"' && (c as u32) >= 0x20, "unescaped {:?}", c);
            out.push(c);
            continue;
        }
        match chars.next().unwrap() {
            '"' => out.push('"'),
            '\\' => out.push('\\'),
            '/' => out.push('/'),
            'n' => out.push('\n'),
            'r' => out.push('\r'),
            't' => out.push('\t'),
            'b' => out.push('\u{8}'),
            'f' => out.push('\u{c}'),
            'u' => {
                let hex: String = (0..4).map(|_| chars.next().unwrap()).collect();
                out.push(char::from_u32(u32::from_str_radix(&hex, 16).unwrap()).unwrap());
            }
            other => panic!("bad escape {:?}", other),
        }
    }
    out
}

#[test]
fn json_escape_reads_back() {
    let input = "quote \" back \\ nl \n cr \r tab \t nul \u{0} del \u{7f} c1 \u{9f} caf\u{e9} \u{1f600}";
    let escaped = escape_json_string(input);
    assert_eq!(decode_json_string_body(&escaped), input);
}
