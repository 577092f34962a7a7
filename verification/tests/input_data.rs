use csvr::data::{ChartType, CsvData};
use csvr::encoding::{decode_to_utf8, is_valid_utf8};

#[test]
fn parse_basic_csv() {
    let input = "name,age,city\nAlice,30,Tokyo\nBob,25,Osaka\n";
    let data = CsvData::from_reader(input.as_bytes()).unwrap();
    assert_eq!(data.headers, vec!["name", "age", "city"]);
    assert_eq!(data.rows.len(), 2);
    assert_eq!(data.rows[0], vec!["Alice", "30", "Tokyo"]);
    assert_eq!(data.rows[1], vec!["Bob", "25", "Osaka"]);
}

#[test]
fn parse_single_column() {
    let input = "value\n1\n2\n3\n";
    let data = CsvData::from_reader(input.as_bytes()).unwrap();
    assert_eq!(data.headers, vec!["value"]);
    assert_eq!(data.rows.len(), 3);
}

#[test]
fn parse_empty_body() {
    let input = "a,b,c\n";
    let data = CsvData::from_reader(input.as_bytes()).unwrap();
    assert_eq!(data.headers, vec!["a", "b", "c"]);
    assert!(data.rows.is_empty());
}

#[test]
fn parse_quoted_fields() {
    let input = "name,note\nAlice,\"hello, world\"\nBob,\"line1\nline2\"\n";
    let data = CsvData::from_reader(input.as_bytes()).unwrap();
    assert_eq!(data.rows[0][1], "hello, world");
    assert_eq!(data.rows[1][1], "line1\nline2");
}

#[test]
fn parse_empty_input() {
    let input = "";
    let data = CsvData::from_reader(input.as_bytes()).unwrap();
    assert!(data.headers.is_empty());
    assert!(data.rows.is_empty());
}

#[test]
fn parse_invalid_utf8_is_error() {
    let input: &[u8] = &[b'a', b'\n', 0xff, 0xfe, b'\n'];
    assert!(CsvData::from_reader(input).is_err());
}

#[test]
fn parse_error_message_locates_the_record() {
    let input: &[u8] = &[b'a', b'\n', 0xff, 0xfe, b'\n'];
    let err = CsvData::from_reader(input).unwrap_err();
    assert!(err.message.starts_with("CSV parse error: record 1 (line 2,"), "{}", err.message);
}

// --- decode_to_utf8 ---

#[test]
fn decode_utf8_passthrough() {
    let input = "name,age\nAlice,30\n";
    assert!(decode_to_utf8(input.as_bytes()).is_none());
}

#[test]
fn decode_shift_jis() {
    // "名前" in Shift-JIS: 0x96BC 0x914F
    let sjis_bytes: Vec<u8> = vec![
        0x96, 0xBC, 0x91, 0x4F, // 名前
        0x0A, // newline
    ];
    let result = decode_to_utf8(&sjis_bytes).unwrap().expect("should transcode without errors");
    let decoded = std::str::from_utf8(&result).unwrap();
    assert!(decoded.contains("名前"));
}

#[test]
fn decode_empty_input() {
    assert!(decode_to_utf8(&[]).is_none());
}

#[test]
fn decode_non_utf8_attempts_transcoding() {
    // Non-UTF-8 bytes take the transcoding path.
    let bytes: Vec<u8> = vec![0xC0, 0xC1];
    let result = decode_to_utf8(&bytes);
    assert!(result.is_some());
}

#[test]
fn utf8_validation_matches_std() {
    let samples: Vec<Vec<u8>> = vec![
        b"plain".to_vec(),
        "名前é".as_bytes().to_vec(),
        vec![0xC0, 0x80],             // overlong
        vec![0xED, 0xA0, 0x80],       // surrogate
        vec![0xF4, 0x90, 0x80, 0x80], // above U+10FFFF
        vec![0xE6, 0x97],             // truncated
        vec![0xF0, 0x9F, 0x98, 0x80], // emoji
    ];
    for s in samples {
        assert_eq!(is_valid_utf8(&s), std::str::from_utf8(&s).is_ok());
    }
}

#[test]
fn chart_type_labels() {
    assert_eq!(ChartType::Bar.label(), "Bar");
    assert_eq!(ChartType::Line.label(), "Line");
    assert_eq!(ChartType::Scatter.label(), "Scatter");
    assert_eq!(ChartType::Histogram.label(), "Histogram");
}
