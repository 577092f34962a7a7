//! Core data types of the viewer: chart kinds, sort direction, the parsed table.
use vstd::prelude::*;

verus! {

/// The kinds of chart the preview panel can draw.
#[derive(Clone, Copy, PartialEq, Eq, Debug)]
pub enum ChartType {
    Bar,
    Line,
    Scatter,
    Histogram,
}

/// The label shown on a chart kind's toolbar button.
pub open spec fn chart_label_spec(t: ChartType) -> Seq<char> {
    match t {
        ChartType::Bar => "Bar"@,
        ChartType::Line => "Line"@,
        ChartType::Scatter => "Scatter"@,
        ChartType::Histogram => "Histogram"@,
    }
}

impl ChartType {
    pub fn label(self) -> (res: &'static str)
        ensures
            res@ == chart_label_spec(self),
    {
        match self {
            ChartType::Bar => "Bar",
            ChartType::Line => "Line",
            ChartType::Scatter => "Scatter",
            ChartType::Histogram => "Histogram",
        }
    }
}

/// What the `csv` crate makes of `bytes`, read with the first record as header and
/// records of any length: the header record and the data records, or the text of the
/// error it reports.
pub uninterp spec fn csv_records(bytes: Seq<u8>) -> Result<(Seq<Seq<char>>, Seq<Seq<Seq<char>>>), Seq<char>>;

/// Reads `bytes` with `csv::ReaderBuilder::new().has_headers(true).flexible(true)`,
/// then `headers()` and `records()`; an error is turned into its `Display` text.
/// Claims: the outcome is `csv_records` of the bytes.
#[verifier::external_body]
fn read_csv_records(bytes: &[u8]) -> (res: Result<(Vec<String>, Vec<Vec<String>>), String>)
    ensures
        res matches Ok(t) ==> (csv_records(bytes@) matches Ok(p) && p == (t.0.deep_view(), t.1.deep_view())),
        res matches Err(m) ==> (csv_records(bytes@) matches Err(e) && e == m@),
{
    let mut rdr = csv::ReaderBuilder::new().has_headers(true).flexible(true).from_reader(bytes);
    let headers: Vec<String> = rdr.headers().map_err(|e| e.to_string())?.iter().map(String::from).collect();
    let rows = rdr.records().map(|r| r.map(|rec| rec.iter().map(String::from).collect())).collect::<
        Result<Vec<Vec<String>>, csv::Error>,
    >().map_err(|e| e.to_string())?;
    Ok((headers, rows))
}

#[derive(Debug)]
/// A parsed table: the header names and the data rows (rows may be shorter or longer
/// than the header).
pub struct CsvData {
    pub headers: Vec<String>,
    pub rows: Vec<Vec<String>>,
}

#[derive(Debug)]
/// The CSV input could not be parsed; the message is the parser's error text.
pub struct CsvParseError {
    pub message: String,
}

impl CsvData {
    /// Parse CSV bytes whose first record is the header; records may differ in length.
    pub fn from_reader(bytes: &[u8]) -> (res: Result<CsvData, CsvParseError>)
        ensures
            res matches Ok(d) ==> (csv_records(bytes@) matches Ok(p) && p == (d.headers.deep_view(), d.rows.deep_view())),
            res matches Err(e) ==> (csv_records(bytes@) matches Err(m) && m == e.message@),
    {
        match read_csv_records(bytes) {
            Ok((headers, rows)) => Ok(CsvData { headers, rows }),
            Err(message) => Err(CsvParseError { message }),
        }
    }

    /// A table from a sheet's rows of cell texts: the first row is the header, the
    /// others are the data rows; an empty sheet gives an empty table.
    pub fn from_sheet_rows(cells: Vec<Vec<String>>) -> (res: CsvData)
        ensures
            cells.len() == 0 ==> res.headers@.len() == 0 && res.rows@.len() == 0,
            cells.len() > 0 ==> res.headers@ == cells@[0]@ && res.rows@ == cells@.drop_first(),
    {
        let mut rows = cells;
        if rows.len() == 0 {
            return CsvData { headers: Vec::new(), rows };
        }
        let headers = rows.remove(0);
        CsvData { headers, rows }
    }
}

/// Direction of a column sort.
#[derive(Clone, Copy, PartialEq, Eq, Debug)]
pub enum SortDirection {
    Ascending,
    Descending,
}

/// Whether a direction sorts from the largest key down.
pub open spec fn is_descending(direction: SortDirection) -> bool {
    direction is Descending
}

} // verus!
