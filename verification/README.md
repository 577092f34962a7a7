# csvr

A CSV and spreadsheet viewer. The table logic lives in a library whose behaviour is
stated in `requires`/`ensures` contracts and proved with Verus; the window, drawing
and file handling sit in a thin program around it.

- `src/` — the verified library:
  - `data` — chart kinds, sort direction, the parsed table (`CsvData::from_reader`).
  - `text`, `number`, `order` — character folding and search, numeric-text
    recognition, a stable merge sort with its ordering lemmas.
  - `compute` — row search, numeric column detection, sorting, downsampling,
    regex-based column and row filters.
  - `pattern`, `encoding` — case-insensitive patterns and encoding detection,
    through the `regex`, `chardetng` and `encoding_rs` crates.
  - `export` — JSON and Markdown export with their escaping.
  - `json` — a reader for JSON strings and for arrays of string-valued objects, and
    the lemmas that the JSON export reads back as the table it came from.
  - `layout` — column and row-number widths, in half pixels.
  - `view` — the viewer state: search, sort, selection, chart settings, column
    filter, pinning, row filter, and the keyboard handling that drives them.
  - `laws` — properties that span several operations, proved over the contracts.
- `tests/` — the test suite, run against the compiled library.
- `app/` — `main`, argument and file handling, spreadsheet reading (`calamine`),
  the GPUI window and chart drawing, and the floating-point statistics.
