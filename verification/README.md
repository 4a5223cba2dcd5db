# birthday_list

Monthly birthday lists from a contacts table (a local CSV file or a Google
Sheets share link), verified with Verus.

- `src/` is the verified library:
  - `text` — characters, Unicode white space, trimming, substring search, digits;
  - `date` — day-first birth dates with four-digit years, ages;
  - `pattern` — regular expressions run by the `regex` crate;
  - `address` — mailing addresses as street / locality / country lines, and their notes;
  - `sheets` — Google Sheets export links, checks on downloaded text;
  - `columns` — finding columns by header name;
  - `csvio` — reading and writing CSV with the `csv` crate;
  - `report` — the output table: filtering by month, sorting by birthday, added columns;
  - `summary` — note counts by kind;
  - `cell_format` — `rust_xlsxwriter` cell formats with their bold, wrap and fill as plain values;
  - `workbook` — the colored xlsx workbook, written with `rust_xlsxwriter`: sheets, cells and their formats;
  - `laws` — properties proved for every input.
- `app/` is the command-line program: arguments, downloads, files, messages.
- `tests/` runs the library on concrete tables.
