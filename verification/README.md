# sheet_search

A service that searches uploaded spreadsheets for given cell texts and merges the
matching rows of many files into one report workbook. The library (`src/`) holds
the search and report logic, verified with Verus; `app/` is the Rocket web
service, the Redis store and the sign-up database around it.

- `text` — whitespace stripping, decimal rendering and parsing, `batch@index` ids
- `grid`, `query` — a worksheet's used range and the queries run over it
- `knubs` — title-row checks, matching of rows, file and title numbering, cell styles
- `search` — cell searches grouped by title, and row searches building report rows
- `report` — writing stored batches into the report worksheet
- `models` — stored records, the error type, sign-up validation
- `clock`, `xlsx`, `excel` — calls into `chrono` and `rust_xlsxwriter`
- `threads` — how work is split among worker threads
- `laws` — properties that hold across calls
