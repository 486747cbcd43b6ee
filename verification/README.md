# work_logr

Generates weekly Excel timesheets from a user's GitHub issues, pull requests and commits.

The library (`src/`) holds the logic, written in Verus with its contracts proved:

- `mapper`, `model`: GitHub records to timesheet entries (who worked on what, merge commits
  left out, commits of listed pull requests left out, duplicates dropped).
- `dates`, `weeks`, `chronology`: dates and instants (with chrono doing the calendar work),
  the Sunday-ending weeks of a period, entries grouped by week and ordered by date.
- `excel`: the workbook template's worksheet XML and shared-string table: finding the header
  labels, table columns and fill rows, building the week's rows, and writing cells.
- `config`, `cli`, `github`, `report`, `ai`: settings, run options, request and paging
  decisions, labels and file names, and the checks on rewritten descriptions.

The program (`app/`) does the input and output around it: command-line parsing, the
environment, HTTP requests and JSON, and reading and writing the `.xlsx` package.
