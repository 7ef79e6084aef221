# ferrum-scan

A repository scanner and health inspector. The library (`src/`) holds the
logic, verified with Verus: language detection, line classification, the
storage breakdown, duplicate grouping, reading git's output, the scan
summary, the insights and health rating, and the terminal, text and Markdown
reports. The program (`app/`) walks the directory tree, reads files, runs
git, hashes duplicate candidates in parallel, reads the clock, prints the
terminal report and writes report files.

Modules of the library:

- `text`: whitespace trimming, line splitting, searching, decimal numbers.
- `paths`: path components as `std::path::Path` reads them on Unix.
- `order`: stable ordering of indices by descending weight, sums.
- `metrics`: the language of a file and its code, blank and comment lines.
- `storage`: bytes and files per top-level folder.
- `duplicates`: duplicate candidates, groups and wasted bytes.
- `git`: commit count, contributors and last commit date from git's output.
- `scan`: totals and the language breakdown of a scan.
- `insights`: findings and the health rating.
- `tables`: the `comfy_table` calls that build and draw tables.
- `terminal`: the tables and the text of the terminal report.
- `markdown`, `report`: the report files and small decisions around them.
