# download_cli

A command-line downloader that splits a file into byte ranges fetched by
concurrent tasks, and keeps a record of the ranges still missing when a
download is interrupted, so that a later run can resume it.

- `src/` is the verified library (Verus): splitting a range among tasks and
  the `Range` header of each piece; decimal text; the record of unfinished
  downloads and its updates; the settings of a download and the decisions
  taken before and after the transfer; what a task does with each chunk; the
  count behind a progress bar.
- `app/` is the program around it: command-line parsing, HTTP requests,
  files, terminal prompts and progress bars, and the JSON form of the record.
- `tests/` runs the library on concrete values.
