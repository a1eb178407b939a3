# cdtree_csv

Converts a CDtree XML export into bar-separated rows
(`cd|file|directory|size|date`) that sqlite3 can import, with the dates
rewritten as `YYYY-MM-DD hh:mm:ss.000`.

- `src/` is the library, verified with Verus:
  - `text`: substring search and splitting on bytes;
  - `date`: reading and writing the dates of the export;
  - `execpress`: the checks made before a conversion starts;
  - `scan`: the conversion, one line at a time;
  - `panel`: the window's state and how each button changes it.
- `app/` is the iced window that reads and writes the files.
- `tests/` runs the library on sample exports.
