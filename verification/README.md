# rslog

A lightweight logging library whose logic is verified with Verus.

`src/` is the verified library:

- `level` – log levels, their names and parsing, the threshold test
- `filter` – per-module level overrides matched by longest module prefix,
  and their textual form `module=level,...`
- `formatter`, `calendar` – text, JSON and custom-pattern lines, timestamps
  and the day-count-to-date conversion
- `color` – ANSI color codes and per-level color schemes
- `config` – configuration and its builder
- `rotator`, `deflate`, `gzip` – when a log file is due for rotation,
  rotated file names, which old files are removed, and the compression of
  rotated files (fixed-Huffman DEFLATE with greedy LZ77 matching, proved to
  read back to the input and to shrink runs of one byte) in the gzip
  container
- `writer`, `logger` – log entries, batching for the file (including the
  last write on stop), and what one logging call writes to the console and to the file

`app/` holds what touches the outside world: reading the environment, the
background writer thread, the file rotator and the global logger with its
`trace!` … `critical!` macros.
