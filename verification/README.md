# logutil

A real-time Nginx access-log analyzer with a terminal interface, whose core is
verified with Verus.

- `src/` is the verified library: log-line parsing (`helpers`, `file_reader`),
  per-IP and per-URL statistics with security, error and bot classification
  (`log_data`, `security`), an indexed in-memory record store that evicts its
  oldest records at its limit and sweeps away records older than twenty minutes
  once it holds more than 10 000 (`memory_db`, over `dashmap` through `shared_maps`), and the state of every
  screen and tab (`app`, `tab_manager`, `settings`, `file_selector`,
  `file_settings`, `overview`, `requests`, `detailed`, `heatmap`, `stat_tabs`,
  `selection`, `sparkline`, `report`). Calls into `regex-lite`, `chrono` and
  `dashmap` stand behind small trusted wrappers (`regex_match`, `datetime`,
  `shared_maps`) whose contracts say what the library relies on.
- `app/` is the program: the command line, file and directory reading, the
  clipboard, drawing with `ratatui`/`crossterm`, and the figures computed in
  floating point (response times, intensity bars).
- `tests/` exercises the library on concrete inputs.

Run `logutil [FILE] [--count N] [--enable-security ...] [--no-clear]`; without a file a start
screen lets you pick one and adjust the settings.
