# ywpm

A wallpaper manager for Linux: a daemon (`ywpmd`) keeps a database of
wallpaper files and folders, with their display modes, recursion levels,
groups and time periods, and shows a wallpaper through the `mpvpaper`
backend; a client (`ywpm`) sends it the command line over a Unix socket.

The library in `src/` is verified with Verus:

- `wire` — the length-prefixed protocol between client and daemon, with
  proofs that what is written reads back unchanged;
- `arg_parser`, `parse_action`, `action`, `arg_error` — reading the
  command line into an action, with the exact error of every refused input;
- `clock`, `duration`, `time_period` — dates, times, durations and the
  period options;
- `display_mode`, `resolution`, `backend` — display modes (shown and read
  back unchanged), aspect ratios, and the backend's options;
- `node`, `state` — the database, its well-formedness, every operation on
  nodes and groups, and its configuration form (read back unchanged);
- `wallpaper`, `non_fitting` — finding the wallpaper files under nodes,
  choosing one at random, and reporting the files that do not fit the
  display;
- `daemon` — the event loop's decisions and the client's questions.

`app/` holds what the library leaves to the caller: sockets, signals, the
file system walk, the media probes, the YAML configuration file and the
backend process.
