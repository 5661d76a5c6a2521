# umpv

A single-instance mpv launcher for Windows. Opening a file hands it to a
running mpv through its named pipe, or starts mpv when none is running;
`--register` and `--unregister` point mpv's per-user file associations at
umpv and back.

- `src/` is the library, verified with Verus: command-line handling
  (`cli`), the pipe path and the `loadfile` command with its escaping
  (`pipe`), mpv's start-up arguments and the steps of waiting for it and
  finding its window (`mpv`), the registration steps and a model of the
  registry they act on (`registry`), and string helpers (`text`).
- `app/` is the Windows program around it: message boxes, the pipe,
  process start, window activation, the registry and the instance lock.
- `tests/` exercises the library on concrete values.
