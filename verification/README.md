# gsyncing

Game-save cloud synchronisation: a game's save folders are mirrored to an
S3-compatible bucket or a WebDAV server, with two-way reconciliation,
per-file version history, named snapshots and a cross-machine advisory lock.

## Layout

- `src/` — the library, verified with Verus.  The decisions of a sync are
  made here and stated in the functions' contracts (the float rate limiter
  and the UI plumbing stay in `app/`):
  - `engine` — push, pull and two-way planning, conflict resolution, the
    remote folder of a game, the preview of a plan; laws of planning.
  - `run` — the order of a run's stages and which failures stop it, the
    jobs a plan turns into (uploads, downloads, deletions, conflict
    copies), progress counting and the report of a finished run.
  - `scan` — which roots are walked, which files the globs select, when a
    previous hash is reused, the order of a scan.
  - `versions`, `snapshots`, `lock` — version keys, listing and pruning;
    snapshot manifests, the order of creating, restoring and deleting one;
    the advisory lock.
  - `config`, `crypto` — editing the configuration, import/merge, the
    stored form of secrets: which are sealed or opened by the platform's
    protection service and how its answers are stored and read.
  - `remote`, `paths`, `retry` — WebDAV path rules, save-path expansion,
    which failures are retried and after how long.
  - `auto`, `procwatch`, `tray`, `logs`, `stats` — the decisions of the
    background services (which games the watcher pushes), the tray menu,
    the log ring and the statistics
    file.
  - `text`, `keymap`, `digest`, `clock`, `model`, `error` — strings, a
    sorted key map, hashing, the system clock and random identifiers (both
    of which can fail, and say so), the data model and the error type.
- `app/` — the I/O around the library: configuration and index files, the
  S3 and WebDAV clients, the concurrent transfers, the scheduler, file and
  process watchers, the Windows protection service (DPAPI) for secrets, and
  the commands the UI calls.  The window system is reached through the
  `Shell` trait.
- `tests/` — tests of the library on concrete values.
