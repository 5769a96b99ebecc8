# syncora

The verified core of Syncora, a folder synchroniser that keeps local folders
in step with an S3-compatible bucket (Cloudflare R2), either through
`rclone bisync` on the desktop or through its own S3 engine.

`src/` is the library, written in Verus: every function carries a contract
and is proved against it.

- `rclone/` reads `rclone bisync` output, builds its command line and runs a
  bisync (with one resync retry) as a state machine.
- `s3sync/` is the S3 engine: the three-way comparison of local files,
  remote objects and the last recorded state, SigV4 request signing, the
  reading of listings, and the bookkeeping of a run.
- `auth/` builds the backend requests, reads JWT expiry and keeps the
  session as key/value rows.
- `db/` writes records as rows and reads them back (settings, session, the
  state of the last sync, folder status transitions).
- `sync/` and `commands/` hold the decisions of a sync, a release, the
  scheduler and the user's commands.

The `law_*` proof functions state properties of the library as a whole:
round trips of what is stored, convergence of the three-way comparison,
and the like.

`app/` is ordinary Rust around the library: SQLite, HTTP, the rclone
process, the file system, the background scheduler and a command line.
`tests/` runs the library on concrete inputs.
