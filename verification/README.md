# pyscman

A server that keeps Python scripts, runs them at request or by the clock, and tells those who
listen how they fare.

- `src/` is the library, verified with Verus: tasks and the store that holds them (`task`, `store`,
  `startup`), the answers to requests (`api`), the clock and the schedules (`moment`,
  `scheduler`), the runs of scripts (`imports`, `runner`), files that are sent (`upload`), and
  those who listen (`clients`, `message`, `json`). `laws`, `histories`, `run_laws` and
  `upload_laws` state what holds of them together, whatever is done and however often.
- `app/` is the server around it: files, processes, threads and connections. Runs and uploads
  are driven there by the state machines of `runner` and `upload`.
- `tests/` runs the library on given values.

What the library takes from `chrono`, `serde_json`, `sanitize-filename` and `uuid` goes through
small functions marked `external_body`, whose contracts are taken on trust; each says which call
it makes and what it claims of it.
