# crimesim_bridge

The CrimeSim Bridge manages a Godot game through recoverable transactions. It applies
update packages, validates candidate builds, exports task-scoped context packs, and runs
bounded worker processes. This crate is written in Verus. Every decision the Bridge makes
is a verified function with a contract. A thin command-line program around the library
does the file, process and archive work.

## Layout

- `src/`: the verified library.
  - `journal`, `recovery`: the transaction journal, recovery planning (`plan_recovery`,
    stated over `spec_recover`) and its laws.
  - `digest`: SHA-256 identities, and the `bridge-tree-v1` tree fingerprint with the
    walk that decides what it covers (`TreeWalk`).
  - `update`, `results`: update-package path, identity, revision and payload checks, and
    the user-facing results of apply and rollback.
  - `validation`: the validation gates and their report.
  - `capture`, `worker`, `jobs`, `platform`: bounded output capture, watchdog verdicts,
    the worker job gateway, and command-line quoting.
  - `context/`: the context exporter, covering the path policy, the registry, the
    inventory, request selection, the reading budget, the source-index identity and
    the handoff text.
  - `package`, `status`, `runtime`, `project`, `names`, `text`: chat packs, the status
    report, runtime checks, game metadata, file names and text helpers.
- `tests/`: executable tests of the library.
- `app/`: the command-line program: file system, processes, ZIP archives and JSON.

Calls into `sha2`, `hex` and `serde_json`, and a few std functions, sit behind small
trusted wrappers. Each wrapper's doc comment says what its contract claims.
