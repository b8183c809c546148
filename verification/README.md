# searchmonkey

The verified core of Searchmonkey III, a desktop tool that searches files on
disk with ripgrep and lets plugins turn opaque formats (PDF and the like) into
searchable `.sm.txt` sidecar text.

- `src/` is the library, checked by Verus: the command line, the ripgrep
  command and its JSON output, plugin manifests and discovery, the file
  classifier and search excludes, the index mirror paths (for Unix and
  Windows paths alike), plugin output meta files and the validity of a
  cached output, failure handling and retry rules, the indexing queues and
  their state database rules, package installation rules, the purchases
  connection, and the search sessions of the window. Each public function
  states its result in `requires`/`ensures`; the `law_*` proof functions
  state properties that span calls.
- `tests/` runs the library on concrete values.
- `app/` is the desktop side: files, processes, SQLite, threads, HTTP and
  the keyring, calling the library for every decision.
