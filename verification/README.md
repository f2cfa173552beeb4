# bubble

The core of the Bubble game engine as a verified library: the rules and data
structures are written in Verus and proved against their contracts; the
application crate performs the file-system, plugin and runtime work around
them.

- `src/` — the library, every function verified:
  - `path`: file-system safe names and ordinal names for duplicates;
  - `version`, `registry`: semantic versions and the api/interface registry
    with caret-compatible lookups;
  - `bonsai`: a weight-balanced search tree map;
  - `plugin`: plugin build metadata, plugin file listing and hot-reload
    copies, the hot-reload bookkeeping;
  - `basin`: versioned example types and the buffer storage's records and
    read windows;
  - `tasks`: the task system's dispatcher choice, cancellation and the steps
    of the frame tick;
  - `flags`, `fs`, `macros`, `skip`, `hash`, `sync`, `os`, `wand`, `text`:
    feature flags, retry classification and directory listings, generated
    names, tower heights, hashers and small shared types.
  The laws, proof functions that state what holds across calls, close the
  modules they speak of.
- `tests/` — tests of the library on concrete values.
- `app/` — the I/O around the library, the lock-free containers and the
  encoded forms of the versioned types.
