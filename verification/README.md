# bpm

A project manager for btrfs. Every project below a root is a subvolume of its own; `bpm` takes
snapshots of it when it has changed, thins them as they age, watches for sudden losses of files,
collapses and recompresses what lies dormant, and archives what nobody uses.

The rules by which it does so are verified with Verus.

- `src/` is the library: every decision, as functions from plain values to plain values, with
  contracts that Verus proves. Work that alternates between the disk and a decision is written as
  steps: a function takes the step that was done and whether it succeeded, and gives the next one.
  - `btrfs`: identities, the kernel's answers, the arguments and output of the `btrfs` command, and
    a model file system with the kernel's rules for transaction counters.
  - `config`: the configuration's shape, how its layers are merged, what a project file may change.
  - `store`: names and places in the store, records, journals, locks, the scan of a unit.
  - `policy`: what counts as a change, which snapshots go, when the guard trips, how projects age.
  - `mechanics`: taking and deleting snapshots, adoption, rollback, recompression, archives, the
    proof that precedes every deletion.
  - `ops`: the commands.
  - `outside`: the calls into other crates whose results are taken on trust.
- `app/` is the program around it: the command line, files, processes, ioctls.
- `tests/` runs the library on concrete values.

The statements that relate several functions are the proof functions whose names begin with
`law_`: that a published snapshot is recorded, that nothing is deleted without proof, that a
rollback keeps a way back, that a restore loses nothing, and others.
