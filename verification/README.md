# declarch_core

The decision logic of the `declarch` command-line tool, a declarative
package-manager front end, written in Verus and proved against its contracts.

- `src/` is the verified library. `src/commands/` holds one module per command
  (`cache`, `check`, `edit`, `explain`, `ext`, `hooks`, `info`, `info_reason`,
  `init`, `install`, `lint`, `list`): what each command decides from the
  configuration, the recorded state and its options. `src/model.rs` holds the
  shared data (backends, package identities, the state map, the merged
  configuration), `src/text.rs` the character-level text operations,
  `src/sorting.rs` sorting and deduplication, `src/sanitize.rs` name and
  display checks, and `src/outside.rs` the few calls into `regex`, `kdl`,
  `shlex`, `chrono` and std whose behaviour is taken on trust.
- `app/` is the input and output around it: running hook processes and
  editors, reading and writing files, scanning `PATH`, and serialising results.
- `tests/` runs the library on concrete inputs.

Each public function states in its `ensures` what it returns; the `law_*`
proof functions state properties that span functions or hold of every input,
such as that a sync plan reconciles the state with the configuration, that
an accepted `edit` target never leads outside the configuration directory, or
that sorting a file's imports a second time changes nothing (unless a line
the fix writes, before the end of the text, ends in a carriage return).
