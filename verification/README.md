# pagedb

The transaction layer of an embedded, encrypted page store: how a store is
opened, how write transactions commit and readers are pinned, how snapshots are
exported, restored and applied to a follower, and how a store changes its keys.

`src/` is the library. It is verified with Verus: every function states what it
returns and what it changes, and the proof functions whose names begin with
`law_` state what holds of several of them together.

- `tree`, `order`, `sets`, `codec`: rows in key order, byte order, sets, and the
  encodings that headers and rows use.
- `catalog`, `header`, `paths`, `options`, `mode`, `policy`, `ids`, `errors`,
  `clock`: what is stored and under which names.
- `read`, `write`: the two kinds of transaction.
- `db`: the handle. Its operations take what was read from files as arguments
  and hand back what is to be written; where work and decisions alternate, a
  function goes from a step and what came of it to the next step.

Only the system clock, the message authentication code that proves a rekey's
keys, and the comparison of two such proofs in constant time come from outside;
they stand behind functions marked as external, next to what is taken from them.

`app/` performs those steps: it opens stores, commits sessions, exports, restores
and applies snapshots, completes journals and changes keys, over a page layer and
sentinel locks that its `pages` module describes. `tests/` runs the library on
concrete values.
