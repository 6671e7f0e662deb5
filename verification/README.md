# rigcoder_bench

The decisions of a Terminal-Bench runner and of the self-improvement loop around
it, as a library that Verus verifies: what a job runs and in which order, what
may be scored, what an agent may edit, and what a report says of a failure.

- `src/` is the library. It does no input or output. Where the outside world has
  a say, a function takes what happened and gives the next step: `execution` (one
  trial), `evaluation` (a slice), `one_run` (a run on its own), `improvement` (one
  self-edit) and `iteration` (the loop).
- Numbers that the harness treats as doubles are carried by their bit patterns
  (`double`) and compared as IEEE 754 compares them; their arithmetic and their
  printing are done outside and handed in.
- `json`, `ui` and `text` hold the few functions whose contracts are taken on
  trust: calls into `serde_json` and `ratatui`, and two of `std`'s string methods.
- Public proof functions state what holds of several functions together, such as
  `iteration::edits_never_see_the_holdout`.
- `tests/` runs the library on concrete values.
- `app/` is the program: command line, files, git, Docker, threads, floating
  point, and the JSON forms of what is written down.
