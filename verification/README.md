# elle_core

The core of the Elle language runtime as a verified library: tagged values and the
heap they live in, regions and their counts, fibers and signals, primitive tables,
constant templates, messages between threads, modules, foreign memory, and the
virtual machine's decisions around calls, tail calls and resumes.

- `src/` is the library. Every function states what it returns and changes, and the
  laws that span functions stand beside them as public proof functions.
- `tests/` runs it.
- `app/` is the host: files, clocks, threads, pipes, memory maps and the byte store.
  It performs the steps that the library asks for and hands the replies back.

Work that only a host can do never happens inside the library. A function that needs
it returns a step (`ImportStep`, `SpawnStep`, `ResumeStep`, `StdlibStep`, `FfiStep`, ...),
and a second function takes the reply. What sending a value asks of it, `can_be_walked`
and `SendBundle::is_well_formed` can be asked about first. The same holds of the
evaluator, the compiler and the reader, which are no part of this crate: what they
compute comes in as an argument. Nor does the crate order values: sets keep their
elements as they came until `FiberHeap::order_set` is told the order, and a heap has
the default traits that its host gave it.

Four places rest on code that is not verified here, each behind a contract that says
what is relied on: the evaluation stack (`stack.rs`, on `smallvec`), the fast hash map
(`fxmap.rs`, on `rustc-hash`), the check that bytes are text (`bytes.rs`), and
appending a character (`text.rs`).
