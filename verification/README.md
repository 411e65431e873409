# offset_dumper

Finds the field offsets of a running game client's engine objects by reading
its memory, and writes them out as Rust, C++ and Python constants.

The crate is written in Verus.

- `src/` is the verified library: the offset registry and its reference
  table, the output formats, the memory model and the step-by-step readers
  that walk the target's memory one read at a time (type information, child
  lists, names, text slots, typed slots), the parsers of `/proc` maps lines,
  and the heuristics that recognise fields in a copied window of memory.
  Each reader states its result for every memory that agrees with the answers
  it was given.
- `app/` is the program around it: attaching to the process, answering the
  readers' read requests with `pread64`, running the stages in order, the
  floating-point heuristics, and writing the output files.
- `tests/` exercises the library on small memories built in the tests.
