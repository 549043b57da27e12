# toolshed

A handful of small command-line tools whose logic is written in Verus and
proved against its contracts.

- `src/` is the verified library:
  - `wordie` — a gap buffer and a line/column editor on top of it;
  - `vector` — a growable array whose capacity doubles;
  - `pool` — a fixed-size block allocator with a free list threaded through
    the free blocks;
  - `hexaprint` — hex-dump lines in several formats, colours, and the state
    machine that drives a dump read by read;
  - `grep` — a line filter over the `regex` crate;
  - `tasker` — the SQL, parameters and row decoding of a task store, with
    ids and times encoded through the `uuid` and `chrono` crates;
  - `calc` — the calculator's operator table;
  - `text` — digit strings and string building shared by the above.
- `app/` holds the command-line front ends: argument parsing, files,
  terminals, SQLite and floating-point arithmetic.
- `tests/` exercises the library on concrete values.
