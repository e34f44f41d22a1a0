# cutile

A verified library for tile kernels: the bytecode format in which kernels are
handed to the assembler, the rules of the kernel language's front end, and the
host side's bookkeeping of asynchronous device work.

- `src/ir`: modules, operations, types, attributes and source locations.
- `src/bytecode`: the file format. `reader` and `writer` turn bytes into modules
  and back, `decoder` dumps a file as text. `file_roundtrip` proves that a file
  reads back as the module it was written from, `identity` that it is then
  written to the same bytes again, `stable` that from the second pass on nothing
  changes at all, `dominance` that whatever is read refers to values that are
  defined, `locations` that functions are found where they stood, `f8_nearest` that
  conversions to eight bits give the nearest value.
- `src/frontend`: attributes, signatures, type aliases, optimization hints,
  globals, entry functions, launch checks and inlined source locations.
- `src/device`: operations on streams, what they keep alive, and how futures
  resolve. What the driver reports is handed in.
- `src/driver.rs`: which libraries are tried, and which versions will do.
- `app`: files, shared objects, the environment, threads, tasks, floating point
  values and syntax trees. It is not verified.
- `tests`: the library on concrete values.

Floating point values are handled as bit patterns; `app/floats.rs` converts.
