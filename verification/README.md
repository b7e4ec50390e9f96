# plush

A small dynamically typed scripting language, its compiler and its virtual
machine, written in Verus with every function of the library proved against
its contract.

## Layout

- `src/` is the library, verified by Verus:
  - `lexer`, `parser`: source text to syntax tree, with the position of every
    node; byte array literals and parameter lists have exact grammars.
  - `symbols`: name resolution over nested scopes.
  - `codegen`: syntax tree to instructions, which only ever appends code and
    patches the jumps it emitted itself.
  - `insns`: the instruction encoding, with a decode for every opcode.
  - `value`, `allocator`, `heap`, `object`, `closure`, `str`, `array`,
    `bytearray`, `dict`: tagged values and the heap blocks they point to.
  - `methods`, `runtime`, `host`: the methods of the built-in types and the
    host function table.
  - `vm`: the machine that runs compiled code, one instruction at a time.
  - `gc`: the heap checker and the undo log of a copy.
  - `paths`: the checks on a file path that go by its text alone.
- `tests/` runs the library on concrete programs and values.
- `app/` is the command-line program: it reads the source file, asks the
  operating system for its page size and runs the library on the result.
  The machine stops at each call of a host function and says which one,
  on which values; `app/` performs it (printing, files, time) and hands
  the result back.

`Law`-named proof functions state what holds across calls, such as what a
dictionary read gives back after a write.

## Not supported

- Floating-point numbers, and the methods that take or give them.
- The host functions for actors, windows and audio, which need threads and
  a display; `dump_bytecode`; and `blit_bgra32`, whose lookup succeeds but
  whose call reports that it is not available.
- Garbage collection: a heap that fills up ends the program with an
  out-of-memory error.
