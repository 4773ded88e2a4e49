# Assemulator

A framework for designing, assembling and emulating instruction sets, with
its assembler and its emulators verified by Verus.

A processor implements the `Cpu` trait (`src/cpu.rs`): how the tokens of an
instruction encode, how one step executes, and how it talks to the host
through its ports. It then gets the two-pass assembler of `src/assembler/`
and the run loop of `app/main.rs`.

## Layout

- `src/assembler/`: line syntax, expressions, macros, the specification of an
  assembly (`model.rs`) and the assembler that meets it (`passes.rs`).
- `src/cpu/risc16/`, `src/cpus/`: the processors.
- `src/port.rs`, `src/screen.rs`, `src/color.rs`: the I/O ports, the
  double-buffered screen and its palette, as state that the host drives.
- `app/main.rs`: the command line program: reads files, the terminal and the
  window, and hands what it read to the library.

## Assembly syntax

    (label:)? (opcode arg, arg, ... | .directive arg, ...)? (; comment)?

Arguments are registers, character literals (`'a'`, with `\n`, `\t`, `\0`
escapes), strings (`"..."`, for `.strz` and `.include`) or expressions
(`1 + 2 * 3`, `label << 2`; decimal, `0x`, `0b` and `0o` numbers).

Directives: `.i8`, `.i16`, `.zero n`, `.fill value, n`, `.align n`, `.strz`, `.set`,
`.macro args ... .endm`, `.if expr ... .endif`, `.include "file"`.
Macros replace each whole name in their body that equals an argument, written
`name` or `$name`, by the value given (`@name` stays); includes and macros nest
without a limit of their own.
