# malde

A simulator of Tanenbaum's MIC-1 machine, with an assembler for its
micro-assembly language (MAL) and for its assembly language (MAC-1), written in
Verus: the library states its behaviour in `requires`/`ensures` contracts and
Verus proves the code against them.

## Layout

- `src/architecture/`: the processor. `signals` encodes and decodes the
  microinstruction word; `datapath` holds the register bank, the ALU and the
  shifter; `memory` implements the two-cycle read and write protocol; `control`
  holds the micro-memory and the micro program counter; `events` records what
  a cycle changed. `Cpu::steps_to` states one clock cycle.
- `src/parsers/`: `source_map` (lines, spans, highlights), `mal` (lexer,
  microinstruction builder and parser of microprograms, with `ranges`, which
  proves that parsed signals fit their fields), `assembly` (lexer, instruction
  table and two-pass assembler), `lockable` (set-once signal slots).
- `src/virtual_machine/`: the machine that runs a microprogram over an
  assembled program, with system calls for printing and reading; `format`
  prints numbers.
- `app/`: the command-line front end (`--run`), which reads the files, runs the
  machine and talks to the user.
- `tests/`: executable tests of the library.

The machine does not block on input: when a read system call runs it stops in
the `Waiting` state, and the caller gives the input with `VM::handle_input` and
executes again.
