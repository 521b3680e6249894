# lpu — a language processor unit

An assembler and a small processor whose "arithmetic" unit is a language model. Programs
are written in a RISC-V-like assembly language (`ls`, `li`, `lf`, `mv`, the branches
`beq`/`blt`/`ble`/`bgt`/`bge`, `out` (of a register, a number or a string), `exit`, and the language operations `mrf`, `prj`,
`dst`, `cor`, `aud`, `sim`), assembled into big-endian 32-bit words, and run one
instruction at a time.

The library in `src/` is verified with Verus:

- `text`, `word`: character classes, number parsing and printing, trimming and
  replacing, big-endian words.
- `assembler`: the scanner (`assembler::scanner`), the grammar of the language as a
  function from source text to byte code (`assembler::grammar`), and the executable
  assembler, proved to compute exactly that function.
- `processor`: memory, registers, the decoder and the executor. A step of the processor
  is proved to follow `processor::spec_step`; what needs the outside world (reading a
  file, printing, asking the model) comes back to the caller as an `Effect`.
- Laws relating the parts: assembled byte code has a two-word header and whole
  four-word instructions; every branch jumps to the instruction after its label; loaded
  byte code starts at its first instruction; every assembled instruction decodes, names
  registers X1–X32 only, and an instruction that reads text (`ls`, `lf`, `out "..."`)
  reads back the string that the assembler stored, up to its first zero character;
  every data word holds a byte.

`app/` is the command-line program around the library: `build <file>` writes
`build/<name>.lpu`, `run <file>` runs byte code, doing the file reads, printing and HTTP
requests to an OpenAI-compatible server (settings from `.env`).
