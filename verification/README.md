# tamal

A verified toolchain for the tamal eSPI test rig, written in Verus.

- `src/abi` — the rig's wire formats: the instruction set and its encoding,
  the link configuration, CRC-8, COBS framing, control messages and traces.
- `src/assembler` — tamal assembly: lexer, line parser, symbol passes,
  encoder and renderer. `assemble` turns source text into instructions or
  the whole batch of diagnostics.
- `src/lang` — tamal-lang, the test language: lexer, parser, compile-time
  evaluation, register allocation and the emitter that lowers a test to
  tamal assembly; `compile` runs that text through the assembler.
- `src/loader` — framing programs and triggers for a rig behind a
  user-supplied `Transport`.
- `app/` — the command-line front end (files, serial port, rendering).
- `tests/` — behaviour tests run against the compiled library.

Every function in `src/` is checked by Verus against its `requires` and
`ensures`; the few calls into std that Verus has no specification for go
through small wrappers whose contracts are stated next to them.

`li rd, value` tiles a 32-bit value into one to four words: a single
`load_imm` for values in `-1024..=1023`, otherwise a `lui` of the high bits
(never `lui rd, 0`) or a `load_imm` seed, then `addi rd, rd` steps for the
rest — so `li x1, 0xDEAD` takes two words (`lui x1, 14` then
`addi x1, x1, -339`), and a test of `li x1, 0xDEAD`, `mark 1, x1` and `pass`
assembles to four words (`lemma_tile_li_shape` and `lemma_tile_li` state the
tiling for every value).
