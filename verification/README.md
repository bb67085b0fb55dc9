# setun70

A verified emulator of the Setun-70 ternary computer, written in Verus.

Layout of `src/`:

- `arith`, `trit`, `tryte`, `word`: balanced-ternary arithmetic (trits,
  6-trit syllables, 18-trit words, 36-trit double words).
- `registers`, `memory`, `machine`: the register file, the level-1 memory
  (RAM/ROM pages) and level-2 drum, and the processor (power-on, the
  CYCLE, the BASIC/SPEC/MACRO groups, interrupts, the I/O service and the
  run loop).
- `charset`, `io`: the character table, the tape-row codec and the byte
  devices (tape reader, punch, teletype, device bus).
- `assembler`, `syllables`, `loader`, `firmware`: listing and assembly of
  syllables (with the law that assembling a listing gives the syllable
  back), page dumps, state traces, the tape loader and the demo programs.
- `util`, `vm`, `ops`, `triplet_memory`, `debugger`: the table-driven VM of
  the interactive debugger, its triplet memory and its number texts.

`app/main.rs` is the command-line program (demo run, teletype echo,
debugger); `tests/` holds the tests.
