# tricc

A small compiler for a subset of C that emits x86-64 assembly, with every
stage written in Verus and proved against a specification of what it computes.

## Layout

- `src/lexer.rs` — bytes to tokens; `lex_from` says what every input lexes to,
  including where lexing stops.
- `src/parser/` — recursive-descent parser (`grammar.rs` holds the grammar as
  spec functions), variable resolution and loop labelling
  (`semantic_analysis.rs`; `numbering.rs` proves that resolution numbers
  every declaration once, in program order), an optional type checker
  (`type_checker.rs`),
  `accepted.rs`, which proves what every parsed program looks like, and
  `limits.rs`, which counts ahead of time what resolution and labelling
  draw from their counters.
- `src/ir/` — translation to three-address code, specified by `exp_ir`,
  `stmt_ir` and `program_ir`; `labels.rs` proves that no label is defined
  twice in a program's code, `temps.rs` that a statement's code computes
  into fresh temporaries, and `jumps.rs` that every jump targets a label of
  its own function. `budget.rs` counts ahead of time what translation draws
  from its counters.
- `src/codegen/` — lowering to assembly, frame-slot placement (each frame
  covers the slots its function uses, and a size check bounds every offset
  within `i32`), operand fixing and the assembly text, where calls to
  functions the program does not define go through the PLT.
- `src/stages.rs` — how the stages fit together: what loop labelling does,
  and that a program that resolution and labelling accept translates to
  three-address code whose labels are unique and whose jumps all land, and
  plain programs lower to assembly.
- `src/errors.rs`, `src/text.rs`, `src/common.rs`, `src/fresh.rs` —
  diagnostics, decimal text, shared vocabulary, and windows of numbers drawn
  from a counter.
- `app/main.rs` — the command-line driver: argument handling, the `gcc`
  preprocessor, assembler and linker, file I/O and error printing.
