# hack_toolchain

A Hack assembler and a Jack-to-VM compiler (the toolchain of the Nand to
Tetris course), written in Verus: the library's behaviour is stated in
`requires` / `ensures` contracts over mathematical models and proved.

## Layout

- `src/text.rs`: character-sequence helpers (`str::lines`, `trim`,
  `trim_matches`, comment search) with their specifications.
- `src/numbers.rs`: decimal and binary digits, `str::parse` for `i16` and
  `usize`.
- `src/table.rs`: a string-keyed table whose view is a `Map`.
- `src/assembler.rs`: `AsmParser` (cleaning, fields of C-instructions, the
  two passes of translation) and the laws of the assembler.
- `src/hack_tables.rs`: the predefined symbols and the comp/dest/jump codes,
  and `assemble`, the whole assembler on one source text.
- `src/args.rs`: the command-line checks of both programs.
- `src/tokenizer.rs`: the Jack tokenizer.
- `src/writer.rs`: the VM code writer.
- `src/symbol.rs`: the symbol table of a class or subroutine scope.
- `src/compile_model.rs`: what compiling Jack yields, as spec functions over
  a `State` value.
- `src/compile_shapes.rs`: laws on the shape of compiled expressions.
- `src/compile.rs`: the compilation engine, each step proved equal to its
  counterpart in `compile_model.rs`.
- `app/main.rs`: the command-line program (file system, arguments).
- `tests/`: tests of the library.
