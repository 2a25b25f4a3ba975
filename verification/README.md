# Fun compiler, verified

A compiler for the small language Fun: a recursive-descent parser builds the
syntax tree of a program, and a code generator writes x86-64 assembly (NASM
syntax) for it. The library is written in Verus and proved against its
contracts; the command-line driver reads `texto.txt`, writes `output.asm`
and calls `nasm` and `ld`.

## Layout

- `src/ast.rs` — the syntax tree and its mathematical model.
- `src/caracteres.rs`, `src/texto.rs` — character classes; decimal numerals.
- `src/gramatica.rs` — the grammar, as spec functions over the characters of
  the input and a position: what is read, or the error message and where
  reading stopped.
- `src/parser.rs` — the parser; each reading function is proved to do what
  the grammar says.
- `src/codegen.rs` — the code generator; each function is proved to write
  exactly the text that a spec function gives.
- `src/compilador.rs` — the checks that code generation needs, and the
  whole compilation of a source text.
- `src/leis.rs`, `src/leis_programa.rs` — the parser reads back what a
  printer writes of an expression, a command or a program.
- `src/leis_compilacao.rs` — every program the parser reads can be given to
  the code generator, wherever its sizes fit the machine.
- `app/main.rs` — the driver: file I/O and the assembler and linker.
