# rcc

A compiler for a small subset of C, verified with Verus. It lexes C source,
parses it into a syntax tree, lowers the tree to LLVM IR through `inkwell`,
and hands the IR to `clang` or `gcc` to build an executable.

The language: `int` and pointer types, functions with parameters, local
declarations, `=` and the compound assignments `+= -= *= /= %=`, `++` and
`--` statements, blocks, `if`/`else`, `while`, `for`, `break`, `continue`,
`return`, calls, the unary operators `+ - ! * &`, and the binary operators
`* / % + - < <= > >= == != && ||` with C's precedence, and the
conditional `c ? a : b`, which groups to the right, runs only the branch
that is chosen and yields an `int`. `//` and `/* */` comments are ignored.

## Layout

- `src/lexer.rs`: the tokenizer, specified by `lex`, a function on the
  characters of the source.
- `src/grammar.rs`, `src/parser.rs`: the grammar as spec functions on token
  sequences, and the recursive-descent parser proved to compute it.
- `src/ast.rs`: the syntax tree and its mathematical view.
- `src/ir.rs`: the code handed to LLVM as plain values: the builder steps
  of each function (blocks, instructions, operands) in order, and what its
  arithmetic steps compute on `i32`.
- `src/lowering.rs`: lowering of the tree to that code, specified by
  `lowered` and proved; it also finds the first error in the program.
- `src/codegen.rs`: the specification of those errors (`program_fault`),
  and the hand-off of the code to LLVM, proved to hand over exactly the
  lowered code, step by step.
- `src/emitter.rs`: the LLVM module under construction; each of its
  trusted step functions makes one `inkwell` call and records its step.
- `src/llvm.rs`: the trusted wrappers that set up a module for the host
  target.
- `src/diagnostics.rs`: the messages of parse errors.
- `src/driver.rs`: the command-line checks of a compiler run.
- `src/lexer_laws.rs`, `src/parser_laws.rs`, `src/codegen_laws.rs`:
  properties of the three stages that hold for all inputs.
- `app/main.rs`: the `compiler` program (files, processes, logging).

`inkwell` is built for LLVM 14, so pointer types print as typed pointers
(`i32*`) in the IR.
