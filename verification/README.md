# A verified compiler for a small C subset

This crate compiles a small subset of C (integer and character types,
pointers, functions, `if`, `while`, `return`, string literals) to x86-64
assembly in AT&T syntax. Every stage is written and proved in Verus; the
contracts state what each stage computes over mathematical models
(`Seq`, `Set`, spec functions), not only that it runs.

## Pipeline and what is proved

| Module | Stage | Main guarantees |
|---|---|---|
| `lexer` | tokens | each token is the one the lexical grammar (`lex`) gives, errors at the right line and column |
| `grammar`, `parser` | syntax tree | `parse` returns exactly what the grammar (`parse_s`) gives, or its error; success consumes all tokens |
| `ir_generator` | IR | succeeds exactly on the programs the typing rules of `typing` accept; functions and globals follow the declarations; bodies are well formed (unique block ids, jumps inside the function); compaction is exact |
| `ir_optimizer` | copy elimination, constant folding and propagation, inlining | exact node rewrites for copy elimination and folding; after propagation nothing folds any more; outlines and well-formedness are kept |
| `control_flow` | flow graph | the edges are the fall-throughs and jumps of the body |
| `lifetime_analyzer` | liveness | the live sets are the least solution of the dataflow equations |
| `register_allocator` | iterated register colouring | registers live together get different physical registers unless the calling convention fixes them; fixed registers get a register they are fixed to; saved registers are those used |
| `code_generator` | assembly | the text is exactly the one the spec functions of the module describe |

`text`, `order`, `symbol`, `ast`, `physical_register` and
`virtual_register` hold the supporting types and their renderings.

## Layout

- `src/`: the verified library.
- `tests/`: tests of the library on concrete programs.
- `app/`: the command-line driver (reads a file, prints the assembly).
