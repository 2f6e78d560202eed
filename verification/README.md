# eidos

A compiler front end and middle end for the Eidos language, written in Verus:
each function carries a contract, and Verus proves the code against it.

Layout of `src/`:

- `lexer`, `parser`, `ast`: tokens, the expression parser and the syntax tree.
- `symbol`, `semantic`: scoped symbol tables and name resolution.
- `types`, `type_system`, `type_checker`: types, type rules and inference.
- `type_equiv`: structural type equality is an equivalence; base types form a set.
- `syntax`, `language_def`, `diagnostic`: language definitions and their checks.
- `eir`: the intermediate representation (functions, blocks, registers).
- `optimizer`: constant folding, dead code elimination, common subexpression elimination, memory to register, instruction combining (distribution and constant chains), control flow passes.
- `loops`: predecessors, dominators and natural loops of a function.
- `licm`: loop-invariant code motion.
- `backend`: type lowering, LLVM globals, instruction selection and alignments.
- `wasm`: WebAssembly instruction selection, globals, imports, data and
  constant folding of generated code.
- `dsl`: registries and processing of embedded domain-specific languages.
- `assoc`, `util`, `error`: an association map, string helpers, errors.

`app/` holds the command-line program, which reads files and prints results.
