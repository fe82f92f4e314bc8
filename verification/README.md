# nano

A verified library for the nano smart-contract language and Untyped Plutus
Core, written in Verus. The functions of `src/` are verified by Verus
against their contracts; the identifier generator, whose values come from a
shared atomic counter, has none. Calls into pallas, num-bigint and itertools
go through small trusted wrappers whose contracts are stated next to them.

Layout of `src/`:

- `flat`: the bit-level encoder and decoder of the flat format, zigzag
  integers, filler bits, and the laws that reading gives back what was
  written.
- `lang`: the language front end: source spans, patterns and function
  definitions, parse errors, an insertion-ordered name map, the pretty printer and its layout engine,
  edit distance, the stack of code generation, and `tipo`, the type checker:
  type environment, unification, instantiation and generalisation, field
  reordering, pattern typing, usage tracking, module imports and the type
  printer.
- `uplc`: terms, constants, names and de Bruijn indices of Untyped Plutus
  Core, the builtin functions, builders of Plutus data, string escaping,
  and the text grammar of programs and terms with its reader.
- `project`: project-level options.
- `text`: string helpers shared by the modules.

`tests/` exercises the library on concrete values.
