# alisp

An interpreter for a small Lisp, verified with Verus: a reader, an object
store with scopes, and an evaluator with lambdas, macros, quotation and
quasiquotation.

- `src/` is the library. Each module states what it does over a model:
  `tree` (the trees the reader gives), `parse` (the reader, a function on
  characters), `object` (the environment: objects, scopes, printed output),
  `convert` (storing trees as objects and reading them back), `semantics`
  (what evaluation does, as spec functions), `eval`, `calls`, `forms`,
  `args` and `builtins` (the code proved against them), `show` and `render`
  (writing trees and objects out as text), `floattexts` (a tree has one
  text for each way of writing floats), `readback` (reading a written tree
  gives it back), `laws` (properties of the whole).
- Floating point is left to the caller through the `FloatOps` trait: the
  library carries a float as the bits of an `f64`. Each operation of the
  trait returns what a spec function of the implementation names, so the
  contracts say which float a literal is read as, what arithmetic and
  comparison give, and how a float is written, in terms of those names.
- `tests/` runs the library; `app/` is a small program around it.
