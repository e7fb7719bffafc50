# raptor

The run-time core of the Raptor language, verified with Verus: its values and operators,
the variable stack, and a tree-walking interpreter over the syntax tree.

## Layout

- `src/types.rs`, `src/value.rs`: types and run-time values, with their models.
- `src/heap.rs`: the store of cells and vectors that values and variables share.
- `src/alu/`: the operators (arithmetic, comparison, logic, negation, casts), each stated
  against a specification of what it gives on every pair of values.
- `src/stack/`: scopes, scope managers and the call stack (at most 500 frames).
- `src/interpreter/`: statements, expressions, declarations, assignments, structs and
  function calls; every step keeps the interpreter's invariant and leaves the stack as it
  found it when it succeeds.
- `src/laws.rs`: properties that relate several operations (scopes close what they open,
  `!=` negates `==`, casting to a value's own type gives it back, ...).
- `src/text.rs`: decimal text, integer parsing and UTF-8 helpers.
- `app/`: the host side: doubles computed with the machine's floating point, and the
  functions that print and read.

Doubles are held as their IEEE-754 bit patterns; negation, comparison and the tests for
NaN and infinity are computed and proved on the bits, while `+ - * /`, conversions and
rendering are left to the host (`alu::FloatUnit`). Host functions are reached through
`interpreter::Host`.
