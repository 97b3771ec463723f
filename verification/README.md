# kclvm_sema

The type relations of the KCL configuration language, written in Verus: every
function carries a contract over the mathematical value of KCL types, and Verus
proves the code against it. Types compare as the language compares them: float
literals by their values as `f64`, so `0.0` equals `-0.0` and a NaN equals nothing.

- `unify`: whether a type can be assigned to another (`subsume`, `assignable_to`,
  `is_upper_bound`, `equal`) and the supremum of a list of types (`sup`, `type_of`).
- `walker`: `walk_type` rewrites a type with a function, item by item, for any
  function whose walk ends.
- `resolver`: `check_type` with its diagnostics, `add_type_alias`, and
  `upgrade_named_ty_with_scope`, which replaces named types by what a scope lookup gives.
- `lazy`: the setters of each name in a body of statements, their merging (which also
  gives the dict being built an undefined entry for each new name), and the scope that
  counts lazy calculations.
- `decorator`: the types of the builtin decorators.
- `option`: the value of `option(name, type=.., required=.., default=..)`: lookup,
  default, the required check, and conversion to the declared type. Float arithmetic
  is handed back to the caller as a `FloatCast`.
- `laws`: proved properties, such as reflexivity of assignability and idempotence of
  the supremum.

Trusted rather than proved: `index_map` declares the `indexmap` crate's `IndexMap`
to Verus, with the functions that call it and the names for what a map holds, and
`lazy` declares `generational_arena::Index`, which is only carried along.

Not part of this library: the runtime's other builtin functions (`print`, `len`,
`sorted` and the rest), which work on runtime values through a C interface; the
lazy scope's cache of computed values; recording an option's definition in the
runtime context in list-option mode; and the float arithmetic that option
conversions hand back as a `FloatCast`.
