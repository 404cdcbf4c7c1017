# hector

A fragment of a compiler for the Tiger language, written in Verus: the type
checker for variables, assignments, records and string literals, and the
translation of `break`, calls, conditionals and string literals into an
intermediate tree language. Every function is verified against its contract.

Layout of `src/`:

- `ast.rs` – expressions and variables, with positions and types.
- `types.rs` – Tiger types, their model (`SpecType`), copying and comparison.
- `env.rs` – environments: names bound to entries, in the order in which the
  names were first bound.
- `typecheck/` – the typing rules as spec functions (`exp_type`, `var_type`),
  the checking entry points (`type_exp`, `type_of`), variables and
  assignments, the initial environments, and the laws of checking.
- `seman/` – record expressions and string literals.
- `tree/` – the tree language and its model, levels (nesting depth and the
  label and temp counters) and fragments; `tree/translate/` holds the
  translation scheme as spec functions, the translation of each kind of
  expression, and the proof that translated code defines only fresh labels,
  none twice, and that it uses no temp but the frame pointer and fresh ones.

Labels and temps are numbered by counters that the level carries through a
translation; labels below `FIRST_FRESH_LABEL` name the runtime's functions.
A translation asks that every label it is handed (loop ends on the break
stack, the labels of fragments, the labels of functions) lies below the
level's label counter, and proves that none of the labels it defines or
places a fragment under is one of them; all it hands on lies below the
counter again, so translations can be chained on one level.
Temps work the same way: a translation asks that the level's temp counter
starts above the frame pointer, and proves that its code uses only the frame
pointer and temps drawn from the counter during that translation, so the temp
that holds a conditional's value is used by none of its parts.
