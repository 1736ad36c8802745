# overload_eval

Overload call evaluation for a Python type checker, written in Verus: which overload of
an overloaded function a call matches, how argument types are expanded when none does,
and how the "no matching overload" error is worded.

The type solver's own work (calling one overload, comparing types, reporting errors) stays
outside the library. The evaluation is a state machine: it names the next piece of outside
work, the caller does it and hands back the answer.

- `src/` is the verified library.
  - `types`, `args`: the types and call arguments that evaluation reads, with their views.
  - `arity`: how far a call's arity is from what a signature accepts.
  - `expand`, `expander`: argument type expansion (unions, `bool`, enums, `type[...]` of a
    union, constrained type variables, tuples), bounded by a budget (`gas`).
  - `search`: the search for the closest overload among those of fitting arity.
  - `call`: the whole evaluation of an overloaded call.
  - `placeholders`, `report`, `test_env`, `nonempty`: solver variables to save around a
    call, the error message parts, a test environment, and non-empty overload lists.
- `tests/` runs the library on concrete calls.
- `app/` drives the evaluation against a solver given as a trait.
