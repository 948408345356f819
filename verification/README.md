# anvomidav

A language for figure-skating choreography: a lexer and parser for its
programs, a formatter, a type checker, the ISU element rules, the editor
support (diagnostics, hover, completion, outline) and an interactive
debugger, with their behaviour stated as contracts and proved with Verus.

The type checker's contracts state its inference as spec functions in
`src/typing/check.rs`: `unify_full`/`unify_spec` (unification with the
substitution it builds, including binding variables and the occurs check),
`infer_outcome` (inference of an expression, threading scopes,
substitution and the counter of fresh variables; instantiation of schemes
and generalization at `let`), `fn_outcome`, `fns_outcome`,
`segments_outcome` and `program_outcome`. Every function definition and
element is covered except inline elements inside expressions and time or
position expressions that name a binding whose type has type variables;
where a program avoids those, the checker's messages are exactly those the
specs give, in order.

Layout:

- `src/` — the verified library.
  - `base/` — source files and spans, diagnostics, the skating vocabulary
    (edges, jumps, spins, levels, rotations), beats, text helpers.
  - `syntax/` — tokens and the lexer, the syntax tree, the parser and the
    formatter.
  - `typing/` — types and substitutions, the environment, the checker.
  - `semantics/` — the ISU rules per discipline and segment, and program
    validation.
  - `ir/` — event kinds of a timeline and identifiers of a choreography.
  - `ide/` — lines and positions, line diagnostics, keyword documentation
    and completion, re-indentation and definitions, the outline and the
    full check of a document.
  - `debug.rs` — the debugger's command interpreter.
  - `cli.rs` — project templates, program summaries and the check of a file.
- `tests/` — tests of the library.
- `app/` — the programs around it: the `anv` command, the language server
  and the debugger's terminal loop; and the parts that compute with
  floating-point values (the timeline and choreography lowering, ice paths,
  the SVG renderers and the dimensional measures).
