# bash2amber

Converts Bash scripts into [Amber](https://amber-lang.com) source. The parser is proved to
follow a grammar written as Verus spec functions; the rendering of words, conditions,
arithmetic, assignments and fallbacks has exact contracts, and the rendering of whole
commands and programs has contracts that fix their shape and parts of their text.

## Layout

- `src/text.rs` — characters and strings as sequences: trimming, splitting, searching,
  joining, decimal numbers, escapes.
- `src/bash/` — the Bash side.
  - `rules.rs` — the lexing rules and the call into the heraclitus lexer.
  - `ast.rs` — the syntax tree, and its view as plain values (`CommandView`).
  - `grammar.rs` — the grammar as spec functions from a token stream and a position to the
    syntax read there, with laws such as "`|` binds tighter than `&&` and `||`".
  - `parser.rs` — the recursive-descent parser, proved to follow `grammar.rs` exactly, with
    its error messages and positions.
- `src/amber/` — the Amber side.
  - `fragments.rs` — the output tree and its rendering to text, specified by `render_kind`.
  - `builtins.rs` and `builtins/` — Amber builtins for `ls`, `len` and friends.
  - `render.rs` and `render/` — the conversion of commands: words and conditions,
    arithmetic, assignments, functions and their signatures and type comments, control
    flow, `case` as `if` chains, and the `trust $ .. $` fallback for what Amber cannot say.
- `src/lib.rs` — `convert_bash_to_amber`, from a script to Amber text or an error.
- `app/main.rs` — the command line: reads a script, prints the warnings, writes the result.
- `tests/` — scenarios of the conversion and the parser.
