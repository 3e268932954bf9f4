# noir_regex

Generates [Noir](https://noir-lang.org) code for regular expressions that were compiled to
deterministic automata. The generated program looks the input up in a transition table, checks
that the match ends in an accepting state and, on demand, extracts parts of the match.

- `src/` is the library, verified with Verus. `noir::to_noir_fn` returns the text of a program,
  and its contract gives that text exactly. `lookup` proves that the table holds the automaton,
  and `reading` what can be told from the generated text.
- `tests/` compares whole programs and the text functions with expected values.
- `app/` writes a program to a file. It also renders sparse tables, with a crate that is not
  published on crates.io.

A program can be generated for an automaton with exactly one accepting state. Unless the
expression ends in `$`, anything may follow the match. With `$` nothing may follow it, and only
programs without substrings can be generated. `noir::check_supported` tells.
