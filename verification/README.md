# ocklog

A log viewer for containers in the terminal, with its logic verified by Verus.

- `src/` is the library: the query language (`query/`), the viewer's state and its
  motions (`state/`), keys, commands and the mouse (`commands/`), the engine's wire
  formats (`docker/`), and the styled lines of the screen (`ui/`). Its functions
  have contracts over mathematical models, except the two that read a clock and
  `clear_registry`, of which there is nothing to state.
- `tests/` runs the library on concrete values.
- `app/` is the program around it: arguments, the terminal, the engine's socket
  and the clipboard.

What rests on trust and not on proof is marked `#[verifier::external_body]` or
`assume_specification`: regular expressions, JSON, the letter case of Unicode,
the clock, and how a screen is shared out.
