# TsuroPDF

A PDF reader with tabs, search, marks and notes, whose logic is verified with
Verus.

- `src/` is the library: pages and their text, searching, marks and their
  history, caches of rendered pages, printing, the places where documents were
  left, and the session: a state and what every message does to it. Every
  function has a contract, and each module states the laws that its functions
  keep together.
- `app/` is the window: it turns what happens into messages, does what the
  session asks for, and draws what `src/view.rs` says is shown. All floating
  point is there; the library holds such numbers as bits and compares them.
- `tests/` runs the library.

Paths are texts in the library. `src/native.rs` says how those of each system
are written, and `app/store.rs` writes them.

The library believes three things of code outside it: what `String::push` does,
and that lower case and the composed form of a text depend on the text alone.
