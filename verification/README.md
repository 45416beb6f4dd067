# searchcuts

A GNOME Shell search provider that answers short commands typed into the shell's search:
`0cal show`, `0t <text>` (translate), `0a <text>` (assistant), `0smart <text>` (assistant
with a thinking model). Activated text commands are answered by a language model and the
answer is typed (or pasted) into the focused window.

Layout:

- `src/` — the verified library (Verus):
  - `text.rs`: Unicode white space, trimming, prefixes, UTF-8 byte lengths and boundaries.
  - `grammar.rs`: search grammars as data (layers of keywords, text rules) and the
    interpreter that turns a search string into results or an activation request.
  - `searchcuts.rs`: the search-cuts grammar and the `Handler` that answers searches and
    activations.
  - `bus_stuff.rs`: result records, result identifiers and their metadata for the bus.
  - `keyboard.rs`: which keys type a text, and whether a text is typed or pasted.
  - `ai_stuff.rs`: which model answers a command and its instructions.
- `app/` — the program around it: the session bus, the virtual keyboard, the clipboard,
  the model calls and the runtime.
- `tests/` — tests of the library.
