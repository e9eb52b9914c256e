# simbolmudah

The core of a compose-key engine, written in Verus and proved against its
contracts.

- `src/` is the verified library: the line grammars of X11's
  `keysymdef.h` and `Compose` files, the ordered tables of compose
  sequences built from them (held in an `fst` map for prefix search), the
  CLDR annotations used to search symbols by name, and the decisions of the
  keyboard hook and translator, each a step from state and event to next
  state and actions.
- `tests/` runs the library on concrete inputs.
- `app/` is a small command-line front end: it reads the definition files,
  builds the definition and answers queries. Windows-only parts (the
  low-level keyboard hook, `SendInput`, the clipboard and the COM classes)
  are not part of this crate.

The trusted items, whose contracts Verus takes without proof, are the
wrappers around the `fst` and `brotli-decompressor` crates and a few
functions of std (`char::from_u32`, `to_string`, case mapping and `Debug`
formatting of text); each carries a doc comment that says what it claims.

Tables keyed by text (`StringTable`, and `ComposeDef`, which keeps its
sequences in order) are vectors of pairs with an invariant that each key
occurs once (and, for `ComposeDef`, in increasing order). vstd specifies
`HashMap` and `BTreeMap` only for keys it knows to hash and compare
faithfully, such as integers, so a map keyed by `String` would leave its
contents unstated; the table keyed by numbers (`NumberTable`) is a
`HashMap<u64, _>`.
