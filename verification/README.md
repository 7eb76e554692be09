# patina-core

The core of patina, a dotfile manager, as a verified library.

- `src/` decides: what manifests declare, which targets a plan writes, whether two
  entries fight over one, what an apply does next, what the journal says of a run
  that was cut off, and what of the history is kept. Everything in it is a function
  of plain values and carries a contract that Verus proves.
- `app/` does: it reads the disk and the environment, runs hooks and writes files, as
  the library says.
- `tests/` runs the library with the crates that it calls.

The crates that the library calls (camino, ignore, jiff, postcard, toml_edit and
others) are behind small wrappers. The comment above each says what is believed of it.
