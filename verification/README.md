# envctl

Manage `.env` files for many repositories across many sites ("RS") from one
store, encrypted with an [age](https://age-encryption.org) X25519 identity.

## Layout

- `src/` — the library, written in Verus and verified: the `.env` reader and
  writer, the registry of sites and repositories and its merge, the store's
  file names and sealing, the command listings and edits, the diff and sync
  states, and the interactive screens as a state machine (keys in, state and
  work out). Calls into `indexmap`, `age` and `similar` go through small
  trusted wrappers whose contracts are stated next to them.
- `app/` — the program around it: argument parsing (`clap`), files and
  directories, TOML (`serde`, `toml`), the editor, directory walking, and the
  terminal interface (`crossterm`, `ratatui`), which performs the work that
  the library's state machine asks for.
- `tests/` — tests of the library on concrete values.
