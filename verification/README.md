# Acervo

The core of a desktop tool that searches files by name or content, replaces
text in them, and copies, moves and compresses them. The core is written in
Verus: what each function does is stated in its contract and proved.

- `src/` is the library. `terms`, `compile`, `matchers`, `occurrences` and
  `hits` say what a query searches for and what counts as a match; `wildcard`
  does so for file name patterns. `session` starts searches and cancels them,
  `search` holds the state of a running one, and `inspection` takes one file
  through it. `replace`, `transfer`, `archive` and `folders` are the state
  machines behind the actions on selected files, and `names` the names they
  give. `defender` writes the exclusions and scripts for Microsoft Defender.
  `text` is string handling.
- `src/engines.rs` is the border to other crates: every call that is relied on
  without proof stands there, or in `occurrences` and `text`, with what is
  relied on.
- `app/` is the application around it, with the window, the file system, the
  threads and the processes.
- `tests/` runs the library on examples.
