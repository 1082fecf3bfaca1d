# jinshu

The core of a local-first novel-writing workbench, written in Verus: the
novel model (volumes, chapters, outline, characters, places, timeline, tasks,
daily word counts), the encrypted on-disk formats, exports and password
backups, the command palette, find and replace, the Markdown highlighter, the
AI prompt builders, the AI service settings and the streaming-reply state.

The library's own functions in `src/` carry contracts that Verus proves. The
calls into outside crates and std (the cipher, hashing, key derivation,
compression, random numbers, the clock, JSON field extraction and a few
string primitives) sit behind small trusted wrappers whose contracts are
believed, not proved; a function that only draws a random value, such as
`generate_key`, promises nothing of it. The laws that tie functions together
(a deleted chapter is gone, a move keeps the chapters, adding then deleting a
chapter restores the novel, replacing a match by itself changes nothing, the
highlighter's pieces rebuild the text, ...) are public proof functions or
postconditions. A saved chapter loads back: a successful encryption shows that
the text is within the cipher's limit (2^36 bytes), and such a file decrypts to
what was saved.

Layout:

- `src/` — the verified library. `model` and `edits` hold the novel and its
  edits; `crypto`, `store` and `export` the file formats; `context`,
  `prompts`, `assistant` and `ai` what is sent to and read back from the AI
  service; `shell`, `app`, `views`, `dialogs`, `markdown`, `outline` and
  `ordering` the logic behind the workbench's panels; `service` the AI
  service presets, protocol defaults and key display.
- `tests/` — tests run against the compiled library with the real outside
  crates.
- `app/` — a small command-line program around the library: file and network
  I/O, clock and serialisation.
