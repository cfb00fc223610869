# pw

An encrypted password store, kept as one age-encrypted file per entry.

- `src/` is the verified library: entry names and where their files lie
  (`store`, `paths`), the key file and the age calls (`identity`), password
  generation (`password`), the decisions of the commands (`commands`), and
  text helpers (`text`).
- `app/` is the command-line program around it: argument parsing, the file
  system, the terminal, the editor and the clipboard.
- `tests/` exercises the library.
