# librarian

The verified core of an audiobook librarian.

- `src/text.rs`: the text operations the records rest on (whitespace trimming,
  prefix removal, tab-separated columns, the file name of a path), each proved
  against a specification over character sequences.
- `src/records.rs`: Open Library dump records and the rows stored for them.
- `src/file_metadata.rs`: metadata of audio files.
- `src/terminal.rs`: what the terminal interface does with an input event.
- `app/`: the two programs around the library: the file scanner (lofty,
  ratatui, crossterm) and the dump loader (serde_json, sqlx, tokio, walkdir).
