# quickclipboard

The core of a clipboard manager for Windows, written in Verus: the rules that
decide what the application does, each with a contract that Verus proves.

- `src/` is the verified library.
  - `text`, `paths`: strings and paths as character sequences (`/` and `\`
    both separate components; joins use the platform separator, which the
    caller passes in); where stored image references resolve to, and the
    proofs that they never leave the image directory.
  - `settings`: the settings, their defaults, and the settings in force.
  - `clipboard`: content hashes (SHA-256), duplicate detection, the capture
    bookkeeping of the clipboard monitor, image references of records.
  - `image_library`: file names, format detection, re-encoding, safe names,
    listing order and paging.
  - `data_management`: planning the move of the data directory, resets and
    cleanups, and the proof of what a migration leaves where.
  - `database`: the schema steps, the connection in use, and the statements
    that merge another database.
  - `hotkey`: registered shortcuts, their statuses, number shortcuts, paste
    keys held down, and (de)activation with the foreground application.
  - `focus`, `main_window`, `editor_window`, `store`: focus tracking, showing
    and hiding the main window and its edge monitor, the text editor's
    address, and the key-value store.
- `tests/` runs the library on concrete values.
- `app/` is the plain Rust around it: settings on disk, SQLite, the file
  system, and serialisable copies of the library's types.
