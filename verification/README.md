# gogextract

Unpacks GOG game installers without running them.

- MojoSetup installers (`.sh`) hold a ZIP archive behind a script.
- macOS packages (`.pkg`) are XAR archives that hold cpio archives.
- Inno Setup installers (`.exe`) are handed to `innoextract`.

Files are written to a hidden directory next to the output directory, which is renamed once
everything is there. By default the output directory is called after the installer.

## Layout

- `src/` is the library, written in Verus: the formats, the rules and the decisions, each
  function with its contract. Modules that end in `_laws` hold what is proved of several
  functions together.
- `tests/` runs the library.
- `app/` is the program: arguments, files, child processes, progress bars and the window.

What the library takes from other crates stands behind small functions marked
`external_body`, in `inflate` (flate2), `xml` (quick-xml), `zip_archive` (zip), and, for the
standard library, in `utf8`, `text` and `messages`. Where quick-xml or zip gives an error, anyhow
writes it out with its causes.
