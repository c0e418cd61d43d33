# lml

A terminal picker for local model servers (DwarfStar, llama.cpp, oMLX),
built around a verified library.

- `src/` is the library, checked with Verus: the catalog rules
  (`catalog`), import planning (`import`) and its laws (`import_laws`), model-file naming
  (`models`), what a scan of the model sources finds and in which order
  (`found`), the editable TOML document (`document`, `catalog_file`), path
  handling (`paths`), server commands and their shell preview (`launch`,
  `picker`), the picker's quit keys (`keys`), and the answers of guided setup
  (`setup`).
- `app/` is the `lml` program: command-line parsing, reading and saving the
  catalog file, scanning model directories, the terminal screen, and
  starting the server.
- `tests/` runs the library on concrete catalogs.
