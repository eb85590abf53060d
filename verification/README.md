# cylune

The core of Cylune, a local filament manager for 3D printing, written in
Verus. The logic under `src/` is proved against its contracts. The calls
into `zip`, `serde_json`, `sha2`, `image`, `uuid` and `std::path` go through
small wrappers whose contracts are trusted; each wrapper's doc comment says
what its contract claims of the call.

## Layout

- `src/text.rs` — string primitives (`trim`, `split`, `strip_prefix`, number
  parsing) stated over the characters of a string.
- `src/parser/` — reading sliced files: the line-by-line G-code scanner
  (tools, extrusion modes, layer markers, declared time and layer count),
  the rules for project archives (entry kinds, plate order, thumbnails, the
  slicer's time predictions, preset names), and the reading of a whole
  archive (`archive.rs`: entries with `zip`, settings with `serde_json`).
- `src/imports.rs` — matching sliced filaments to loaded spools by preset and
  colour, and the route an import takes.
- `src/settlement.rs`, `src/history.rs`, `src/inventory.rs`, `src/slots.rs` —
  which usage a print outcome charges, complete tool mappings, the charges
  per spool and whether each spool can take them, ledger keys, plate and
  spool statuses, and the four AMS slots.
- `src/backup/` — the full set of rules a backup must meet before it replaces
  the database, over a row model of the backup, and the order in which it is
  written back.
- `src/media.rs` — thumbnail checks, content-addressed media paths.
- `src/locale.rs` — the interface languages and the one the application starts in.
- `src/pet/` — the desktop pet: settings, native codes, capture and life-cycle
  state machines, file drops.
- `src/printers.rs` — saved printer names, list settings, profile inheritance
  and supported plates.
- `src/machines.rs` — the slicer's machine documents and the printers they
  describe.
- `tests/` — tests of the library on concrete values.
- `app/` — files and directories, floating-point arithmetic and serde
  forms around the library.

Amounts that the application keeps as floating-point numbers enter the
library as whole billionths of their unit.
