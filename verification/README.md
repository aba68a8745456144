# boom_catalogs

Loaders that ingest astronomical catalogs (VSX, 2MASS, Gaia, NED, GALEX,
Milliquas, eROSITA, DESI, CatWISE, AllWISE, Legacy Survey, PS1) into MongoDB,
so that alerts can be cross-matched against them.

## Layout

- `src/` is the verified library (Verus):
  - `text` — white space, trimming and splitting with `str` semantics;
  - `number` — integer and floating-point literals as `str::parse` reads them;
  - `fields` — cutting and reading single fields of a catalog row;
  - `ascii` — fixed-layout text tables: line numbering, blank lines, row counts;
  - `types` — the rows of the text catalogs and the rules for the other catalogs' columns;
  - `ingest` — which files to load, path checks, row estimates, row ranges;
  - `processor` — the worker pool's settings, insert batching and counts;
  - `ps1` — PS1-STRM rows and the tie-break rule that makes updates order-independent.
- `tests/` runs the library on concrete values.
- `app/` is the command-line program: file, database and network I/O, the
  serde layouts of the stored documents, and the floating-point steps.

The library keeps floating-point fields as validated literals (`FloatText`);
`app/` turns them into numbers.
