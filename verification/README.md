# plato

The logic of an e-book reader for e-ink devices, written in Verus: every function in `src/`
carries a contract that the verifier proves.

## Layout

- `src/` — the library, one module per concern:
  - `geom`, `chars`, `helpers`, `strmap`, `symbolic_path`: rectangles and points, text,
    paths, fingerprints, HTML entities, maps keyed by text;
  - `css`, `dom`, `style`: parsing style sheets, the tree of an HTML document;
  - `document`, `epub`: tables of contents, locations, the metadata and spine of EPUB books;
  - `dictionary`: reading and searching dictionary indexes;
  - `metadata`, `sorting`: book information, file names, search queries, library orders;
  - `font`, `script_fonts`, `list_style`: render plans, the scripts of characters and the
    fonts that draw them, list markers;
  - `framebuffer`, `kobo`: images and the frame buffer memory, pixel formats, drawing;
  - `input`, `device`, `lights`, `power`, `settings`: input events, device models, the
    frontlight, the power and suspension state machine.
- `tests/` — tests of the library, run against the compiled crate.
- `app/` — the program around the library: files, devices and the loops that feed the
  library's state machines with events and carry out the actions they answer with.
