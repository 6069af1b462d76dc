# docv_pdf

A PDF reader whose logic is specified and proved with Verus.

- `src/parser`: the lexical and object grammar of PDF files (numbers,
  names, strings, arrays, dictionaries, streams, indirect objects), the
  cross-reference table, trailer and `startxref` pointer, dates and the
  content-stream buffer, each as a function on bytes with a contract.
- `src/types`: PDF objects and their mathematical values; stream filters
  (Flate through `flate2`).
- `src/structures`: cross-reference data, object streams, the catalog, the
  page tree with its inherited attributes, pages, resources, the information
  dictionary and the file identifier.
- `src/objects.rs`, `src/pages.rs`, `src/document.rs`: object lookup over the
  cross-reference data, the walk over the page tree, and the document.
- `src/ui`: the decisions of the interactive viewer (page navigation, the
  command line, what each message does to the screen).
- `app/`: the command-line program: argument parsing, reading the file, and
  printing what the library reads.
- `tests/`: the tests.

Verify with Verus; the trusted items are the wrappers around `flate2`,
`chrono` and a few standard-library functions, each with its contract in a
doc comment.
