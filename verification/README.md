# header42

A language server that inserts and updates 42-style file headers, with its
logic verified by Verus.

- `src/` is the verified library:
  - `template`, `fields`, `lines`, `header`: the header template, its fixed-width
    fields, framing with comment delimiters, finding a header at the top of a
    document, rendering one and reading it back.
  - `delimiters`: which comment delimiters a language id or file extension gets.
  - `datetime`: header dates (`YYYY/MM/DD hh:mm:ss`), formatted and parsed by
    `chrono`.
  - `uri`: parsing a document URI (with `url`, through `tower-lsp`) and the file
    name shown in a header, from the URI's path.
  - `config`: the identity sources and their priority, configuration file
    locations.
  - `store`, `session`: the server's state (open documents, identity, last header
    rewrites) and its answer to each request.
  - `extension`: the editor extension's choice of server binary.
- `app/` holds the server binary (JSON-RPC over stdio with `tower-lsp`, files,
  environment) and the Zed extension, around the library.
- `tests/` exercises the library on concrete values.
