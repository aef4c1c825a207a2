# jupyter_edit

A verified library for editing Jupyter notebooks through an LLM-friendly
markdown rendering, and the MCP server around it.

- `src/` is the library, checked by Verus:
  - `notebook.rs`: the notebook model (cells, sources, outputs, metadata);
  - `text.rs`: the string operations the rest is stated in (`str::lines`,
    `trim`, UTF-8 byte lengths, decimal numbers);
  - `format.rs`: the markdown rendering of a notebook or a cell, and the
    parser that reads such markdown back into a notebook;
  - `tools.rs`: what each editing tool computes on a notebook;
  - `error.rs`: the tools' errors and their messages;
  - `laws.rs` and `roundtrip.rs`: properties that relate the operations,
    among them that parsing a rendering gives back the notebook's cells.
- `app/` is the server: the MCP protocol, reading and writing `.ipynb`
  files (with a timestamped backup), and the JSON (de)serialisation.
- `tests/` runs the library on concrete notebooks.
