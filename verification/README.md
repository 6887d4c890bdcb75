# tview

The core of a terminal viewer for tables: delimited text, JSON and JSON lines.
`src/` is a Verus library. Every function states what it returns, and Verus
proves it; nothing in the library panics.

- `cli`, `options`, `source`, `startup`: the command line, how options from the
  defaults, a saved view and the command line are merged, and what a run does.
- `encoding`, `delimited`, `delimited_table`, `delimited_preview`: text encodings,
  delimiters, records, and tables that grow while their input arrives.
- `json_value`, `json_scan`, `json_rows`, `json_layout`, `json_schema`,
  `json_select`, `json_table`, `json_lazy`, `json_preview`: JSON as rows and columns, at hand, in
  large files of which only positions are kept, and from a stream.
- `table`, `walks`, `row_sources`, `adapter`: tables, walks over their rows, and
  how a source is opened.
- `saved_views`, `saved_colors`, `saved_columns`, `saved_selection`, `patterns`,
  `view_comments`: saved views, how they are checked, found, chosen and written.
- `output`: tables, JSON and JSON lines.
- `keys`, `interaction`, `source_modal`, `column_modal`, `status`: what a key does,
  and what the dialogues show.
- `text`, `numerals`: strings and numerals.

What is taken on trust are the calls into `csv`, `encoding_rs`, `regex`,
`serde_json` and `unicode-width`, and three functions of the standard library:
`String::push`, `str::from_utf8` and `char::is_alphanumeric`. Each stands in a
wrapper, or has a specification, whose comment says what is claimed of it. Numbers that are not integers are kept as the text they were
written in.

`app/` is the program round the library: arguments, files, the terminal, and
everything that computes with floating point numbers. `tests/` runs the library with
the outside crates.
