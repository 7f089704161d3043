# kdlfmt-core

A formatter for KDL documents, with its rules proved in Verus.

- `src/` is the verified library. The `kdl` crate parses, autoformats and
  prints documents; the library decides everything else, and each of its
  functions is proved against its contract: the configuration file and its
  defaults, the `.editorconfig` fallbacks, how comments and blank lines are
  rewritten (`trivia.rs`, `tree.rs`), and how blank lines before closing
  braces are removed (`blank_lines.rs`). What `kdl` and `ec4rs` compute is
  named in `kdl_bridge.rs`, `editorconfig.rs` and `init.rs`, and the
  contracts of the formatting pipeline (`format_kdl`, `format_document`,
  `format_check`, `load_from_str`, `default_config_text`) are stated over
  those names: the printed text is what `kdl` prints for the document whose
  trivia the verified rules produced.
- `app/` is the `kdlfmt` command line: argument parsing, file walking,
  reading and writing files, and running the formatter over files in
  parallel.
- `tests/` runs the library on concrete inputs, with the real `kdl` crate
  linked.

## Expression strings

An expression string is a value written between backticks, such as
`` `request.auth` ``, or a block between triple backticks. The library uses
`kdl` from crates.io (6.x), which has no value kind for them: a single-line
value between backticks is read as an identifier string that starts with a
backtick, and a triple-backtick block does not keep its layout through
formatting. A text such as ``invalid ` `` is accepted as KDL.

`parse_kdl` with `allow_expression_strings` off refuses a document that
holds a value written starting with a backtick, and names the first such
value with its line and column.
