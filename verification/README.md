# acdc_parser

An AsciiDoc preprocessing and document-model library whose logic is written in
Verus and proved against its contracts.

- `src/` is the verified library: text primitives, attribute maps, substitutions,
  conditional and include directives, tag selection, the line-by-line
  preprocessing run (`expansion`), source decoding, section and caption
  numbering, ids, locations, inline macros and the block metadata model. Calls
  into `url` and `encoding_rs` go through small trusted wrappers whose
  contracts are stated in their doc comments.
- `app/` drives the run with the file system and the network, evaluates
  `ifeval` arithmetic with `evalexpr`, and serializes library values with
  `serde`.
- `tests/` exercises the library on concrete values.
