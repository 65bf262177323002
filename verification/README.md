# braille_engine

The DOM logic behind the script bindings of the `braille` browser engine,
written in Verus: each operation states in its contract what it returns and how
it changes the document tree, and Verus proves the code against it.

Layout:

- `src/dom.rs` — the document tree (an arena of nodes with ordered attribute
  lists), its well-formedness, and the attribute-list operations with their laws.
- `src/text.rs`, `src/names.rs`, `src/error.rs` — string helpers, name
  validation, the DOMException kinds.
- `src/utf16.rs` — UTF-16 encoding and decoding of strings, the measure of
  character data (`length`, offsets and counts are in code units).
- `src/attributes.rs`, `src/named_node_map.rs`, `src/class_list.rs`,
  `src/anchor_form.rs` — attribute methods, `element.attributes`, `classList`,
  reflected properties and `dataset`.
- `src/attr_nodes.rs` — the identity cache that gives the same `Attr` object
  for the same attribute of the same element.
- `src/collections.rs` — what `HTMLCollection` / `NodeList` hold and their
  `item`, `namedItem` and named properties.
- `src/character_data.rs`, `src/document.rs`, `src/computed_style.rs`,
  `src/activation.rs`, `src/events.rs`, `src/abort.rs`,
  `src/custom_elements.rs` — the remaining interfaces.
- `tests/` — tests on concrete documents.
- `app/` — glue that exposes part of the operations (attributes, `dataset`,
  `classList`, collections, computed style, character data, parts of
  `document`, abort signals) to a boa JavaScript context as global functions.

The `url` crate parses URLs for `a.href`; its results enter the proofs through
named functions (`url_parse_result`, `url_join_result`).
