# syn_attr

Attributes of Rust syntax trees, verified with Verus.

- `src/token.rs`: token trees (groups, identifiers, punctuation, literals) held as plain values, with their mathematical values.
- `src/meta.rs`: structured attribute content (`Meta`, `NestedMeta`, `Lit`) and the grammar by which it is read from tokens.
- `src/attr.rs`: `Attribute`, `interpret_meta`, the readers of nested meta items, `FilterAttrs`, `private::attrs`.
- `src/parsing.rs`: reading `#[...]` and `#![...]` attributes and module-style paths from the front of a token sequence.
- `src/printing.rs`: writing attributes and meta items back out as tokens.
- `src/laws.rs`: what holds across the two directions: written meta items and attributes are read back as they were, what is read is written back as the tokens it came from, and selecting outer and inner attributes splits a sequence.
- `app/lib.rs`: conversion between `proc_macro2` token streams and the library's token trees, and `quote::ToTokens` for the printable types.
