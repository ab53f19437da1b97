# lisette-highlight

Semantic highlighting for Lisette sources, verified with Verus: given a parsed
file and what the analysis knows of it, the library computes the semantic
tokens of the Language Server Protocol (`textDocument/semanticTokens/full`).

- `src/legend.rs`: token types and modifiers, their legend indices and the
  modifier bitset.
- `src/position.rs`: byte offsets to zero-based lines and UTF-16 columns.
- `src/builder.rs`: the relative token encoding and the builder that produces
  it: the builder puts its tokens in document order before it encodes them,
  so that what it hands out decodes back to each token's place.
- `src/ast.rs`, `src/snapshot.rs`: the parsed file and the analysis results,
  as far as highlighting reads them.
- `src/text.rs`: char boundaries, Unicode white-space trimming and the search
  for `..` around operators.
- `src/highlight.rs`: the walk over a file, specified as the sequence of
  marks it requests, and `compute_semantic_tokens`.
- `app/lib.rs`: the same results in the types of `tower_lsp`.
