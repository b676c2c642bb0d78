# mono_core

The CSS and layout core of a small browser engine, verified with Verus.

- `token`: a CSS tokenizer. `tokenize` states, as a spec function, the tokens of
  a text; `CssTokenizer::next_token` hands them out in order. A number token
  keeps its digits and dots as text.
- `cssom`: the style sheet model (`StyleSheet`, `QualifiedRule`, `Selector`,
  `Declaration`) and `CssParser`. The spec functions `parse_rules` and its
  helpers say what the parser builds from a token sequence, and give `None`
  where it would panic or never return; `parse_stylesheet` requires `Some`,
  and `try_parse_stylesheet` returns `None` there.
- `dom`: the parts of a node that layout reads (its kind, an element's kind
  and attributes, a text's characters).
- `style`: colors, display types, font sizes and `ComputedStyle`, with
  defaulting (inheritance from the parent, then initial values).
- `layout_object`: `create_layout_object`, selection, cascading, sizes,
  positions and painting. The layout objects of a tree live in a
  `Vec<LayoutObject>` owned by the caller; `first_child`, `next_sibling` and
  `parent` are indices into it; sizes are computed over sibling chains that
  stay inside the vector and end.
- `text`: UTF-8 lengths, trimming and the joining of words by single spaces.

Laws are public proof functions beside the spec functions they speak of
(`lemma_cascade_concat`, `lemma_defaulted_is_complete`, `lemma_text_lines_fit`,
`lemma_normalize_spaces_is_single_spaced`, `lemma_lex_tokens_ok`, ...).
