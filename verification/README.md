# kozan_selector

A CSS Selectors Level 4 engine — parsing, matching, specificity, rule
lookup and style invalidation — written in Verus, which proves the
library's contracts and laws.

## Layout

- `src/` — the verified library.
  - `parser.rs`, `css_token.rs`, `keyword.rs`: selector text to
    components. `cssparser` reads one token at a time (that reading is a
    named function of the text); the token tree built from it is stated
    exactly. The grammar is parsed over the tree. What is proved of the
    parse result: it is well formed (its hints match its components, its
    specificity is the weight of its components, `weight.rs`, and every
    selector is a sequence of compounds separated by single combinators,
    `shape.rs`), and it has one selector per comma of the text. For
    selector lists built from type, universal, id, class, `&`, attribute
    selectors, pseudo-classes and pseudo-elements without selector
    arguments, and combinators (`plain_list`), the parse succeeds exactly
    when the list fills the text, and each selector's components and
    specificity are stated; the forgiving parse keeps exactly the parts
    that are such selectors. The functional pseudo-classes, attribute
    selectors and keyword lookups give exactly the components their
    arguments call for.
  - `types.rs`, `specificity.rs`, `pseudo_class.rs`, `pseudo_element.rs`,
    `attr.rs`, `atom.rs`: the selector model; `css_text.rs` serialises it.
  - `matching.rs`, `element.rs`, `context.rs`, `nth_cache.rs`,
    `has_cache.rs`, `bloom.rs`, `kleene.rs`: matching against any tree
    that implements `Element`, specified by spec functions that walk the
    tree. The Bloom filter only prunes walks that cannot match (outside
    quirks mode, for selectors without a column combinator or
    `:host-context()`), and it never loses an ancestor that is inside,
    even when counters saturate.
  - `rule_map.rs`: rules bucketed by their rightmost id, class or tag;
    lookup returns every matching rule, sorted by specificity and source
    order.
  - `invalidation.rs`, `visitor.rs`: which selectors depend on which names
    and states.
  - `codegen.rs`: naming rules shared by the style code generators.
  - `small_buf.rs`: the `smallvec` buffers of the parser, of `:lang()` and
    `::part()`, and of the invalidation map.
- `tests/` — tests of the library.
- `app/` — the style crate's build-time code generators and derive
  helpers, which work on `syn` token streams and file I/O.
