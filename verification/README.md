# styloria

A CSS3 tokenizer, parser and serializer (CSS Syntax Level 3), with source
spans on every token and tree node and a validation layer that knows the CSS
property and descriptor vocabularies. The library is written in Verus: each function states
what it does in a contract, and Verus proves it.

## Layout

- `src/` — the library.
  - `scan.rs` states the tokenization algorithm over a character sequence;
    `tokenizer.rs` computes it (with byte spans).
  - `grammar.rs` states the core grammar over a token sequence; `spanned.rs`
    builds the tree it describes, with spans; `parser.rs` gives the same tree
    without spans.
  - `serialize.rs` writes tokens and trees back as CSS text, with an empty
    comment between values that would otherwise run together;
    `roundtrip.rs` proves that a written token reads back as itself (and
    names the values for which it does not), and that two values written
    side by side read back as the two; `locality.rs` proves that the
    tokenizer never looks back; `tree_round_trip.rs` proves that a written
    stylesheet or declaration list parses back to the tree it was written
    from, for every tree whose tokens read back as themselves and whose
    shape the grammar rebuilds.
  - `parse_laws.rs` proves that the grammar determines the tree, and with it
    that the plain tree is the spanned tree without its spans.
  - `validate.rs`, `known_properties.rs` and `descriptors.rs` hold the CSS
    vocabulary and report unknown property and descriptor names, in source
    order; `selector.rs` checks selector syntax.
  - `span.rs`, `text.rs`, `token.rs`: spans, character classes and UTF-8
    offsets, tokens.
- `tests/` — tests of the library on concrete inputs.
- `app/` — what the library does not carry: iterators over tokens, and the
  floating-point value of a numeric token.

## What is trusted

Two functions of std that vstd gives no contract are called through
wrappers whose contracts restate their documentation: `String::push`
(`text::push_char`) and `char::from_u32` (`tokenizer::char_from_scalar`).
