# mago_style

Verified pieces of a PHP toolchain, written in Verus:

- `comment`: the comments a PHP formatter tracks, and the bit flags used to
  select them.
- `docblock`: reformatting of `/** ... */` docblocks from their parsed
  elements: description clean-up, tag renaming and dropping, type rewriting
  (`integer` to `int`, `null` last), stable sorting of tags by kind, and
  vertical alignment of tag columns. `docblock::layout`, `docblock::properties`,
  `docblock::line_shape` and `docblock::null_order` state what holds of every
  result: tags stably sorted, a tidy description, aligned columns, every line
  a comment line, and type rewriting that is idempotent.
- `lint`: ten lint rules, each a function from the syntax it is shown (and the
  source text) to the issues it reports, with their fixes.
- `text`: byte-string operations with the meaning of the `str` methods they
  stand for.

The syntax trees, the docblock parse and the source files are plain values of
the library (`lint::ast`, `docblock::model`, `comment::File`); parsing them is
not part of this crate.

`app/` holds the serde and JSON-schema forms of the rule settings, and a
text-level entry point to docblock reformatting.
