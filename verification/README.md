# rdocx-layout

Layout of word-processing documents, verified with Verus.

The library turns a document into sections of blocks: it projects tracked changes, settles
paragraph and run formatting, resolves references and bookmarks, plans the items of every
paragraph, and fills in page numbers once the pages are finished. It works in exact units;
nothing in it rounds.

- `src/` holds the library. Every function states what it returns, and Verus proves it.
  - `document`, `units`, `text`, `visit`: the document, its measures, and how it is read.
  - `revision`, `revision_laws`: tracked changes and the two views of them.
  - `properties`, `color`, `convert`, `style`: formatting.
  - `bookmark`, `field`, `drawing`, `heading`, `reference_laws`: what refers to something else.
  - `plan`, `run_plan`, `paragraph`, `plan_laws`: the items of a paragraph.
  - `segments`, `flow`: text that has been measured, cut where a line may be broken.
  - `section`, `fingerprint`, `engine`, `engine_laws`: the document as a whole.
  - `pages`: what the finished pages tell.
- `app/` measures text with fonts and puts pages together, in floating point.
- `tests/` runs the library.

Line break opportunities come from the `unicode-linebreak` crate. What the library takes on
trust from it and from the standard library is stated at `line_breaks`, `to_uppercase`,
`text_of_bytes`, `share` and `String::push`.
