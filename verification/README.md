# speed-reader

A calm, private RSVP reader: documents (markdown, plain text, `docx`, `pdf`)
are shown one word at a time, with per-kind pacing, chapter jumps, saved
positions and inline images.

The reading engine is a Verus library (`src/`). Its own functions carry
contracts that Verus proves; the few calls into std and outside crates go
through trusted wrappers, marked `#[verifier::external_body]`, whose contracts
Verus takes on trust (see the end of this file). The terminal front end
(`app/`) does the input and output around it: files, the terminal, images,
the clock, and reading the text of PDF pages.

## Layout

```text
src/
  chars.rs     whitespace, trimming, search, and the std conversions used
  text.rs      truncation for display, and the cleaning pass for text
  doc.rs       blocks (text, headings, code, images, tables), sections,
               plain text with fixed-width tables
  markdown.rs  markdown events (pulldown-cmark) -> blocks
  docx.rs      docx (zip + quick-xml) -> blocks, heading styles
  pdf.rs       PDF strings, pages -> blocks, inferred sections
  outline.rs   the PDF object graph (lopdf), the outline walk, whole PDF
               documents from their page texts
  reader.rs    blocks -> timed chunks, chapter targets, the cursor
  preset.rs    reading presets
  theme.rs     theme choices
  input.rs     keys -> actions in each mode
  picker.rs    chapter and file pickers, directory listing order
  session.rs   what each action does to a reading session
  history.rs   the recent-files list
  web.rs       the reader as the browser front end drives it
app/           terminal front end (ratatui, crossterm, images, saved state)
tests/         tests of the library
```

Each module states its behaviour as spec functions over `Seq`, `Map` and
plain values; the public functions' `ensures` clauses tie their results to
those, and the `law_*` proof functions state properties that span several
calls (cycles of presets and themes, the cursor staying on a chunk, the
recent list keeping each file once, sections pointing into the document,
and so on).

Calls into outside crates go through small trusted wrappers whose contracts
either state the documented behaviour or name the result of the call; their
doc comments say which.
