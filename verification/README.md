# resid

An HTML/CSS to PDF renderer for right-to-left documents such as Persian
invoices, written as a Verus library with a thin command-line program.

- `src/` is the verified library: the HTML document model and parser front
  end, the splitting of CSS declaration lists (inline `style` attributes and
  rule blocks) into declarations, CSS keyword/colour/font-family parsing, the
  cascade, selector-matching support over the document tree, bidirectional
  text shaping, the ToUnicode CMap and widths tables of the embedded font,
  glyph codes, white-space handling and the named page sizes. Every function
  there has a contract that Verus proves; calls into html5ever, cssparser,
  rustybuzz and unicode-bidi sit behind small trusted wrappers whose
  contracts are stated next to them.
- `app/` is the program around it: command-line parsing (clap), reading
  files, the selectors-crate glue, and everything measured in points (page
  geometry, lengths, layout and PDF drawing with lopdf), which is floating
  point.
- `tests/` runs the library on concrete inputs.
