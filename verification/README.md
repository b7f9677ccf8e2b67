# pagedown

A native Markdown-to-PDF renderer. Markdown is parsed into a small document
model and laid out directly as PDF drawing operations, without HTML.

- `src/` is the verified library (Verus): the Markdown document builder
  (headings, paragraphs, code, math, tables, images, block quotes and GitHub
  callouts, ordered, unordered and task lists, footnotes, citation markers),
  the document model, and the renderer's decisions that need no geometry (the
  styled pieces inline content is drawn as, line tokens, font switches,
  footnote numbering, table columns, code block lines and highlighting,
  citation labels, TeX documents for formulas, XML escaping, SVG header
  reading, copying a typeset formula's PDF objects, command-line values). Each public function has a
  contract over a mathematical view; the laws of the library are proof
  functions named `law_*`.
- `app/` is the program: command-line parsing, configuration files, the
  floating-point page layout, PDF writing with `printpdf` and `lopdf`, and the
  TeX toolchain that typesets formulas.
- `tests/` runs the library on concrete inputs.

Font metrics are read at run time from `assets/afm/*.afm` (the Adobe metrics
of the 14 standard PDF fonts); without them the renderer falls back to default
advances.
