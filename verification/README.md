# mdx

Converts Markdown (one file, or a directory of files merged in name order)
into Chinese official documents or research reports, as DOCX or as LaTeX
(compiled to PDF when a TeX engine is found).

The library under `src/` is verified with Verus:

- `parser`, `common/` — the Markdown dialect: blocks, inline formatting,
  front matter, quotes, heading numbers, tables and their captions, section
  markers, cross-reference and citation checks, table column layout.
- `tex_official`, `tex_research_emitter`, `tex_research/` — the two LaTeX
  styles and the research template.
- `docx_plan`, `docx_official`, `docx_research/` — the two Word styles,
  planned as paragraphs, figures and tables described by plain values.
- `input`, `paths`, `images`, `convert`, `tex_compile`, `gui_form` — input
  kinds and default outputs, image naming, progress messages, compiler
  decisions, the desktop form.

`app/` is the command-line program: it reads files, renders the planned Word
document with `docx-rs`, writes the outputs and runs the TeX engines. The
LaTeX class files and the research template are read at run time from
`resources/` beside the executable.
