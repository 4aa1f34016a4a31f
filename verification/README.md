# mdcat

Renders Markdown files in the terminal: headings, emphasis, inline code and
code blocks, block quotes, bulleted and numbered lists, links (with their
destination shown), horizontal rules and tables, styled with ANSI sequences
or as plain text.

```
mdcat [--no-color] [--color=always|auto|never] <FILES>...
```

Color is on with `--color=always`, off with `--color=never`; in the default
`auto` mode it is on only when standard output is a terminal, `--no-color` is
not given and `NO_COLOR` is not set. Several files are separated by a line.

## Layout

- `src/`: the library, verified with Verus. `model.rs` states what every
  Markdown event does to the renderer's state and output; `renderer.rs` is
  the renderer, proved to follow it; `laws.rs` proves properties of whole
  renderings (output only grows; without color nothing depends on the
  palette; with color a heading is styled; handling an event does what
  the handler for its kind does); `color_law.rs` proves that removing the
  ANSI sequences from a colored rendering gives the plain one with the same
  rule widths, for a document whose text holds no escape character and
  where no link ends inside a table cell (the rendering functions state
  of their own run that its tables draw without escape characters, which
  the law also takes). Table columns are aligned as the Markdown delimiter
  row asks. Parsing (pulldown-cmark), ANSI
  sequences (crossterm) and table drawing (comfy-table) are reached through
  small trusted items whose contracts are stated next to them.
- `tests/`: tests of the library on concrete documents.
- `app/`: the command-line program (argument parsing, files, standard
  output).
