# oelung

A small terminal UI library: texts and flex columns are laid out into rows of
styled chunks, and each frame is drawn as its difference from the last one.
The library is written in Verus; its layout, painting, redraw planning and
in-memory backend carry contracts that Verus proves.

- `src/` is the verified library.
  - `component`, `text`, `flex`, `layout`, `cursor`, `style`, `geometry`:
    the components and their builders.
  - `render`: the layout of texts and columns into staged rows, specified by
    `render_spec`; user components are rendered on request (`Interrupt`).
  - `paint`: painting absolutely placed children over a column. The painted
    rows are worked out and checked, then discarded: the column keeps its
    rows, so absolutely placed children do not show.
  - `frame`: the `Renderer`, which stages frames into two alternating grids
    and plans the commands that redraw what changed.
  - `screen`: what those commands do to a terminal, and the proof that a
    drawn frame shows.
  - `backend`: an in-memory terminal; `terminal`: the terminal size.
  - `staged`: the rows of staged output, held in `smallvec` vectors.
- `tests/` runs the library on concrete frames.
- `app/` is the terminal side: taking over the screen with crossterm, the
  crossterm backend, and a renderer that draws frames to stdout.
