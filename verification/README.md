# poloto

A 2D plotting library whose plots are drawn as SVG and styled with CSS. The part
that decides what is drawn is written in Verus and proved against its contracts.

## Layout

- `src/build`: building plots. A plot is a stream of tags (a start tag with its
  label and kind, one tag per point, a finish tag) together with the area its
  points cover. Plots chain one after another; markers and the origin widen the
  area; points can be cropped into holes; sources of points can be walked twice
  (buffered, or with bounds known beforehand); bar charts are built from named
  values.
- `src/ticks.rs`, `src/num`: where ticks go and how they are written, for integer
  axes, month indices and UTC timestamps (years down to seconds), and how
  integers are written in decimal or scientific notation.
- `src/render`: what the renderer needs that is not geometry: reading plots back
  out of the tag stream, the commands of line and filled paths (which points a
  path visits, and where it breaks), and the CSS themes.
- `src/fmt_num.rs`: integers as text.
- `app/`: the SVG writer itself. Placing values on the canvas takes floating
  point, so it stands outside the verified library, and writes its elements with
  `tagu`.
- `tests/`: tests on concrete values, run against the compiled library.

Calendar computations go through `chrono`; the contracts of those calls state the
proleptic Gregorian calendar that `chrono` implements.
