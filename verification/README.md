# rhythm-gpui

Vertical rhythm typography for gpui: baseline offsets computed from real font
metrics so that text lands on a grid of whole rhythm rows.

- `src/` is the verified library: the exact integer layer of the model. Block
  row arithmetic (`RhythmBlockRows`: rows, first/middle/last fragment cursor
  deltas, with the partition laws), the covering line-height count and the
  drop-cap line box (`covering_line_rhythms`, `drop_cap_line_rhythms`), and the
  outcome of an ideographic character-face measurement over classified probe
  glyphs (`select_icf_ascents`, `measure_icf_ascents`, `IcfMeasurementError`).
- `app/` is the `f32` pixel geometry (`Rhythm`, `FontRhythm`,
  `RhythmLineMetrics`, `RhythmBlockMetrics`, drop caps, snapping) and the gpui
  integration (font resolution through `TextSystem`, `Pixels` spacing, the
  `RhythmStyled` extension, `rhythm_frame`, the debug overlay). It takes every
  row count, covering count, drop-cap count and measurement outcome from the
  library.
- `tests/` exercises the library on concrete values.
