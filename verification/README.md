# harmony_lab

The music-theory core of Harmony Lab, a desktop app that shows scales and
chords on a piano keyboard and on a guitar neck, written in Verus with every
function verified against its contract.

Layout:

- `src/theory.rs` – note names, the circle of fifths, the scale table and the
  chord patterns (stacks of scale degrees).
- `src/selection.rs` – the user's selection (root, scale, degree, pattern), the
  scale and chord notes it gives, how each note is shown, and the guitar view's
  voicing cache.
- `src/voicings.rs` – guitar voicings: per-voicing measures (lowest fret, span,
  bass note, gaps, playability, validity for a chord) and `generate_voicings`,
  which uses hand-made shapes for the common chord qualities and otherwise
  searches the neck window by window.
- `src/shapes.rs` – the shape tables and their transposition.
- `src/voicing_laws.rs` – proofs of what every result of `generate_voicings`
  satisfies (order, no repeats, the search's checks, at most six results).
- `src/labels.rs`, `src/fretboard.rs`, `src/keyboard.rs`, `src/palette.rs`,
  `src/app_state.rs` – numerals and position labels, neck and diagram layout,
  the 88-key keyboard, note colours, and screen navigation.
- `app/` – the egui/eframe user interface and the rodio tone synthesis, which
  call the library.
- `tests/` – tests on concrete inputs.
