# scale_gen

A generative music library. It models the twelve pitches, notes with
octaves and transposition by semitones (`scale`), bars built from note values
(`bar`, `patterns`), the four-unit patterns that lay out sixteen-bar sections
(`arrangement`), the chord and melody parts of a section (`compose`), and the
weighted choice of chords and scales from section to section (`composer`).
Randomness comes from the `rand` crate; every function states in its contract
what holds of each outcome.

`app/` is the player: it computes tone frequencies (floating point) and plays
the composed sections as sine tones through `rodio`.
