//! Generative music: pitches and notes, rhythmic bar patterns, and the
//! sixteen-bar arrangements of chords and melody that a player turns into
//! sound.
pub mod arrangement;
pub mod bar;
pub mod compose;
pub mod composer;
pub mod patterns;
pub mod pitch_order;
pub mod playback;
mod random;
pub mod scale;

pub use bar::{Bar, BarMember, BeatFract, Lengths};
pub use scale::{Note, Pitch, SemiTones};
