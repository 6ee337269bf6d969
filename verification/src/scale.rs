use vstd::prelude::*;

verus! {

/// Number of distinct pitches in one octave.
pub const PITCHES_PER_OCTAVE: u32 = 12;

/// One of the twelve pitches of the chromatic scale, in ascending order from C.
#[derive(Debug, Clone, Copy, PartialEq, Eq, Ord, Structural)]
pub enum Pitch {
    C,
    CSharp,
    D,
    DSharp,
    E,
    F,
    FSharp,
    G,
    GSharp,
    A,
    ASharp,
    B,
}

impl Pitch {
    /// Number of semitones from C up to this pitch within one octave.
    pub open spec fn index(self) -> nat {
        match self {
            Pitch::C => 0,
            Pitch::CSharp => 1,
            Pitch::D => 2,
            Pitch::DSharp => 3,
            Pitch::E => 4,
            Pitch::F => 5,
            Pitch::FSharp => 6,
            Pitch::G => 7,
            Pitch::GSharp => 8,
            Pitch::A => 9,
            Pitch::ASharp => 10,
            Pitch::B => 11,
        }
    }
}

/// The pitch that lies `i` semitones above C within one octave; indices outside
/// `0..12` fall back to C.
pub open spec fn pitch_at(i: int) -> Pitch {
    if i == 1 {
        Pitch::CSharp
    } else if i == 2 {
        Pitch::D
    } else if i == 3 {
        Pitch::DSharp
    } else if i == 4 {
        Pitch::E
    } else if i == 5 {
        Pitch::F
    } else if i == 6 {
        Pitch::FSharp
    } else if i == 7 {
        Pitch::G
    } else if i == 8 {
        Pitch::GSharp
    } else if i == 9 {
        Pitch::A
    } else if i == 10 {
        Pitch::ASharp
    } else if i == 11 {
        Pitch::B
    } else {
        Pitch::C
    }
}

impl From<Pitch> for u8 {
    fn from(val: Pitch) -> (r: u8) {
        match val {
            Pitch::C => 0,
            Pitch::CSharp => 1,
            Pitch::D => 2,
            Pitch::DSharp => 3,
            Pitch::E => 4,
            Pitch::F => 5,
            Pitch::FSharp => 6,
            Pitch::G => 7,
            Pitch::GSharp => 8,
            Pitch::A => 9,
            Pitch::ASharp => 10,
            Pitch::B => 11,
        }
    }
}

impl vstd::std_specs::convert::FromSpecImpl<Pitch> for u8 {
    open spec fn obeys_from_spec() -> bool {
        true
    }

    open spec fn from_spec(v: Pitch) -> u8 {
        v.index() as u8
    }
}

impl From<u8> for Pitch {
    /// Numbers `0..12` name the pitches from C upwards. A number of 12 or more
    /// names no pitch; the conversion cannot refuse it and gives C, so a caller
    /// that may hold such a number checks it against `PITCHES_PER_OCTAVE` first.
    fn from(val: u8) -> (r: Pitch) {
        match val {
            0 => Pitch::C,
            1 => Pitch::CSharp,
            2 => Pitch::D,
            3 => Pitch::DSharp,
            4 => Pitch::E,
            5 => Pitch::F,
            6 => Pitch::FSharp,
            7 => Pitch::G,
            8 => Pitch::GSharp,
            9 => Pitch::A,
            10 => Pitch::ASharp,
            11 => Pitch::B,
            _ => Pitch::C,
        }
    }
}

impl vstd::std_specs::convert::FromSpecImpl<u8> for Pitch {
    open spec fn obeys_from_spec() -> bool {
        true
    }

    open spec fn from_spec(v: u8) -> Pitch {
        pitch_at(v as int)
    }
}

/// A note.
#[derive(Debug, Clone, Copy)]
pub struct Note {
    /// The pitch of the note (A, B, C#, etc).
    pub pitch: Pitch,
    /// The octave of the note in standard notation.
    pub octave: u8,
}

/// A distance between two notes, counted in semitones.
#[derive(Debug, Clone, Copy)]
pub struct SemiTones(pub u32);

/// The Ionian mode, as semitone intervals above its tonic.
pub const IONIAN_INTERVALS: [u32; 8] = [0, 2, 4, 5, 7, 9, 11, 12];

/// The Dorian mode, as semitone intervals above its tonic.
pub const DORIAN_INTERVALS: [u32; 8] = [0, 2, 3, 5, 7, 9, 10, 12];

/// The Phrygian mode, as semitone intervals above its tonic.
pub const PHRYGIAN_INTERVALS: [u32; 8] = [0, 1, 3, 5, 7, 8, 10, 12];

/// The Lydian mode, as semitone intervals above its tonic.
pub const LYDIAN_INTERVALS: [u32; 8] = [0, 2, 4, 6, 7, 9, 11, 12];

/// The Mixolydian mode, as semitone intervals above its tonic.
pub const MIXOLYDIAN_INTERVALS: [u32; 8] = [0, 2, 4, 5, 7, 9, 10, 12];

/// The Aeolian mode, as semitone intervals above its tonic.
pub const AEOLIAN_INTERVALS: [u32; 8] = [0, 2, 3, 5, 7, 8, 10, 12];

/// The Locrian mode, as semitone intervals above its tonic.
pub const LOCRIAN_INTERVALS: [u32; 8] = [0, 1, 3, 5, 6, 8, 10, 12];

/// The harmonic minor scale.
pub const HARMONIC_MINOR_INTERVALS: [u32; 8] = [0, 2, 3, 5, 7, 8, 11, 12];

/// The melodic minor scale, ascending.
pub const MELODIC_MINOR_ASCENDING_INTERVALS: [u32; 8] = [0, 2, 3, 5, 7, 9, 11, 12];

/// The melodic minor scale, descending.
pub const MELODIC_MINOR_DESCENDING_INTERVALS: [u32; 8] = [12, 10, 8, 7, 5, 3, 2, 0];

/// The natural minor scale: the Aeolian mode.
pub const NATURAL_MINOR_INTERVALS: [u32; 8] = AEOLIAN_INTERVALS;

/// The intervals of a table of semitone counts, such as the scale tables above.
pub fn semitones_of(steps: &[u32]) -> (intervals: Vec<SemiTones>)
    ensures
        intervals@.len() == steps@.len(),
        forall|i: int| 0 <= i < steps@.len() ==> (#[trigger] intervals@[i]).0 == steps@[i],
{
    let mut intervals: Vec<SemiTones> = Vec::new();
    let mut i: usize = 0;
    while i < steps.len()
        invariant
            i <= steps@.len(),
            intervals@.len() == i,
            forall|k: int| 0 <= k < i ==> (#[trigger] intervals@[k]).0 == steps@[k],
        decreases steps@.len() - i,
    {
        intervals.push(SemiTones(steps[i]));
        i = i + 1;
    }
    intervals
}

/// The pitch index of `pitch` plus `semis`, reduced modulo 2^32 as a `u32` sum is.
pub open spec fn shifted_index(pitch: Pitch, semis: SemiTones) -> int {
    (pitch.index() + semis.0) % 0x1_0000_0000
}

/// Whole octaves that a shift by `semis` carries `pitch` upward, as the octave
/// counter receives them (reduced modulo 256).
pub open spec fn octave_carry(pitch: Pitch, semis: SemiTones) -> int {
    (shifted_index(pitch, semis) / 12) % 256
}

/// The note `semis` semitones above `note`.
pub open spec fn transposed(note: Note, semis: SemiTones) -> Note {
    Note {
        pitch: pitch_at(shifted_index(note.pitch, semis) % 12),
        octave: (note.octave + octave_carry(note.pitch, semis)) as u8,
    }
}

/// Whether `note + semis` keeps its octave within a `u8`.
pub open spec fn transpose_fits(note: Note, semis: SemiTones) -> bool {
    note.octave + octave_carry(note.pitch, semis) <= 255
}

impl core::ops::Add<SemiTones> for Note {
    type Output = Note;

    fn add(self, rhs: SemiTones) -> (r: Note) {
        let pitch: u8 = self.pitch.into();
        let pitch: u32 = pitch.into();
        let pitch = pitch.wrapping_add(rhs.0);

        let carry: u32 = pitch / PITCHES_PER_OCTAVE;
        assert((carry as u8) == carry % 256) by (bit_vector);
        let new_oct = self.octave + carry as u8;
        let new_pitch = (pitch % PITCHES_PER_OCTAVE) as u8;
        Note { pitch: new_pitch.into(), octave: new_oct }
    }
}

impl vstd::std_specs::ops::AddSpecImpl<SemiTones> for Note {
    open spec fn obeys_add_spec() -> bool {
        true
    }

    open spec fn add_req(self, rhs: SemiTones) -> bool {
        transpose_fits(self, rhs)
    }

    open spec fn add_spec(self, rhs: SemiTones) -> Note {
        transposed(self, rhs)
    }
}

impl Note {
    /// The note `semis` semitones above this one, or `None` where its octave
    /// would not fit in a `u8`.
    pub(crate) fn checked_add(self, semis: SemiTones) -> (r: Option<Note>)
        ensures
            r == (if transpose_fits(self, semis) {
                Some(transposed(self, semis))
            } else {
                None::<Note>
            }),
    {
        let pitch: u8 = self.pitch.into();
        let pitch: u32 = pitch.into();
        let sum = pitch.wrapping_add(semis.0);
        let carry: u32 = (sum / PITCHES_PER_OCTAVE) % 256;
        if self.octave as u32 + carry > 255 {
            None
        } else {
            Some(self + semis)
        }
    }
}

impl core::ops::Add<SemiTones> for Pitch {
    type Output = Pitch;

    /// The pitch `rhs` semitones above this one, octaves disregarded.
    fn add(self, rhs: SemiTones) -> (r: Pitch) {
        let note = Note { pitch: self, octave: 0 } + rhs;
        note.pitch
    }
}

impl vstd::std_specs::ops::AddSpecImpl<SemiTones> for Pitch {
    open spec fn obeys_add_spec() -> bool {
        true
    }

    open spec fn add_req(self, rhs: SemiTones) -> bool {
        true
    }

    open spec fn add_spec(self, rhs: SemiTones) -> Pitch {
        pitch_at(shifted_index(self, rhs) % 12)
    }
}

/// Position of a note on the chromatic scale, counted in semitones from C of octave 0.
pub open spec fn semitone_number(note: Note) -> int {
    note.octave * 12 + note.pitch.index()
}

/// Naming a pitch by its number and reading the number back are inverse:
/// every pitch has a number below 12, and each number below 12 names exactly one pitch.
pub proof fn pitch_numbers_round_trip(p: Pitch, v: u8)
    ensures
        p.index() < 12,
        pitch_at(p.index() as int) == p,
        v < 12 ==> pitch_at(v as int).index() == v,
        v >= 12 ==> pitch_at(v as int) == Pitch::C,
{
}

/// Adding semitones to a note moves it exactly that many semitones up the
/// chromatic scale, as long as neither the `u32` sum nor the octave overflows.
pub proof fn transpose_moves_by_semitones(note: Note, semis: SemiTones)
    requires
        note.pitch.index() + semis.0 <= u32::MAX,
        semitone_number(note) + semis.0 < 256 * 12,
    ensures
        transpose_fits(note, semis),
        semitone_number(transposed(note, semis)) == semitone_number(note) + semis.0,
{
    let sum = note.pitch.index() + semis.0;
    assert(shifted_index(note.pitch, semis) == sum);
    assert(sum / 12 < 256);
    assert(octave_carry(note.pitch, semis) == sum / 12);
    assert(pitch_at(sum % 12).index() == sum % 12);
}

/// Shifting a note by `a` and then by `b` semitones lands on the same note as
/// shifting it by `a + b` at once, whenever no step overflows.
pub proof fn transpose_composes(note: Note, a: SemiTones, b: SemiTones)
    requires
        note.pitch.index() + a.0 + b.0 <= u32::MAX,
        semitone_number(note) + a.0 + b.0 < 256 * 12,
    ensures
        transpose_fits(note, a),
        transpose_fits(transposed(note, a), b),
        transposed(transposed(note, a), b) == transposed(note, SemiTones((a.0 + b.0) as u32)),
{
    transpose_moves_by_semitones(note, a);
    let mid = transposed(note, a);
    assert(mid.pitch.index() < 12) by {
        pitch_numbers_round_trip(mid.pitch, 0);
    }
    transpose_moves_by_semitones(mid, b);
    let ab = SemiTones((a.0 + b.0) as u32);
    transpose_moves_by_semitones(note, ab);
    notes_equal_by_number(transposed(mid, b), transposed(note, ab));
}

/// Two notes at the same position on the chromatic scale are the same note.
pub proof fn notes_equal_by_number(x: Note, y: Note)
    requires
        semitone_number(x) == semitone_number(y),
    ensures
        x == y,
{
    pitch_numbers_round_trip(x.pitch, 0);
    pitch_numbers_round_trip(y.pitch, 0);
    assert(x.octave == y.octave);
    assert(x.pitch.index() == y.pitch.index());
    assert(pitch_at(x.pitch.index() as int) == pitch_at(y.pitch.index() as int));
}

/// Twelve semitones raise a note by one octave and keep its pitch.
pub proof fn twelve_semitones_make_an_octave(note: Note)
    requires
        note.octave < 255,
    ensures
        transpose_fits(note, SemiTones(12)),
        transposed(note, SemiTones(12)) == (Note { pitch: note.pitch, octave: (note.octave + 1) as u8 }),
{
    pitch_numbers_round_trip(note.pitch, 0);
    transpose_moves_by_semitones(note, SemiTones(12));
    notes_equal_by_number(
        transposed(note, SemiTones(12)),
        Note { pitch: note.pitch, octave: (note.octave + 1) as u8 },
    );
}

} // verus!
