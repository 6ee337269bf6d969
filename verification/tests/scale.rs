use scale_gen::scale::{semitones_of, IONIAN_INTERVALS, MELODIC_MINOR_DESCENDING_INTERVALS, NATURAL_MINOR_INTERVALS, AEOLIAN_INTERVALS, PITCHES_PER_OCTAVE};
use scale_gen::{Note, Pitch, SemiTones};

#[test]
fn sanity_check_semitone() {
    let tests = [
        (Pitch::C, SemiTones(0), Pitch::C),
        (Pitch::C, SemiTones(12), Pitch::C),
        (Pitch::C, SemiTones(1), Pitch::CSharp),
        (Pitch::C, SemiTones(3), Pitch::DSharp),
    ];

    for (note, semis, exp_note) in tests {
        let new_note = note + semis;
        assert_eq!(new_note, exp_note);
    }
}

#[test]
fn pitch_numbers_follow_the_chromatic_scale() {
    let pitches = [
        Pitch::C,
        Pitch::CSharp,
        Pitch::D,
        Pitch::DSharp,
        Pitch::E,
        Pitch::F,
        Pitch::FSharp,
        Pitch::G,
        Pitch::GSharp,
        Pitch::A,
        Pitch::ASharp,
        Pitch::B,
    ];
    for (i, p) in pitches.iter().enumerate() {
        let n: u8 = (*p).into();
        assert_eq!(n as usize, i);
        assert_eq!(Pitch::from(n), *p);
    }
}

#[test]
fn numbers_beyond_the_octave_name_c() {
    assert_eq!(Pitch::from(12u8), Pitch::C);
    assert_eq!(Pitch::from(255u8), Pitch::C);
}

#[test]
fn adding_semitones_crosses_octaves() {
    let n = Note { pitch: Pitch::B, octave: 4 } + SemiTones(1);
    assert_eq!(n.pitch, Pitch::C);
    assert_eq!(n.octave, 5);

    let n = Note { pitch: Pitch::C, octave: 4 } + SemiTones(25);
    assert_eq!(n.pitch, Pitch::CSharp);
    assert_eq!(n.octave, 6);

    let n = Note { pitch: Pitch::A, octave: 3 } + SemiTones(0);
    assert_eq!(n.pitch, Pitch::A);
    assert_eq!(n.octave, 3);
}

#[test]
fn adding_semitones_wraps_the_u32_sum() {
    // 11 + (2^32 - 1) wraps to 10: A sharp, no octave carried.
    let n = Note { pitch: Pitch::B, octave: 2 } + SemiTones(u32::MAX);
    assert_eq!(n.pitch, Pitch::ASharp);
    assert_eq!(n.octave, 2);
}

#[test]
fn octave_carry_is_taken_modulo_256() {
    // 12 * 256 semitones carry 256 octaves, which the octave counter sees as 0.
    let n = Note { pitch: Pitch::E, octave: 7 } + SemiTones(12 * 256);
    assert_eq!(n.pitch, Pitch::E);
    assert_eq!(n.octave, 7);
}

#[test]
fn twelve_semitones_make_an_octave() {
    let n = Note { pitch: Pitch::FSharp, octave: 3 } + SemiTones(12);
    assert_eq!(n.pitch, Pitch::FSharp);
    assert_eq!(n.octave, 4);
    assert_eq!(Pitch::FSharp + SemiTones(24), Pitch::FSharp);
}

#[test]
fn transposing_in_two_steps_equals_one_step() {
    let start = Note { pitch: Pitch::D, octave: 2 };
    let two = (start + SemiTones(7)) + SemiTones(9);
    let one = start + SemiTones(16);
    assert_eq!(two.pitch, one.pitch);
    assert_eq!(two.octave, one.octave);
    assert_eq!(one.pitch, Pitch::FSharp);
    assert_eq!(one.octave, 3);
}

#[test]
fn pitch_shift_matches_note_shift() {
    for s in 0..40u32 {
        let p = Pitch::G + SemiTones(s);
        let n = Note { pitch: Pitch::G, octave: 1 } + SemiTones(s);
        assert_eq!(p, n.pitch);
    }
}

#[test]
fn scale_tables() {
    assert_eq!(PITCHES_PER_OCTAVE, 12);
    assert_eq!(IONIAN_INTERVALS, [0, 2, 4, 5, 7, 9, 11, 12]);
    assert_eq!(NATURAL_MINOR_INTERVALS, AEOLIAN_INTERVALS);
    assert_eq!(MELODIC_MINOR_DESCENDING_INTERVALS[0], 12);
    let semis = semitones_of(&IONIAN_INTERVALS);
    assert_eq!(semis.len(), 8);
    assert_eq!(semis[6].0, 11);
}

#[test]
fn pitches_are_ordered_by_their_numbers() {
    let pitches = [
        Pitch::C,
        Pitch::CSharp,
        Pitch::D,
        Pitch::DSharp,
        Pitch::E,
        Pitch::F,
        Pitch::FSharp,
        Pitch::G,
        Pitch::GSharp,
        Pitch::A,
        Pitch::ASharp,
        Pitch::B,
    ];
    for p in pitches {
        for q in pitches {
            let (a, b): (u8, u8) = (p.into(), q.into());
            assert_eq!(p < q, a < b);
            assert_eq!(p == q, a == b);
            assert_eq!(p.partial_cmp(&q), a.partial_cmp(&b));
            assert_eq!(p.cmp(&q), a.cmp(&b));
        }
    }
    assert!(Pitch::C < Pitch::CSharp && Pitch::ASharp < Pitch::B);
}
