use scale_gen::arrangement::FourPattern;
use scale_gen::compose::{
    gen_chord_with, sixteen_bars_chords_with, sixteen_bars_melody_with, ChordDraw, ChordPartDraws,
    MelodyDraws, MotifDraw, VoiceDraw,
};
use scale_gen::composer::Composer;
use scale_gen::patterns::{bar_with, driving_bar_with, ones_threes_with, BarDraws};
use scale_gen::scale::{semitones_of, IONIAN_INTERVALS};
use scale_gen::{BarMember, Lengths, Note, Pitch, SemiTones};

/// A slot as (numerator, denominator, sounding pitch and octave).
fn slot(m: &BarMember) -> (usize, usize, Option<(Pitch, u8)>) {
    (m.fract.num, m.fract.den, m.note.map(|n| (n.pitch, n.octave)))
}

fn slots(ms: &[BarMember]) -> Vec<(usize, usize, Option<(Pitch, u8)>)> {
    ms.iter().map(slot).collect()
}

fn n(pitch: Pitch, octave: u8) -> Note {
    Note { pitch, octave }
}

fn silent() -> VoiceDraw {
    VoiceDraw { byte: 0, length_index: 0, bar: BarDraws { driving: true, counts: [0, 0], picks: vec![] } }
}

#[test]
fn driving_bar_sounds_its_picks_in_order() {
    let picks = [n(Pitch::C, 4), n(Pitch::E, 4), n(Pitch::G, 4), n(Pitch::C, 5)];
    let bar = driving_bar_with(Lengths::Quarter, &picks);
    assert_eq!(
        slots(&bar.notes),
        vec![
            (1, 4, Some((Pitch::C, 4))),
            (1, 4, Some((Pitch::E, 4))),
            (1, 4, Some((Pitch::G, 4))),
            (1, 4, Some((Pitch::C, 5))),
        ]
    );
}

#[test]
fn ones_threes_halves_follow_their_counts() {
    let picks = [n(Pitch::D, 3), n(Pitch::E, 3), n(Pitch::F, 3), n(Pitch::G, 3)];
    let bar = ones_threes_with(Lengths::Eighth, [1, 3], &picks);
    assert_eq!(
        slots(&bar.notes),
        vec![
            (1, 8, Some((Pitch::D, 3))),
            (1, 8, None),
            (1, 8, None),
            (1, 8, None),
            (1, 8, Some((Pitch::E, 3))),
            (1, 8, Some((Pitch::F, 3))),
            (1, 8, Some((Pitch::G, 3))),
            (1, 8, None),
        ]
    );
    let silent_bar = ones_threes_with(Lengths::Half, [0, 0], &[]);
    assert_eq!(slots(&silent_bar.notes), vec![(1, 2, None), (1, 2, None)]);
}

#[test]
fn ones_threes_of_whole_notes_keep_the_extra_half_rest() {
    let bar = ones_threes_with(Lengths::Whole, [1, 0], &[n(Pitch::A, 2)]);
    assert_eq!(slots(&bar.notes), vec![(1, 1, Some((Pitch::A, 2))), (1, 2, None)]);
    let bar = ones_threes_with(Lengths::HalfTriplets, [3, 0], &[n(Pitch::A, 2); 3]);
    assert_eq!(
        slots(&bar.notes),
        vec![(1, 3, Some((Pitch::A, 2))), (1, 3, Some((Pitch::A, 2))), (1, 3, Some((Pitch::A, 2))), (1, 2, None)]
    );
}

#[test]
fn bar_draws_pick_the_kind_of_bar() {
    let driving = BarDraws { driving: true, counts: [0, 0], picks: vec![n(Pitch::B, 4), n(Pitch::C, 5)] };
    assert_eq!(
        slots(&bar_with(Lengths::Half, &driving).notes),
        vec![(1, 2, Some((Pitch::B, 4))), (1, 2, Some((Pitch::C, 5)))]
    );
    let halves = BarDraws { driving: false, counts: [0, 1], picks: vec![n(Pitch::B, 4)] };
    assert_eq!(
        slots(&bar_with(Lengths::Half, &halves).notes),
        vec![(1, 2, None), (1, 2, Some((Pitch::B, 4)))]
    );
}

#[test]
fn chord_voices_follow_their_draws() {
    let triad = [SemiTones(0), SemiTones(4), SemiTones(7)];
    let draw = ChordDraw {
        step: 1,
        voices: vec![
            silent(),
            VoiceDraw {
                byte: 200,
                length_index: 0,
                bar: BarDraws { driving: true, counts: [0, 0], picks: vec![n(Pitch::E, 5); 4] },
            },
            VoiceDraw {
                byte: 64,
                length_index: 2,
                bar: BarDraws { driving: false, counts: [1, 0], picks: vec![n(Pitch::G, 5)] },
            },
        ],
    };
    let mut oct = 4u8;
    let c = gen_chord_with(&mut oct, SemiTones(0), &triad, 3, &draw);
    assert_eq!(oct, 5);
    assert_eq!(c.pitch, Pitch::C);
    assert_eq!(c.voices.len(), 3);
    assert!(c.voices[0].is_none());
    assert_eq!(slots(&c.voices[1].as_ref().unwrap().notes), vec![(1, 4, Some((Pitch::E, 5))); 4]);
    assert_eq!(
        slots(&c.voices[2].as_ref().unwrap().notes),
        vec![(1, 1, Some((Pitch::G, 5))), (1, 2, None)]
    );
}

#[test]
fn byte_just_below_the_threshold_silences_a_voice() {
    let triad = [SemiTones(0), SemiTones(4), SemiTones(7)];
    let mut v = silent();
    v.byte = 63;
    let draw = ChordDraw { step: -1, voices: vec![v] };
    let mut oct = 3u8;
    let c = gen_chord_with(&mut oct, SemiTones(2), &triad, 1, &draw);
    assert_eq!(oct, 3);
    assert_eq!(c.pitch, Pitch::D);
    assert!(c.voices[0].is_none());
}

fn chord_part() -> ChordPartDraws {
    let chords = (0..16)
        .map(|i| ChordDraw { step: if i == 0 { 1 } else { 0 }, voices: vec![silent(), silent(), silent()] })
        .collect();
    ChordPartDraws {
        outer: FourPattern::AABB,
        inners: [FourPattern::ABAB, FourPattern::ABAC, FourPattern::AAAA],
        chords,
    }
}

#[test]
fn chord_part_follows_its_patterns() {
    let triad = [SemiTones(0), SemiTones(4), SemiTones(7)];
    let chords: [(SemiTones, &[SemiTones]); 3] =
        [(SemiTones(0), &triad), (SemiTones(5), &triad), (SemiTones(7), &triad)];
    let mut oct = 4u8;
    let bars = sixteen_bars_chords_with(chords, &mut oct, 3, &chord_part());
    assert_eq!(oct, 5);
    let pitches: Vec<Pitch> = bars.iter().map(|b| b.pitch).collect();
    let (c, f, g) = (Pitch::C, Pitch::F, Pitch::G);
    assert_eq!(pitches, vec![c, f, c, f, c, f, c, f, c, f, c, g, c, f, c, g]);
    assert!(bars.iter().all(|b| b.voices.len() == 3 && b.voices.iter().all(|v| v.is_none())));
}

fn melody_draws() -> MelodyDraws {
    let motifs = vec![
        MotifDraw { steps: vec![1], semis: vec![SemiTones(4)] },
        MotifDraw { steps: vec![1, 1], semis: vec![SemiTones(0), SemiTones(7)] },
        MotifDraw { steps: vec![-1], semis: vec![SemiTones(2)] },
    ];
    // Outer AAAA on inner AABB: bars of section 0, 0, 1, 1 in every group.
    let bars = (0..16)
        .map(|i| {
            if i % 4 < 2 {
                BarDraws { driving: true, counts: [0, 0], picks: vec![n(Pitch::E, 4); 4] }
            } else {
                BarDraws { driving: false, counts: [1, 0], picks: vec![n(Pitch::C, 5)] }
            }
        })
        .collect();
    MelodyDraws {
        outer: FourPattern::AAAA,
        inners: [FourPattern::AABB, FourPattern::AAAA, FourPattern::AAAA],
        motifs,
        lengths: [Lengths::Quarter, Lengths::Half, Lengths::Whole],
        bars,
    }
}

#[test]
fn melody_follows_its_draws() {
    let mut oct = 3u8;
    let bars = sixteen_bars_melody_with(&mut oct, &melody_draws());
    // The motifs step the octave 3 -> 4, then 4 -> 5 -> 6, then 6 -> 5.
    assert_eq!(oct, 5);
    assert_eq!(bars.len(), 16);
    for (i, bar) in bars.iter().enumerate() {
        if i % 4 < 2 {
            assert_eq!(slots(&bar.notes), vec![(1, 4, Some((Pitch::E, 4))); 4]);
        } else {
            assert_eq!(slots(&bar.notes), vec![(1, 2, Some((Pitch::C, 5))), (1, 2, None)]);
        }
    }
}

fn triad_composer() -> Composer {
    let triad = semitones_of(&[0, 4, 7]);
    let primary = vec![(SemiTones(0), triad.clone()), (SemiTones(5), triad.clone()), (SemiTones(7), triad)];
    Composer::new(primary, vec![], vec![semitones_of(&IONIAN_INTERVALS)])
}

#[test]
fn section_from_draws_plays_the_drawn_chords_and_melody() {
    let mut composer = triad_composer();
    let section = composer
        .next_section_with(3, 0, 0, 1, 2, &chord_part(), &melody_draws())
        .expect("a triad and the Ionian scale fit");
    let pitches: Vec<Pitch> = section.chords.iter().map(|b| b.pitch).collect();
    let (c, f, g) = (Pitch::C, Pitch::F, Pitch::G);
    assert_eq!(pitches, vec![c, f, c, f, c, f, c, f, c, f, c, g, c, f, c, g]);
    assert_eq!(section.melody.len(), 16);
    assert_eq!(slots(&section.melody[2].notes), vec![(1, 2, Some((Pitch::C, 5))), (1, 2, None)]);
}

#[test]
fn section_from_draws_refuses_a_chord_beyond_the_last_octave() {
    let huge = vec![SemiTones(12 * 260)];
    let primary = vec![(SemiTones(12 * 251), huge)];
    let mut composer = Composer::new(primary, vec![], vec![semitones_of(&IONIAN_INTERVALS)]);
    let draws = ChordPartDraws {
        outer: FourPattern::AAAA,
        inners: [FourPattern::AAAA; 3],
        chords: (0..16).map(|_| ChordDraw { step: 0, voices: vec![silent()] }).collect(),
    };
    assert!(composer.next_section_with(3, 0, 0, 0, 0, &draws, &melody_draws()).is_none());
}

#[test]
fn first_primary_chord_is_drawn_most_often() {
    // Weights 8, 1, 1: the first bar of a section plays the first drawn chord,
    // which is the first primary chord four times in five, against one time
    // in three were the weights equal.
    let triad = semitones_of(&[0, 4, 7]);
    let minor = semitones_of(&[0, 3, 7]);
    let primary = vec![(SemiTones(0), triad)];
    let secondary = vec![(SemiTones(2), minor.clone()), (SemiTones(9), minor)];
    let mut composer = Composer::new(primary, secondary, vec![semitones_of(&IONIAN_INTERVALS)]);
    let mut first = 0;
    let rounds = 150;
    for _ in 0..rounds {
        let section = composer.next_section(3).expect("triads and the Ionian scale fit");
        if section.chords[0].pitch == Pitch::C {
            first += 1;
        }
    }
    assert!(first * 100 > rounds * 60, "first chord drawn {} times of {}", first, rounds);
}
