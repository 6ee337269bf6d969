use scale_gen::compose::{gen_chord, sixteen_bars_chords, sixteen_bars_melody};
use scale_gen::composer::{chord_weights, equal_weights, Composer};
use scale_gen::playback::amplitude_per_mille;
use scale_gen::scale::{semitones_of, IONIAN_INTERVALS, LYDIAN_INTERVALS};
use scale_gen::{Note, Pitch, SemiTones};

#[test]
fn chord_octave_steps_and_voices() {
    let triad = [SemiTones(0), SemiTones(4), SemiTones(7)];
    for start in [0u8, 3, 4, 5, 9, 200] {
        let mut oct = start;
        let c = gen_chord(&mut oct, SemiTones(7), &triad, 3);
        assert!((3..=5).contains(&oct));
        let moved = ((start as i16 - 1)..=(start as i16 + 1))
            .map(|o| (o.rem_euclid(256) as u8).max(3).min(5))
            .any(|o| o == oct);
        assert!(moved);
        assert_eq!(c.pitch, Pitch::G);
        assert_eq!(c.voices.len(), 3);
        let tones = [Pitch::G, Pitch::B, Pitch::D];
        for (v, bar) in c.voices.iter().enumerate() {
            if let Some(bar) = bar {
                for m in &bar.notes {
                    if let Some(n) = m.note {
                        assert_eq!(n.pitch, tones[v]);
                    }
                    assert!(m.fract.den == 4 || m.fract.den == 2 || m.fract.den == 1);
                }
            }
        }
    }
}

#[test]
fn chord_voices_are_limited_by_the_sinks() {
    let seventh = [SemiTones(0), SemiTones(4), SemiTones(7), SemiTones(10)];
    let mut oct = 4u8;
    let c = gen_chord(&mut oct, SemiTones(0), &seventh, 3);
    assert_eq!(c.voices.len(), 3);
    let c = gen_chord(&mut oct, SemiTones(0), &seventh[..2], 3);
    assert_eq!(c.voices.len(), 2);
}

#[test]
fn sixteen_bars_of_chords_use_the_given_roots() {
    let triad = [SemiTones(0), SemiTones(4), SemiTones(7)];
    let chords: [(SemiTones, &[SemiTones]); 3] =
        [(SemiTones(0), &triad), (SemiTones(5), &triad), (SemiTones(7), &triad)];
    let mut oct = 4u8;
    let bars = sixteen_bars_chords(chords, &mut oct, 3);
    assert_eq!(bars.len(), 16);
    assert!((3..=5).contains(&oct));
    // The first bar always plays the first chord.
    assert_eq!(bars[0].pitch, Pitch::C);
    for b in &bars {
        assert!(b.pitch == Pitch::C || b.pitch == Pitch::F || b.pitch == Pitch::G);
    }
}

#[test]
fn sixteen_bars_of_melody_sound_the_scale_over_the_chords() {
    let scale = semitones_of(&IONIAN_INTERVALS);
    let pitches = [Pitch::C; 16];
    let mut oct = 3u8;
    let bars = sixteen_bars_melody(&mut oct, &scale, &pitches);
    assert_eq!(bars.len(), 16);
    assert!((2..=6).contains(&oct));
    for bar in &bars {
        assert!(!bar.notes.is_empty());
        for m in &bar.notes {
            if let Some(n) = m.note {
                let tone: u8 = n.pitch.into();
                assert!([0u8, 2, 4, 5, 7, 9, 11].contains(&tone));
                assert!((2..=7).contains(&n.octave));
            }
        }
    }
}

#[test]
fn weights_for_chords_and_scales() {
    assert_eq!(chord_weights(3, 3), vec![8, 4, 4, 1, 1, 1]);
    assert_eq!(chord_weights(1, 0), vec![8]);
    assert_eq!(equal_weights(4), vec![1, 1, 1, 1]);
    assert!(equal_weights(0).is_empty());
}

#[test]
fn composer_writes_sections() {
    let triad = semitones_of(&[0, 4, 7]);
    let minor = semitones_of(&[0, 3, 7]);
    let primary = vec![(SemiTones(0), triad.clone()), (SemiTones(5), triad.clone()), (SemiTones(7), triad)];
    let secondary = vec![(SemiTones(2), minor.clone()), (SemiTones(9), minor)];
    let scales = vec![semitones_of(&IONIAN_INTERVALS), semitones_of(&LYDIAN_INTERVALS)];
    let mut composer = Composer::new(primary, secondary, scales);
    for _ in 0..3 {
        let section = composer.next_section(3).expect("small intervals always fit");
        assert_eq!(section.chords.len(), 16);
        assert_eq!(section.melody.len(), 16);
        for c in &section.chords {
            assert!([Pitch::C, Pitch::F, Pitch::G, Pitch::D, Pitch::A].contains(&c.pitch));
        }
    }
}

#[test]
fn composer_refuses_notes_beyond_the_last_octave() {
    let huge = vec![SemiTones(12 * 260)];
    let primary = vec![(SemiTones(12 * 251), huge)];
    let scales = vec![semitones_of(&IONIAN_INTERVALS)];
    let mut composer = Composer::new(primary, vec![], scales);
    assert!(composer.next_section(3).is_none());
}

#[test]
fn louder_low_notes() {
    assert_eq!(amplitude_per_mille(100), 250);
    assert_eq!(amplitude_per_mille(250), 225);
    assert_eq!(amplitude_per_mille(600), 200);
    assert_eq!(amplitude_per_mille(999), 175);
    assert_eq!(amplitude_per_mille(1000), 150);
    assert_eq!(amplitude_per_mille(1500), 125);
    let mut last = u32::MAX;
    for f in (0..4000).step_by(7) {
        let a = amplitude_per_mille(f);
        assert!(a <= last);
        last = a;
    }
}

#[test]
fn melody_notes_are_notes() {
    let n = Note { pitch: Pitch::C, octave: 2 } + SemiTones(11);
    assert_eq!(n.pitch, Pitch::B);
}
