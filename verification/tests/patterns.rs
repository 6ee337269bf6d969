use scale_gen::arrangement::{FourPattern, PATTERNS};
use scale_gen::patterns::{driving_bar, ones_threes};
use scale_gen::{BarMember, Lengths, Note, Pitch};

fn ticks(slots: &[BarMember]) -> usize {
    slots.iter().map(|m| 48 * m.fract.num / m.fract.den).sum()
}

const ALL: [Lengths; 9] = [
    Lengths::Sixteenth,
    Lengths::SixteenthTriplets,
    Lengths::Eighth,
    Lengths::EighthTriplets,
    Lengths::Quarter,
    Lengths::QuarterTriplets,
    Lengths::Half,
    Lengths::HalfTriplets,
    Lengths::Whole,
];

#[test]
fn fractions_of_the_note_values() {
    let dens = [16, 24, 8, 12, 4, 6, 2, 3, 1];
    for (l, d) in ALL.iter().zip(dens) {
        let f = l.get_fraction();
        assert_eq!(f.num, 1);
        assert_eq!(f.den, d);
    }
}

#[test]
fn driving_bar_fills_one_whole_note() {
    let notes = [
        Note { pitch: Pitch::C, octave: 4 },
        Note { pitch: Pitch::E, octave: 4 },
    ];
    for l in ALL {
        let bar = driving_bar(l, &notes);
        assert_eq!(bar.notes.len(), l.get_fraction().den);
        assert_eq!(ticks(&bar.notes), 48);
        for m in &bar.notes {
            assert_eq!(m.fract.den, l.get_fraction().den);
            let n = m.note.expect("a driving bar has no rests");
            assert!(n.octave == 4 && (n.pitch == Pitch::C || n.pitch == Pitch::E));
        }
    }
}

#[test]
fn driving_bar_of_quarters_on_one_note() {
    let note = Note { pitch: Pitch::A, octave: 3 };
    let bar = driving_bar(Lengths::Quarter, &[note]);
    assert_eq!(bar.notes.len(), 4);
    for m in &bar.notes {
        assert_eq!(m.fract.den, 4);
        assert_eq!(m.note.unwrap().pitch, Pitch::A);
        assert_eq!(m.note.unwrap().octave, 3);
    }
}

#[test]
fn ones_threes_halves_fill_one_whole_note() {
    let notes = [Note { pitch: Pitch::G, octave: 5 }];
    for l in [
        Lengths::Sixteenth,
        Lengths::SixteenthTriplets,
        Lengths::Eighth,
        Lengths::EighthTriplets,
        Lengths::Quarter,
        Lengths::Half,
    ] {
        for _ in 0..20 {
            let bar = ones_threes(l, &notes);
            assert_eq!(bar.notes.len(), l.get_fraction().den);
            assert_eq!(ticks(&bar.notes), 48);
            // Within each half, sounding notes come before rests.
            let half = bar.notes.len() / 2;
            for h in [&bar.notes[..half], &bar.notes[half..]] {
                let first_rest = h.iter().position(|m| m.note.is_none()).unwrap_or(h.len());
                assert!(h[first_rest..].iter().all(|m| m.note.is_none()));
                assert!(h[..first_rest].iter().all(|m| m.note.is_some()));
            }
        }
    }
}

#[test]
fn ones_threes_half_triplets_and_whole_rest_half_a_note_after() {
    let notes = [Note { pitch: Pitch::D, octave: 2 }];
    let bar = ones_threes(Lengths::HalfTriplets, &notes);
    assert_eq!(bar.notes.len(), 4);
    for m in &bar.notes[..3] {
        assert_eq!(m.fract.den, 3);
        assert_eq!(m.note.unwrap().pitch, Pitch::D);
    }
    assert_eq!(bar.notes[3].fract.num, 1);
    assert_eq!(bar.notes[3].fract.den, 2);
    assert!(bar.notes[3].note.is_none());
    assert_eq!(ticks(&bar.notes), 72);

    let bar = ones_threes(Lengths::Whole, &notes);
    assert_eq!(bar.notes.len(), 2);
    assert_eq!(bar.notes[0].fract.den, 1);
    assert!(bar.notes[0].note.is_some());
    assert_eq!(bar.notes[1].fract.den, 2);
    assert!(bar.notes[1].note.is_none());
}

#[test]
fn ones_threes_quarter_triplets_keep_at_least_one_slot_per_half() {
    let notes = [Note { pitch: Pitch::F, octave: 4 }];
    for _ in 0..30 {
        let bar = ones_threes(Lengths::QuarterTriplets, &notes);
        assert!(bar.notes.len() >= 2 && bar.notes.len() <= 6);
        for m in &bar.notes {
            assert_eq!(m.fract.den, 6);
        }
    }
}

#[test]
fn four_patterns() {
    assert_eq!(FourPattern::AAAA.indexes(), [0, 0, 0, 0]);
    assert_eq!(FourPattern::AABB.indexes(), [0, 0, 1, 1]);
    assert_eq!(FourPattern::ABAB.indexes(), [0, 1, 0, 1]);
    assert_eq!(FourPattern::ABAC.indexes(), [0, 1, 0, 2]);
    assert_eq!(FourPattern::AAAB.indexes(), [0, 0, 0, 1]);
    assert_eq!(PATTERNS.len(), 5);
    for p in PATTERNS {
        let u = p.indexes();
        assert_eq!(u[0], 0);
        assert!(u.iter().all(|&k| k < 3));
    }
}

#[test]
fn arrangement_groups_labelled_alike_repeat() {
    let pats = [
        FourPattern::AAAA,
        FourPattern::AABB,
        FourPattern::ABAB,
        FourPattern::ABAC,
        FourPattern::AAAB,
    ];
    for outer in pats {
        for a in pats {
            for b in pats {
                for c in pats {
                    let inners = [a, b, c];
                    let section =
                        |bar: usize| inners[outer.indexes()[bar / 4]].indexes()[bar % 4];
                    assert_eq!(section(0), 0);
                    for g in 0..4 {
                        for h in 0..4 {
                            if outer.indexes()[g] == outer.indexes()[h] {
                                for k in 0..4 {
                                    assert_eq!(section(4 * g + k), section(4 * h + k));
                                }
                            }
                        }
                    }
                    for bar in 0..16 {
                        assert!(section(bar) < 3);
                    }
                }
            }
        }
    }
}
