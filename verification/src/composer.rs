use vstd::prelude::*;

use crate::bar::Bar;
use crate::compose::{
    chord_fits, chord_fits_check, chord_octave_after, chord_part_draws_ok, chord_root,
    chord_section, chord_table, draw_chord_part, draw_melody, is_chord_from, is_chord_part_from,
    is_melody_from, melody_draws_ok, melody_end, melody_fits, melody_fits_check, octave_can_step,
    melody_sounds_scale_over_chord_pitches, sixteen_bars_chords_with, sixteen_bars_melody_with,
    ChordBars, ChordPartDraws, MelodyDraws,
};
use crate::arrangement::FourPattern;
use crate::bar::Lengths;
use crate::random::{
    random_between, thread_rng, weight_total, weighted_choice_weights, weighted_index,
    weighted_sample, ChoiceWeights,
};
use crate::scale::{pitch_numbers_round_trip, transpose_fits, transposed, Note, Pitch, SemiTones};

verus! {

/// The weight of chord `i` when the first `primary` chords are the primary
/// ones: 8 for the first chord, 4 for each other primary chord, 1 for each
/// secondary chord.
pub open spec fn chord_weight(primary: int, i: int) -> int {
    if i == 0 {
        8
    } else if i < primary {
        4
    } else {
        1
    }
}

/// A weight total grows by the weight appended.
proof fn weight_total_push(w: Seq<u32>, x: u32)
    ensures
        weight_total(w.push(x)) == weight_total(w) + x,
{
    assert(w.push(x).drop_last() =~= w);
}

/// The weights for drawing among `primary` primary chords followed by
/// `secondary` secondary ones.
pub fn chord_weights(primary: usize, secondary: usize) -> (w: Vec<u32>)
    requires
        primary >= 1,
        primary + secondary <= usize::MAX,
    ensures
        w@.len() == primary + secondary,
        forall|i: int| 0 <= i < w@.len() ==> #[trigger] w@[i] == chord_weight(primary as int, i),
        weight_total(w@) == 8 + 4 * (primary - 1) + secondary,
{
    let mut w: Vec<u32> = Vec::new();
    w.push(8);
    proof {
        weight_total_push(seq![], 8);
        assert(seq![].push(8u32) =~= w@);
    }
    let mut k: usize = 0;
    while k < primary - 1
        invariant
            primary >= 1,
            k <= primary - 1,
            w@.len() == 1 + k,
            forall|i: int| 0 <= i < w@.len() ==> #[trigger] w@[i] == chord_weight(primary as int, i),
            weight_total(w@) == 8 + 4 * k,
        decreases primary - 1 - k,
    {
        proof {
            weight_total_push(w@, 4);
        }
        w.push(4);
        k = k + 1;
    }
    let mut k: usize = 0;
    while k < secondary
        invariant
            primary >= 1,
            primary + secondary <= usize::MAX,
            k <= secondary,
            w@.len() == primary + k,
            forall|i: int| 0 <= i < w@.len() ==> #[trigger] w@[i] == chord_weight(primary as int, i),
            weight_total(w@) == 8 + 4 * (primary - 1) + k,
        decreases secondary - k,
    {
        proof {
            weight_total_push(w@, 1);
        }
        w.push(1);
        k = k + 1;
    }
    w
}

/// Equal weights for drawing among `count` choices.
pub fn equal_weights(count: usize) -> (w: Vec<u32>)
    ensures
        w@.len() == count,
        forall|i: int| 0 <= i < w@.len() ==> #[trigger] w@[i] == 1,
        weight_total(w@) == count,
{
    let mut w: Vec<u32> = Vec::new();
    let mut k: usize = 0;
    while k < count
        invariant
            k <= count,
            w@.len() == k,
            forall|i: int| 0 <= i < w@.len() ==> #[trigger] w@[i] == 1,
            weight_total(w@) == k,
        decreases count - k,
    {
        proof {
            weight_total_push(w@, 1);
        }
        w.push(1);
        k = k + 1;
    }
    w
}

/// Chord draws for a section that is not played.
fn no_chord_draws() -> (d: ChordPartDraws) {
    ChordPartDraws {
        outer: FourPattern::AAAA,
        inners: [FourPattern::AAAA, FourPattern::AAAA, FourPattern::AAAA],
        chords: Vec::new(),
    }
}

/// Melody draws for a section that is not played.
fn no_melody_draws() -> (d: MelodyDraws) {
    MelodyDraws {
        outer: FourPattern::AAAA,
        inners: [FourPattern::AAAA, FourPattern::AAAA, FourPattern::AAAA],
        motifs: Vec::new(),
        lengths: [Lengths::Quarter, Lengths::Quarter, Lengths::Quarter],
        bars: Vec::new(),
    }
}

/// The chords at indices `c0`, `c1` and `c2` of `table`.
fn pick_chords(
    table: &Vec<(SemiTones, Vec<SemiTones>)>,
    c0: usize,
    c1: usize,
    c2: usize,
) -> (chords: [(SemiTones, &[SemiTones]); 3])
    requires
        c0 < table@.len(),
        c1 < table@.len(),
        c2 < table@.len(),
    ensures
        chord_table(chords) == seq![
            (table@[c0 as int].0, table@[c0 as int].1@),
            (table@[c1 as int].0, table@[c1 as int].1@),
            (table@[c2 as int].0, table@[c2 as int].1@),
        ],
        forall|k: int| 0 <= k < 3 ==> #[trigger] chord_table(chords)[k] == (chords@[k].0, chords@[k].1@),
{
    let chords = [
        (table[c0].0, table[c0].1.as_slice()),
        (table[c1].0, table[c1].1.as_slice()),
        (table[c2].0, table[c2].1.as_slice()),
    ];
    assert(chord_table(chords) =~= seq![
        (table@[c0 as int].0, table@[c0 as int].1@),
        (table@[c1 as int].0, table@[c1 as int].1@),
        (table@[c2 as int].0, table@[c2 as int].1@),
    ]);
    chords
}

/// Whether all three `chords` fit their octaves on `voices` voices, checked.
fn chords_fit_three(chords: [(SemiTones, &[SemiTones]); 3], voices: usize) -> (fits: bool)
    ensures
        fits == chords_fit(chord_table(chords), voices as int),
        fits ==> forall|k: int| 0 <= k < 3 ==> chord_fits(#[trigger] chords@[k].0, chords@[k].1@, voices as int),
{
    let ghost table = chord_table(chords);
    let fits = chord_fits_check(chords[0].0, chords[0].1, voices) && chord_fits_check(
        chords[1].0,
        chords[1].1,
        voices,
    ) && chord_fits_check(chords[2].0, chords[2].1, voices);
    assert forall|k: int| 0 <= k < 3 implies #[trigger] table[k] == (chords@[k].0, chords@[k].1@) by {}
    assert(fits == chords_fit(table, voices as int)) by {
        assert(table[0] == (chords@[0].0, chords@[0].1@));
        assert(table[1] == (chords@[1].0, chords@[1].1@));
        assert(table[2] == (chords@[2].0, chords@[2].1@));
        chords_fit_each(table, voices as int);
    }
    if fits {
        assert forall|k: int| 0 <= k < 3 implies chord_fits(#[trigger] chords@[k].0, chords@[k].1@, voices as int) by {
            assert(table[k] == (chords@[k].0, chords@[k].1@));
        }
    }
    fits
}

/// Plays the chord part that the draws `cd` give for `chords` from chord
/// octave `start`, in one pass: its sixteen bars, the chord octave it leaves,
/// and the chord pitch of each bar.
fn play_chord_part(
    chords: [(SemiTones, &[SemiTones]); 3],
    start: u8,
    voices: usize,
    cd: &ChordPartDraws,
) -> (r: (Vec<ChordBars>, u8, Vec<Pitch>))
    requires
        octave_can_step(start),
        forall|k: int| 0 <= k < 3 ==> chord_fits(#[trigger] chords@[k].0, chords@[k].1@, voices as int),
        chord_part_draws_ok(*cd, chord_table(chords), voices as int, start),
    ensures
        is_chord_part_from(r.0@, chord_table(chords), start, *cd),
        r.1 == chord_octave_after(start, cd.chords@, 16),
        3 <= r.1 <= 5,
        r.2@ == part_pitches(chord_table(chords), start, *cd),
        r.2@.len() == 16,
        forall|i: int| 0 <= i < 16 ==> #[trigger] r.2@[i] == r.0@[i].pitch,
{
    let mut oct = start;
    let bars = sixteen_bars_chords_with(chords, &mut oct, voices, cd);
    let ghost table = chord_table(chords);
    let mut pitches: Vec<Pitch> = Vec::new();
    let mut i: usize = 0;
    while i < bars.len()
        invariant
            i <= bars@.len(),
            bars@.len() == 16,
            is_chord_part_from(bars@, table, start, *cd),
            pitches@ =~= part_pitches(table, start, *cd).take(i as int),
        decreases bars@.len() - i,
    {
        pitches.push(bars[i].pitch);
        proof {
            assert(is_chord_from(
                bars@[i as int],
                chord_octave_after(start, cd.chords@, i as nat),
                table[chord_section(*cd, i as int)].0,
                cd.chords@[i as int],
            ));
        }
        assert(pitches@ =~= part_pitches(table, start, *cd).take(i + 1));
        i = i + 1;
    }
    assert(pitches@ =~= part_pitches(table, start, *cd));
    proof {
        chord_part_pitches_follow_roots(bars@, table, start, *cd);
    }
    (bars, oct, pitches)
}

/// One sixteen-bar section of music: the chord part and the melody over it.
pub struct Section {
    pub chords: Vec<ChordBars>,
    pub melody: Vec<Bar>,
}

/// Whether all three chords of `table` fit their octaves on `voices` voices.
pub open spec fn chords_fit(table: Seq<(SemiTones, Seq<SemiTones>)>, voices: int) -> bool {
    forall|k: int| 0 <= k < 3 ==> chord_fits(#[trigger] table[k].0, table[k].1, voices)
}

/// Three chords fit exactly when each of them fits.
proof fn chords_fit_each(table: Seq<(SemiTones, Seq<SemiTones>)>, voices: int)
    ensures
        chords_fit(table, voices) == (chord_fits(table[0].0, table[0].1, voices) && chord_fits(
            table[1].0,
            table[1].1,
            voices,
        ) && chord_fits(table[2].0, table[2].1, voices)),
{
    if chord_fits(table[0].0, table[0].1, voices) && chord_fits(table[1].0, table[1].1, voices)
        && chord_fits(table[2].0, table[2].1, voices) {
        assert forall|k: int| 0 <= k < 3 implies chord_fits(#[trigger] table[k].0, table[k].1, voices) by {
            if k == 0 {
            } else if k == 1 {
            } else {
            }
        }
    }
}

/// The chord pitch of each of the sixteen bars that the draws `d` give for
/// `table` from chord octave `start`.
pub open spec fn part_pitches(
    table: Seq<(SemiTones, Seq<SemiTones>)>,
    start: u8,
    d: ChordPartDraws,
) -> Seq<Pitch> {
    Seq::new(
        16,
        |i: int|
            chord_root(
                chord_octave_after(start, d.chords@, (i + 1) as nat),
                table[chord_section(d, i)].0,
            ).pitch,
    )
}

/// The chord pitches that a chord part hands on are the pitches of its bars,
/// bar for bar, and each bar sounds the root of the chord its patterns pick:
/// its pitch number is that chord's root in semitones, modulo 12, whatever
/// octave the chord is in.
pub proof fn chord_part_pitches_follow_roots(
    bars: Seq<ChordBars>,
    table: Seq<(SemiTones, Seq<SemiTones>)>,
    start: u8,
    d: ChordPartDraws,
)
    requires
        is_chord_part_from(bars, table, start, d),
    ensures
        part_pitches(table, start, d).len() == 16,
        forall|i: int| 0 <= i < 16 ==> #[trigger] part_pitches(table, start, d)[i] == bars[i].pitch,
        forall|i: int|
            0 <= i < 16 ==> (#[trigger] bars[i]).pitch.index() == table[chord_section(d, i)].0.0 % 12,
{
    assert forall|i: int| 0 <= i < 16 implies #[trigger] part_pitches(table, start, d)[i] == bars[i].pitch by {
        assert(is_chord_from(
            bars[i],
            chord_octave_after(start, d.chords@, i as nat),
            table[chord_section(d, i)].0,
            d.chords@[i],
        ));
    }
    assert forall|i: int| 0 <= i < 16 implies (#[trigger] bars[i]).pitch.index() == table[chord_section(
        d,
        i,
    )].0.0 % 12 by {
        let root = table[chord_section(d, i)].0;
        assert(is_chord_from(
            bars[i],
            chord_octave_after(start, d.chords@, i as nat),
            root,
            d.chords@[i],
        ));
        c_shift_does_not_wrap(root);
        pitch_numbers_round_trip(bars[i].pitch, (root.0 % 12) as u8);
    }
}

/// Raising C by `root` semitones never wraps the `u32` sum.
proof fn c_shift_does_not_wrap(root: SemiTones)
    ensures
        crate::scale::shifted_index(Pitch::C, root) == root.0,
{
}

/// Draws the chords and scales of a piece section after section, with their
/// weights, and keeps the chord and melody octaves from one section to the next.
pub struct Composer {
    chords: Vec<(SemiTones, Vec<SemiTones>)>,
    chord_weights: ChoiceWeights,
    scales: Vec<Vec<SemiTones>>,
    scale_weights: ChoiceWeights,
    chord_oct: u8,
    melody_oct: u8,
}

impl Composer {
    /// The chords to draw from, each as its root and its intervals.
    pub closed spec fn chord_choices(self) -> Seq<(SemiTones, Seq<SemiTones>)> {
        self.chords@.map_values(|c: (SemiTones, Vec<SemiTones>)| (c.0, c.1@))
    }

    /// The scales to draw from.
    pub closed spec fn scale_choices(self) -> Seq<Seq<SemiTones>> {
        self.scales@.map_values(|s: Vec<SemiTones>| s@)
    }

    /// The weights the chords are drawn with, one per chord.
    pub closed spec fn chord_weight_table(self) -> Seq<u32> {
        weighted_choice_weights(self.chord_weights)
    }

    /// The weights the scales are drawn with, one per scale.
    pub closed spec fn scale_weight_table(self) -> Seq<u32> {
        weighted_choice_weights(self.scale_weights)
    }

    /// The octave the chord part is in.
    pub closed spec fn chord_octave(self) -> u8 {
        self.chord_oct
    }

    /// The octave the melody is in.
    pub closed spec fn melody_octave(self) -> u8 {
        self.melody_oct
    }

    /// The weighted indices cover the choices, the octaves lie in the ranges
    /// the parts keep them in, and every scale has an interval to draw.
    pub closed spec fn wf(self) -> bool {
        &&& weighted_choice_weights(self.chord_weights).len() == self.chords@.len()
        &&& weighted_choice_weights(self.scale_weights).len() == self.scales@.len()
        &&& 3 <= self.chord_oct <= 5
        &&& 2 <= self.melody_oct <= 6
        &&& forall|k: int| 0 <= k < self.scales@.len() ==> (#[trigger] self.scales@[k])@.len() > 0
    }

    /// Sets up a piece: the chords drawn with weight 8 for the first primary
    /// chord, 4 for each other primary chord and 1 for each secondary chord,
    /// the scales drawn with equal weights, a chord octave of 4 or 5 and a
    /// melody octave of 3 or 4, both drawn at random.
    pub fn new(
        primary: Vec<(SemiTones, Vec<SemiTones>)>,
        secondary: Vec<(SemiTones, Vec<SemiTones>)>,
        scales: Vec<Vec<SemiTones>>,
    ) -> (c: Composer)
        requires
            primary@.len() >= 1,
            scales@.len() >= 1,
            4 * primary@.len() + secondary@.len() + 4 <= u32::MAX,
            scales@.len() <= u32::MAX,
            forall|k: int| 0 <= k < scales@.len() ==> (#[trigger] scales@[k])@.len() > 0,
        ensures
            c.wf(),
            c.chord_choices() == (primary@ + secondary@).map_values(
                |x: (SemiTones, Vec<SemiTones>)| (x.0, x.1@),
            ),
            c.scale_choices() == scales@.map_values(|s: Vec<SemiTones>| s@),
            c.chord_weight_table().len() == primary@.len() + secondary@.len(),
            forall|i: int|
                0 <= i < c.chord_weight_table().len() ==> #[trigger] c.chord_weight_table()[i]
                    == chord_weight(primary@.len() as int, i),
            c.scale_weight_table().len() == scales@.len(),
            forall|i: int| 0 <= i < c.scale_weight_table().len() ==> #[trigger] c.scale_weight_table()[i] == 1,
            4 <= c.chord_octave() <= 5,
            3 <= c.melody_octave() <= 4,
    {
        let mut rng = thread_rng();
        let weights = chord_weights(primary.len(), secondary.len());
        let mut chords = primary;
        let mut secondary = secondary;
        let ghost both = chords@ + secondary@;
        chords.append(&mut secondary);
        assert(chords@ =~= both);

        let chord_weights = match weighted_index(&weights) {
            Ok(index) => index,
            Err(_) => vstd::pervasive::unreached(),
        };
        let scale_weights_vec = equal_weights(scales.len());
        let scale_weights = match weighted_index(&scale_weights_vec) {
            Ok(index) => index,
            Err(_) => vstd::pervasive::unreached(),
        };

        let chord_oct = random_between(&mut rng, 4, 5) as u8;
        let melody_oct = random_between(&mut rng, 3, 4) as u8;
        Composer { chords, chord_weights, scales, scale_weights, chord_oct, melody_oct }
    }

    /// Whether every chord fits in every octave its part can be in, and every
    /// interval of every scale fits above every pitch in every octave the melody
    /// can be in: then no section can overflow an octave.
    pub open spec fn repertoire_fits(self, voices: int) -> bool {
        &&& forall|k: int|
            0 <= k < self.chord_choices().len() ==> chord_fits(
                #[trigger] self.chord_choices()[k].0,
                self.chord_choices()[k].1,
                voices,
            )
        &&& forall|k: int, p: Pitch, oct: u8, s: SemiTones|
            #![trigger self.scale_choices()[k].contains(s), transpose_fits(Note { pitch: p, octave: oct }, s)]
            0 <= k < self.scale_choices().len() && 2 <= oct <= 6 && self.scale_choices()[k].contains(
                s,
            ) ==> transpose_fits(Note { pitch: p, octave: oct }, s)
    }

    /// The three chords picked by the chord indices `c0`, `c1` and `c2`.
    pub open spec fn section_table(self, c0: int, c1: int, c2: int) -> Seq<(SemiTones, Seq<SemiTones>)> {
        seq![self.chord_choices()[c0], self.chord_choices()[c1], self.chord_choices()[c2]]
    }

    /// Whether a section on the scale `si` and the chords `c0`, `c1`, `c2`,
    /// with the chord part drawn as `cd`, keeps every note within a byte's octaves.
    pub open spec fn section_fits(
        self,
        voices: int,
        si: int,
        c0: int,
        c1: int,
        c2: int,
        cd: ChordPartDraws,
    ) -> bool {
        let table = self.section_table(c0, c1, c2);
        &&& chords_fit(table, voices)
        &&& melody_fits(self.scale_choices()[si], part_pitches(table, self.chord_octave(), cd))
    }

    /// Whether the indices and draws can be drawn for a section: indices
    /// below the numbers of choices, and, where the section fits, chord and
    /// melody draws that can be made for it.
    pub open spec fn section_draws_ok(
        self,
        voices: int,
        si: int,
        c0: int,
        c1: int,
        c2: int,
        cd: ChordPartDraws,
        md: MelodyDraws,
    ) -> bool {
        let table = self.section_table(c0, c1, c2);
        &&& 0 <= si < self.scale_choices().len()
        &&& 0 <= c0 < self.chord_choices().len()
        &&& 0 <= c1 < self.chord_choices().len()
        &&& 0 <= c2 < self.chord_choices().len()
        &&& chords_fit(table, voices) ==> chord_part_draws_ok(cd, table, voices, self.chord_octave())
        &&& self.section_fits(voices, si, c0, c1, c2, cd) ==> melody_draws_ok(
            md,
            self.scale_choices()[si],
            part_pitches(table, self.chord_octave(), cd),
            self.melody_octave(),
        )
    }

    /// What a section drawn as given yields, with `after` the composer
    /// afterwards: a section exactly when it fits, the chord part and melody its
    /// draws decide with the octaves they leave, and nothing moved otherwise.
    pub open spec fn section_outcome(
        self,
        after: Composer,
        voices: int,
        si: int,
        c0: int,
        c1: int,
        c2: int,
        cd: ChordPartDraws,
        md: MelodyDraws,
        r: Option<Section>,
    ) -> bool {
        let table = self.section_table(c0, c1, c2);
        &&& r is Some <==> self.section_fits(voices, si, c0, c1, c2, cd)
        &&& r matches Some(section) ==> {
            &&& is_chord_part_from(section.chords@, table, self.chord_octave(), cd)
            &&& after.chord_octave() == chord_octave_after(self.chord_octave(), cd.chords@, 16)
            &&& is_melody_from(section.melody@, md)
            &&& after.melody_octave() == melody_end(md, self.melody_octave())
        }
        &&& r is None ==> after.chord_octave() == self.chord_octave() && after.melody_octave()
            == self.melody_octave()
    }

    /// A composed section plays, bar for bar, the roots of the chords its
    /// patterns pick, and its melody sits on those chords: every note of
    /// melody bar `i` is the pitch of chord bar `i`, in an octave from 2 to 6,
    /// raised by an interval of the drawn scale.
    pub proof fn section_melody_sits_on_its_chords(
        self,
        after: Composer,
        voices: int,
        si: int,
        c0: int,
        c1: int,
        c2: int,
        cd: ChordPartDraws,
        md: MelodyDraws,
        section: Section,
    )
        requires
            self.section_draws_ok(voices, si, c0, c1, c2, cd, md),
            self.section_outcome(after, voices, si, c0, c1, c2, cd, md, Some(section)),
        ensures
            section.chords@.len() == 16,
            section.melody@.len() == 16,
            forall|i: int|
                0 <= i < 16 ==> (#[trigger] section.chords@[i]).pitch.index() == self.section_table(
                    c0,
                    c1,
                    c2,
                )[chord_section(cd, i)].0.0 % 12,
            forall|i: int, j: int|
                0 <= i < 16 && 0 <= j < section.melody@[i].notes@.len()
                    && (#[trigger] section.melody@[i].notes@[j]).note is Some ==> exists|oct: u8, s: SemiTones|
                    2 <= oct <= 6 && self.scale_choices()[si].contains(s)
                        && section.melody@[i].notes@[j].note == Some(
                        #[trigger] transposed(Note { pitch: section.chords@[i].pitch, octave: oct }, s),
                    ),
    {
        let table = self.section_table(c0, c1, c2);
        let pitches = part_pitches(table, self.chord_octave(), cd);
        chord_part_pitches_follow_roots(section.chords@, table, self.chord_octave(), cd);
        melody_sounds_scale_over_chord_pitches(
            section.melody@,
            md,
            self.scale_choices()[si],
            pitches,
            self.melody_octave(),
        );
        assert forall|i: int, j: int|
            0 <= i < 16 && 0 <= j < section.melody@[i].notes@.len()
                && (#[trigger] section.melody@[i].notes@[j]).note is Some implies exists|oct: u8, s: SemiTones|
            2 <= oct <= 6 && self.scale_choices()[si].contains(s) && section.melody@[i].notes@[j].note
                == Some(#[trigger] transposed(Note { pitch: section.chords@[i].pitch, octave: oct }, s)) by {
            assert(pitches[i] == section.chords@[i].pitch);
        }
    }

    /// Composes a section from its draws: the scale `si` and the chords `c0`,
    /// `c1`, `c2`, then sixteen bars of those chords (for `voices` voices) and
    /// sixteen bars of melody in that scale over the chords' pitches, as the
    /// draws decide. `None`, with nothing changed, where a chord or the melody
    /// would carry a note beyond the highest octave.
    #[verifier::spinoff_prover]
    pub fn next_section_with(
        &mut self,
        voices: usize,
        si: usize,
        c0: usize,
        c1: usize,
        c2: usize,
        cd: &ChordPartDraws,
        md: &MelodyDraws,
    ) -> (r: Option<Section>)
        requires
            old(self).wf(),
            old(self).section_draws_ok(voices as int, si as int, c0 as int, c1 as int, c2 as int, *cd, *md),
        ensures
            final(self).wf(),
            final(self).chord_choices() == old(self).chord_choices(),
            final(self).scale_choices() == old(self).scale_choices(),
            final(self).chord_weight_table() == old(self).chord_weight_table(),
            final(self).scale_weight_table() == old(self).scale_weight_table(),
            old(self).section_outcome(
                *final(self),
                voices as int,
                si as int,
                c0 as int,
                c1 as int,
                c2 as int,
                *cd,
                *md,
                r,
            ),
    {
        let ghost old_self = *self;
        let chords = pick_chords(&self.chords, c0, c1, c2);
        assert(chord_table(chords) =~= old_self.section_table(c0 as int, c1 as int, c2 as int));
        if !chords_fit_three(chords, voices) {
            return None;
        }
        let (chord_bars, chord_end, pitches) = play_chord_part(chords, self.chord_oct, voices, cd);
        let scale = &self.scales[si];
        assert(scale@ == old_self.scale_choices()[si as int]);
        if !melody_fits_check(scale, &pitches) {
            return None;
        }
        let mut melody_oct = self.melody_oct;
        let melody = sixteen_bars_melody_with(&mut melody_oct, md);
        self.chord_oct = chord_end;
        self.melody_oct = melody_oct;
        Some(Section { chords: chord_bars, melody })
    }

    /// Composes the next section: draws a scale and three chords by their
    /// weights, then the draws of sixteen bars of those chords (for `voices`
    /// voices) and of sixteen bars of melody in that scale over the chords'
    /// pitches, the chord and melody octaves walking on from where the last
    /// section left them, and composes the section from them. `None` where a
    /// drawn chord or the melody would carry a note beyond the highest octave.
    #[verifier::spinoff_prover]
    pub fn next_section(&mut self, voices: usize) -> (r: Option<Section>)
        requires
            old(self).wf(),
        ensures
            final(self).wf(),
            3 <= final(self).chord_octave() <= 5,
            2 <= final(self).melody_octave() <= 6,
            final(self).chord_choices() == old(self).chord_choices(),
            final(self).scale_choices() == old(self).scale_choices(),
            final(self).chord_weight_table() == old(self).chord_weight_table(),
            final(self).scale_weight_table() == old(self).scale_weight_table(),
            old(self).repertoire_fits(voices as int) ==> r is Some,
            exists|si: int, c0: int, c1: int, c2: int, cd: ChordPartDraws, md: MelodyDraws|
                #[trigger] old(self).section_draws_ok(voices as int, si, c0, c1, c2, cd, md)
                    && old(self).section_outcome(*final(self), voices as int, si, c0, c1, c2, cd, md, r),
    {
        let mut rng = thread_rng();
        let si = weighted_sample(&self.scale_weights, &mut rng);
        let c0 = weighted_sample(&self.chord_weights, &mut rng);
        let c1 = weighted_sample(&self.chord_weights, &mut rng);
        let c2 = weighted_sample(&self.chord_weights, &mut rng);
        let ghost table = self.section_table(c0 as int, c1 as int, c2 as int);
        let ghost old_self = *self;
        let chords = pick_chords(&self.chords, c0, c1, c2);
        assert(chord_table(chords) =~= table);
        proof {
            if old_self.repertoire_fits(voices as int) {
                assert(chord_fits(table[0].0, table[0].1, voices as int));
                assert(chord_fits(table[1].0, table[1].1, voices as int));
                assert(chord_fits(table[2].0, table[2].1, voices as int));
                chords_fit_each(table, voices as int);
            }
        }
        if !chords_fit_three(chords, voices) {
            let cd = no_chord_draws();
            let md = no_melody_draws();
            proof {
                assert(old_self.section_draws_ok(voices as int, si as int, c0 as int, c1 as int, c2 as int, cd, md));
                assert(old_self.section_outcome(*self, voices as int, si as int, c0 as int, c1 as int, c2 as int, cd, md, None));
            }
            return None;
        }
        let cd = draw_chord_part(chords, self.chord_oct, voices, &mut rng);
        let (chord_bars, chord_end, pitches) = play_chord_part(chords, self.chord_oct, voices, &cd);
        let scale = &self.scales[si];
        assert(scale@ == old_self.scale_choices()[si as int]);
        proof {
            if old_self.repertoire_fits(voices as int) {
                assert forall|i: int, oct: u8, s: SemiTones|
                    0 <= i < 16 && 2 <= oct <= 6 && scale@.contains(s) implies #[trigger] transpose_fits(
                    Note { pitch: pitches@[i], octave: oct },
                    s,
                ) by {
                    assert(old_self.scale_choices()[si as int].contains(s));
                }
            }
        }
        if !melody_fits_check(scale, &pitches) {
            let md = no_melody_draws();
            proof {
                assert(old_self.section_draws_ok(voices as int, si as int, c0 as int, c1 as int, c2 as int, cd, md));
                assert(old_self.section_outcome(*self, voices as int, si as int, c0 as int, c1 as int, c2 as int, cd, md, None));
            }
            return None;
        }
        let md = draw_melody(self.melody_oct, scale, &pitches, &mut rng);
        let mut melody_oct = self.melody_oct;
        let melody = sixteen_bars_melody_with(&mut melody_oct, &md);
        self.chord_oct = chord_end;
        self.melody_oct = melody_oct;
        let r = Some(Section { chords: chord_bars, melody });
        assert(old_self.section_draws_ok(voices as int, si as int, c0 as int, c1 as int, c2 as int, cd, md));
        assert(old_self.section_outcome(*self, voices as int, si as int, c0 as int, c1 as int, c2 as int, cd, md, r));
        r
    }
}

} // verus!
