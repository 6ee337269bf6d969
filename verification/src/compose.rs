use vstd::prelude::*;

use crate::arrangement::{section_of_bar, FourPattern, PATTERNS};
use crate::bar::{Bar, BarMember, Lengths};
use crate::patterns::{
    bar_draws_ok, bar_draws_shape, bar_slots, bar_sounds_only_its_picks, bar_with, draw_bar,
    picks_from, BarDraws,
};
use crate::random::{pick_one, random_between, random_byte, thread_rng};
use crate::scale::{
    semitone_number, transpose_fits, transpose_moves_by_semitones, transposed, Note, Pitch,
    SemiTones,
};

verus! {

/// Whether an octave can take a step of -1, 0 or +1 in `i8` arithmetic
/// without overflowing.
pub open spec fn octave_can_step(oct: u8) -> bool {
    oct != 127 && oct != 128
}

/// The octave that `oct` reaches by `step`, wrapped into a byte and then kept
/// within `lo..=hi`.
pub open spec fn step_octave(oct: u8, step: int, lo: u8, hi: u8) -> u8 {
    let moved = (oct + step) % 256;
    (if moved < lo {
        lo as int
    } else if moved > hi {
        hi as int
    } else {
        moved
    }) as u8
}

/// A chord as `gen_chord` plays it: the pitch of its root, and for each voice
/// the bar it plays, or `None` where the voice stays silent.
pub struct ChordBars {
    pub pitch: Pitch,
    pub voices: Vec<Option<Bar>>,
}

/// The root note of a chord built on `root` semitones above C in octave `oct`.
pub open spec fn chord_root(oct: u8, root: SemiTones) -> Note {
    transposed(Note { pitch: Pitch::C, octave: oct }, root)
}

/// Whether a chord on `root` with the given intervals can be built without an
/// octave overflowing, in every octave from 3 to 5 where `gen_chord` places
/// it, for the intervals that one of `voices` voices plays.
pub open spec fn chord_fits(root: SemiTones, intervals: Seq<SemiTones>, voices: int) -> bool {
    forall|oct: u8|
        3 <= oct <= 5 ==> {
            &&& transpose_fits(Note { pitch: Pitch::C, octave: oct }, root)
            &&& forall|i: int|
                0 <= i < intervals.len() && i < voices ==> transpose_fits(
                    #[trigger] chord_root(oct, root),
                    intervals[i],
                )
        }
}

/// Checks `chord_fits` by trying every octave and voiced interval.
pub(crate) fn chord_fits_check(root: SemiTones, intervals: &[SemiTones], voices: usize) -> (r: bool)
    ensures
        r == chord_fits(root, intervals@, voices as int),
{
    let mut oct: u8 = 3;
    while oct <= 5
        invariant
            3 <= oct <= 6,
            forall|o: u8|
                3 <= o < oct ==> {
                    &&& transpose_fits(Note { pitch: Pitch::C, octave: o }, root)
                    &&& forall|i: int|
                        0 <= i < intervals@.len() && i < voices ==> transpose_fits(
                            #[trigger] chord_root(o, root),
                            intervals@[i],
                        )
                },
        decreases 6 - oct,
    {
        let base = Note { pitch: Pitch::C, octave: oct };
        match base.checked_add(root) {
            None => {
                return false;
            },
            Some(note) => {
                let mut i: usize = 0;
                while i < intervals.len() && i < voices
                    invariant
                        3 <= oct <= 5,
                        note == chord_root(oct, root),
                        i <= intervals@.len(),
                        forall|j: int|
                            0 <= j < i ==> transpose_fits(chord_root(oct, root), #[trigger] intervals@[j]),
                    decreases intervals@.len() - i,
                {
                    if note.checked_add(intervals[i]).is_none() {
                        assert(!transpose_fits(chord_root(oct, root), intervals@[i as int]));
                        return false;
                    }
                    i = i + 1;
                }
            },
        }
        oct = oct + 1;
    }
    true
}

/// The three chords handed to `sixteen_bars_chords`, each as its root and its
/// intervals.
pub open spec fn chord_table(chords: [(SemiTones, &[SemiTones]); 3]) -> Seq<(SemiTones, Seq<SemiTones>)> {
    chords@.map_values(|c: (SemiTones, &[SemiTones])| (c.0, c.1@))
}

/// The notes a motif sounds over the chord pitch `pitch`: each interval of the
/// motif above `pitch` in the entry's octave.
pub open spec fn motif_notes(pitch: Pitch, motif: Seq<(u8, SemiTones)>) -> Seq<Note> {
    motif.map_values(|e: (u8, SemiTones)| transposed(Note { pitch, octave: e.0 }, e.1))
}

/// Whether every melody note over the first sixteen chord pitches stays
/// within octave range: any interval of `scale` above any of those pitches, in
/// any octave from 2 to 6, keeps its octave within a byte.
pub open spec fn melody_fits(scale: Seq<SemiTones>, pitch: Seq<Pitch>) -> bool {
    forall|i: int, oct: u8, s: SemiTones|
        0 <= i < 16 && 2 <= oct <= 6 && scale.contains(s) ==> #[trigger] transpose_fits(
            Note { pitch: pitch[i], octave: oct },
            s,
        )
}

/// Checks `melody_fits` by trying every pitch, octave and interval.
pub(crate) fn melody_fits_check(scale: &[SemiTones], pitch: &[Pitch]) -> (r: bool)
    requires
        pitch@.len() >= 16,
    ensures
        r == melody_fits(scale@, pitch@),
{
    let mut i: usize = 0;
    while i < 16
        invariant
            i <= 16,
            pitch@.len() >= 16,
            forall|k: int, oct: u8, s: SemiTones|
                0 <= k < i && 2 <= oct <= 6 && scale@.contains(s) ==> #[trigger] transpose_fits(
                    Note { pitch: pitch@[k], octave: oct },
                    s,
                ),
        decreases 16 - i,
    {
        let mut oct: u8 = 2;
        while oct <= 6
            invariant
                i < 16,
                2 <= oct <= 7,
                pitch@.len() >= 16,
                forall|k: int, o: u8, s: SemiTones|
                    0 <= k < i && 2 <= o <= 6 && scale@.contains(s) ==> #[trigger] transpose_fits(
                        Note { pitch: pitch@[k], octave: o },
                        s,
                    ),
                forall|o: u8, s: SemiTones|
                    2 <= o < oct && scale@.contains(s) ==> #[trigger] transpose_fits(
                        Note { pitch: pitch@[i as int], octave: o },
                        s,
                    ),
            decreases 7 - oct,
        {
            let mut j: usize = 0;
            while j < scale.len()
                invariant
                    i < 16,
                    2 <= oct <= 6,
                    pitch@.len() >= 16,
                    j <= scale@.len(),
                    forall|m: int|
                        0 <= m < j ==> #[trigger] transpose_fits(
                            Note { pitch: pitch@[i as int], octave: oct },
                            scale@[m],
                        ),
                decreases scale@.len() - j,
            {
                if (Note { pitch: pitch[i], octave: oct }).checked_add(scale[j]).is_none() {
                    assert(scale@.contains(scale@[j as int]));
                    return false;
                }
                j = j + 1;
            }
            assert forall|s: SemiTones| scale@.contains(s) implies #[trigger] transpose_fits(
                Note { pitch: pitch@[i as int], octave: oct },
                s,
            ) by {
                let m = choose|m: int| 0 <= m < scale@.len() && scale@[m] == s;
                assert(transpose_fits(Note { pitch: pitch@[i as int], octave: oct }, scale@[m]));
            }
            oct = oct + 1;
        }
        i = i + 1;
    }
    true
}

/// The note values a melody section can use.
pub open spec fn is_melody_length(length: Lengths) -> bool {
    ||| length is Eighth
    ||| length is EighthTriplets
    ||| length is Quarter
    ||| length is QuarterTriplets
    ||| length is HalfTriplets
    ||| length is Half
}

/// The octave `oct` reaches by the drawn step `step`, kept within `lo..=hi`.
fn apply_octave_step(oct: u8, step: i64, lo: u8, hi: u8) -> (r: u8)
    requires
        octave_can_step(oct),
        -1 <= step <= 1,
        lo <= hi,
    ensures
        r == step_octave(oct, step as int, lo, hi),
        lo <= r <= hi,
{
    let step = step as i8;
    assert(-128 <= (oct as i8) + step <= 127) by (bit_vector)
        requires
            oct != 127u8 && oct != 128u8,
            -1 <= step <= 1,
    ;
    let moved = ((oct as i8) + step) as u8;
    assert(moved == (oct + step) % 256) by (bit_vector)
        requires
            oct != 127u8 && oct != 128u8,
            -1 <= step <= 1,
            moved == ((oct as i8) + step) as u8,
    ;
    moved.max(lo).min(hi)
}

/// The note value a chord voice plays for its drawn length index.
pub open spec fn chord_length(index: int) -> Lengths {
    if index == 0 {
        Lengths::Quarter
    } else if index == 1 {
        Lengths::Half
    } else {
        Lengths::Whole
    }
}

/// The draws that decide one voice of a chord: a byte (below 64 the voice
/// stays silent), then an index into quarter, half and whole notes, and the
/// draws of the voice's bar.
pub struct VoiceDraw {
    pub byte: u8,
    pub length_index: usize,
    pub bar: BarDraws,
}

/// The slots a voice plays for its draws, or `None` for a silent voice.
pub open spec fn voice_slots(d: VoiceDraw) -> Option<Seq<BarMember>> {
    if d.byte < 64 {
        None
    } else {
        Some(bar_slots(chord_length(d.length_index as int), d.bar))
    }
}

/// Whether `d` can be drawn for a voice on `note`.
pub open spec fn voice_draw_ok(d: VoiceDraw, note: Note) -> bool {
    d.byte >= 64 ==> d.length_index < 3 && bar_draws_ok(
        chord_length(d.length_index as int),
        d.bar,
        seq![note],
    )
}

/// Whether a voice's bar is the one its draws give.
pub open spec fn voice_is(v: Option<Bar>, slots: Option<Seq<BarMember>>) -> bool {
    match v {
        Some(bar) => slots == Some(bar.notes@),
        None => slots is None,
    }
}

/// The number of voices that sound `intervals` on `voices` sinks.
pub open spec fn voice_count(intervals: Seq<SemiTones>, voices: int) -> int {
    if intervals.len() < voices {
        intervals.len() as int
    } else {
        voices
    }
}

/// The draws that decide a chord: the octave step, then the draws of each voice.
pub struct ChordDraw {
    pub step: i64,
    pub voices: Vec<VoiceDraw>,
}

/// Whether `d` can be drawn for a chord on `root` with `intervals` whose
/// octave was `before`.
pub open spec fn chord_draw_ok(
    d: ChordDraw,
    before: u8,
    root: SemiTones,
    intervals: Seq<SemiTones>,
    voices: int,
) -> bool {
    let after = step_octave(before, d.step as int, 3, 5);
    &&& -1 <= d.step <= 1
    &&& d.voices@.len() == voice_count(intervals, voices)
    &&& forall|i: int|
        0 <= i < d.voices@.len() ==> voice_draw_ok(
            #[trigger] d.voices@[i],
            transposed(chord_root(after, root), intervals[i]),
        )
}

/// Whether `c` is the chord on `root` that the draws `d` give when the chord
/// octave was `before`: the root's pitch in the stepped octave, and each voice
/// as its draws decide.
pub open spec fn is_chord_from(c: ChordBars, before: u8, root: SemiTones, d: ChordDraw) -> bool {
    &&& c.pitch == chord_root(step_octave(before, d.step as int, 3, 5), root).pitch
    &&& c.voices@.len() == d.voices@.len()
    &&& forall|i: int| 0 <= i < c.voices@.len() ==> voice_is(#[trigger] c.voices@[i], voice_slots(d.voices@[i]))
}

/// Each voice of a chord is silent exactly when its byte is below 64, and a
/// voice that sounds plays only its own chord tone: the chord's root in the
/// stepped octave raised by the voice's interval.
pub proof fn chord_voices_sound_their_tones(
    c: ChordBars,
    before: u8,
    root: SemiTones,
    intervals: Seq<SemiTones>,
    voices: int,
    d: ChordDraw,
)
    requires
        chord_draw_ok(d, before, root, intervals, voices),
        is_chord_from(c, before, root, d),
    ensures
        c.voices@.len() == voice_count(intervals, voices),
        forall|i: int| 0 <= i < c.voices@.len() ==> ((#[trigger] c.voices@[i]) is None <==> d.voices@[i].byte < 64),
        forall|i: int, j: int|
            0 <= i < c.voices@.len() && c.voices@[i] is Some && 0 <= j < c.voices@[i]->0.notes@.len()
                && (#[trigger] c.voices@[i]->0.notes@[j]).note is Some ==> c.voices@[i]->0.notes@[j].note
                == Some(transposed(chord_root(step_octave(before, d.step as int, 3, 5), root), intervals[i])),
{
    let tone_root = chord_root(step_octave(before, d.step as int, 3, 5), root);
    assert forall|i: int| 0 <= i < c.voices@.len() implies ((#[trigger] c.voices@[i]) is None <==> d.voices@[i].byte < 64) by {
        assert(voice_is(c.voices@[i], voice_slots(d.voices@[i])));
    }
    assert forall|i: int, j: int|
        0 <= i < c.voices@.len() && c.voices@[i] is Some && 0 <= j < c.voices@[i]->0.notes@.len()
            && (#[trigger] c.voices@[i]->0.notes@[j]).note is Some implies c.voices@[i]->0.notes@[j].note
            == Some(transposed(tone_root, intervals[i])) by {
        let v = d.voices@[i];
        let tone = transposed(tone_root, intervals[i]);
        assert(voice_is(c.voices@[i], voice_slots(v)));
        assert(voice_draw_ok(v, tone));
        let length = chord_length(v.length_index as int);
        assert(c.voices@[i]->0.notes@ == bar_slots(length, v.bar));
        bar_sounds_only_its_picks(length, v.bar, j);
        let n = c.voices@[i]->0.notes@[j].note->0;
        let k = choose|k: int| 0 <= k < v.bar.picks@.len() && v.bar.picks@[k] == n;
        assert(picks_from(v.bar.picks@, seq![tone]));
        assert(seq![tone].contains(v.bar.picks@[k]));
        assert(seq![tone][0] == tone);
    }
}

/// Plays a chord from its draws: steps the chord octave, builds the root
/// `semi` semitones above C there, and gives each voice silence (a byte below
/// 64) or the bar its draws decide.
pub fn gen_chord_with(
    oct: &mut u8,
    semi: SemiTones,
    chords: &[SemiTones],
    voices: usize,
    draw: &ChordDraw,
) -> (c: ChordBars)
    requires
        octave_can_step(*old(oct)),
        chord_fits(semi, chords@, voices as int),
        chord_draw_ok(*draw, *old(oct), semi, chords@, voices as int),
    ensures
        *final(oct) == step_octave(*old(oct), draw.step as int, 3, 5),
        3 <= *final(oct) <= 5,
        is_chord_from(c, *old(oct), semi, *draw),
{
    let ghost before = *oct;
    *oct = apply_octave_step(*oct, draw.step, 3, 5);
    assert(transpose_fits(Note { pitch: Pitch::C, octave: *oct }, semi));
    let note: Note = Note { pitch: Pitch::C, octave: *oct } + semi;
    let length_opts = [Lengths::Quarter, Lengths::Half, Lengths::Whole];

    let mut played: Vec<Option<Bar>> = Vec::new();
    let mut i: usize = 0;
    while i < draw.voices.len()
        invariant
            chord_draw_ok(*draw, before, semi, chords@, voices as int),
            *oct == step_octave(before, draw.step as int, 3, 5),
            length_opts@ == seq![Lengths::Quarter, Lengths::Half, Lengths::Whole],
            i <= draw.voices@.len(),
            played@.len() == i,
            forall|j: int| 0 <= j < i ==> voice_is(#[trigger] played@[j], voice_slots(draw.voices@[j])),
        decreases draw.voices@.len() - i,
    {
        let v = &draw.voices[i];
        if v.byte < 64u8 {
            played.push(None);
        } else {
            let length = length_opts[v.length_index];
            let bar = bar_with(length, &v.bar);
            played.push(Some(bar));
        }
        i = i + 1;
    }

    ChordBars { pitch: note.pitch, voices: played }
}

/// Draws a chord: the octave step from `before`, then for each voice a byte
/// and, for a sounding voice, its length index and its bar's draws.
fn draw_chord(
    before: u8,
    semi: SemiTones,
    chords: &[SemiTones],
    voices: usize,
    rng: &mut rand::rngs::ThreadRng,
) -> (d: ChordDraw)
    requires
        octave_can_step(before),
        chord_fits(semi, chords@, voices as int),
    ensures
        chord_draw_ok(d, before, semi, chords@, voices as int),
{
    let step = random_between(rng, -1, 1);
    let after = apply_octave_step(before, step, 3, 5);
    assert(transpose_fits(Note { pitch: Pitch::C, octave: after }, semi));
    let note: Note = Note { pitch: Pitch::C, octave: after } + semi;

    let count = if chords.len() < voices {
        chords.len()
    } else {
        voices
    };
    let mut drawn: Vec<VoiceDraw> = Vec::new();
    let mut i: usize = 0;
    while i < count
        invariant
            3 <= after <= 5,
            note == chord_root(after, semi),
            chord_fits(semi, chords@, voices as int),
            count == voice_count(chords@, voices as int),
            count <= chords@.len(),
            i <= count,
            drawn@.len() == i,
            forall|j: int|
                0 <= j < i ==> voice_draw_ok(#[trigger] drawn@[j], transposed(note, chords@[j])),
        decreases count - i,
    {
        let byte = random_byte(rng);
        if byte < 64u8 {
            drawn.push(
                VoiceDraw {
                    byte,
                    length_index: 0,
                    bar: BarDraws { driving: true, counts: [0, 0], picks: Vec::new() },
                },
            );
        } else {
            assert(transpose_fits(chord_root(after, semi), chords@[i as int]));
            let tone = note + chords[i];
            let length_opts = [Lengths::Quarter, Lengths::Half, Lengths::Whole];
            let x: usize = random_between(rng, 0, (length_opts.len() - 1) as i64) as usize;
            let single = [tone];
            assert(single@ =~= seq![tone]);
            let bar = draw_bar(length_opts[x], &single, rng);
            drawn.push(VoiceDraw { byte, length_index: x, bar });
        }
        i = i + 1;
    }
    ChordDraw { step, voices: drawn }
}

/// Plays a chord: moves the chord octave by a random step within 3..=5, builds
/// the root `semi` semitones above C there, and gives each of up to `voices`
/// voices, one per interval, a random bar of quarter, half or whole notes on its
/// chord tone; a voice stays silent when its random byte is below 64.
#[verifier::spinoff_prover]
pub fn gen_chord(oct: &mut u8, semi: SemiTones, chords: &[SemiTones], voices: usize) -> (c:
    ChordBars)
    requires
        octave_can_step(*old(oct)),
        chord_fits(semi, chords@, voices as int),
    ensures
        3 <= *final(oct) <= 5,
        exists|d: ChordDraw|
            #[trigger] chord_draw_ok(d, *old(oct), semi, chords@, voices as int) && is_chord_from(
                c,
                *old(oct),
                semi,
                d,
            ) && *final(oct) == step_octave(*old(oct), d.step as int, 3, 5),
{
    let mut rng = thread_rng();
    let d = draw_chord(*oct, semi, chords, voices, &mut rng);
    gen_chord_with(oct, semi, chords, voices, &d)
}

/// The draws that decide sixteen bars of chords: the outer pattern, the three
/// inner patterns, and each bar's chord draws, in bar order.
pub struct ChordPartDraws {
    pub outer: FourPattern,
    pub inners: [FourPattern; 3],
    pub chords: Vec<ChordDraw>,
}

/// The chord octave after the first `n` chords of `draws`, starting from `start`.
pub open spec fn chord_octave_after(start: u8, draws: Seq<ChordDraw>, n: nat) -> u8
    decreases n,
{
    if n == 0 {
        start
    } else {
        step_octave(chord_octave_after(start, draws, (n - 1) as nat), draws[n - 1].step as int, 3, 5)
    }
}

/// The section (0, 1 or 2) that bar `bar` of a chord part plays.
pub open spec fn chord_section(d: ChordPartDraws, bar: int) -> int {
    section_of_bar(d.outer, d.inners@, bar)
}

/// Whether `d` can be drawn for sixteen bars of the chords `table` from
/// chord octave `start`.
pub open spec fn chord_part_draws_ok(
    d: ChordPartDraws,
    table: Seq<(SemiTones, Seq<SemiTones>)>,
    voices: int,
    start: u8,
) -> bool {
    &&& d.chords@.len() == 16
    &&& forall|i: int|
        0 <= i < 16 ==> chord_draw_ok(
            #[trigger] d.chords@[i],
            chord_octave_after(start, d.chords@, i as nat),
            table[chord_section(d, i)].0,
            table[chord_section(d, i)].1,
            voices,
        )
}

/// Whether `bars` are the sixteen chords that the draws `d` give for `table`
/// from chord octave `start`.
pub open spec fn is_chord_part_from(
    bars: Seq<ChordBars>,
    table: Seq<(SemiTones, Seq<SemiTones>)>,
    start: u8,
    d: ChordPartDraws,
) -> bool {
    &&& bars.len() == 16
    &&& forall|i: int|
        0 <= i < 16 ==> is_chord_from(
            #[trigger] bars[i],
            chord_octave_after(start, d.chords@, i as nat),
            table[chord_section(d, i)].0,
            d.chords@[i],
        )
}

/// Every chord octave after the first step lies within 3..=5.
proof fn chord_octaves_in_range(start: u8, draws: Seq<ChordDraw>, n: nat)
    requires
        n > 0,
    ensures
        3 <= chord_octave_after(start, draws, n) <= 5,
{
}

/// Plays sixteen bars of chords from their draws: bar by bar, the chord that
/// the outer and inner patterns pick among `chords`, each with its own draws.
#[verifier::spinoff_prover]
pub fn sixteen_bars_chords_with(
    chords: [(SemiTones, &[SemiTones]); 3],
    oct: &mut u8,
    voices: usize,
    draws: &ChordPartDraws,
) -> (bars: Vec<ChordBars>)
    requires
        octave_can_step(*old(oct)),
        forall|k: int| 0 <= k < 3 ==> chord_fits(#[trigger] chords@[k].0, chords@[k].1@, voices as int),
        chord_part_draws_ok(*draws, chord_table(chords), voices as int, *old(oct)),
    ensures
        *final(oct) == chord_octave_after(*old(oct), draws.chords@, 16),
        3 <= *final(oct) <= 5,
        is_chord_part_from(bars@, chord_table(chords), *old(oct), *draws),
{
    let ghost start = *oct;
    let ghost table = chord_table(chords);
    let ghost inners = draws.inners@;
    assert forall|k: int| 0 <= k < 3 implies #[trigger] table[k] == (chords@[k].0, chords@[k].1@) by {}
    proof {
        crate::arrangement::arrangement_sections_bounded(draws.outer, inners);
    }
    let mut out: Vec<ChordBars> = Vec::new();
    let outer_units = draws.outer.indexes();
    proof {
        crate::arrangement::pattern_units_bounded(draws.outer);
    }
    let mut outer_idx: usize = 0;
    while outer_idx < 4
        invariant
            outer_units@ == draws.outer.units(),
            forall|k: int| 0 <= k < 4 ==> #[trigger] draws.outer.units()[k] < 3,
            inners == draws.inners@,
            forall|k: int| 0 <= k < 3 ==> #[trigger] table[k] == (chords@[k].0, chords@[k].1@),
            forall|k: int| 0 <= k < 3 ==> chord_fits(#[trigger] chords@[k].0, chords@[k].1@, voices as int),
            chord_part_draws_ok(*draws, table, voices as int, start),
            outer_idx <= 4,
            out@.len() == 4 * outer_idx,
            *oct == chord_octave_after(start, draws.chords@, out@.len() as nat),
            out@.len() == 0 ==> octave_can_step(*oct),
            forall|i: int|
                0 <= i < out@.len() ==> is_chord_from(
                    #[trigger] out@[i],
                    chord_octave_after(start, draws.chords@, i as nat),
                    table[chord_section(*draws, i)].0,
                    draws.chords@[i],
                ),
        decreases 4 - outer_idx,
    {
        let inner_pattern = outer_units[outer_idx];
        let inpat = draws.inners[inner_pattern];
        let inner_units = inpat.indexes();
        proof {
            crate::arrangement::pattern_units_bounded(inpat);
        }
        let mut inner_idx: usize = 0;
        while inner_idx < 4
            invariant
                outer_units@ == draws.outer.units(),
                forall|k: int| 0 <= k < 4 ==> #[trigger] draws.outer.units()[k] < 3,
                inners == draws.inners@,
                forall|k: int| 0 <= k < 3 ==> #[trigger] table[k] == (chords@[k].0, chords@[k].1@),
                forall|k: int| 0 <= k < 3 ==> chord_fits(#[trigger] chords@[k].0, chords@[k].1@, voices as int),
                chord_part_draws_ok(*draws, table, voices as int, start),
                outer_idx < 4,
                inner_pattern == draws.outer.units()[outer_idx as int],
                inpat == inners[inner_pattern as int],
                inner_units@ == inpat.units(),
                forall|k: int| 0 <= k < 4 ==> #[trigger] inpat.units()[k] < 3,
                inner_idx <= 4,
                out@.len() == 4 * outer_idx + inner_idx,
                *oct == chord_octave_after(start, draws.chords@, out@.len() as nat),
                out@.len() == 0 ==> octave_can_step(*oct),
                forall|i: int|
                    0 <= i < out@.len() ==> is_chord_from(
                        #[trigger] out@[i],
                        chord_octave_after(start, draws.chords@, i as nat),
                        table[chord_section(*draws, i)].0,
                        draws.chords@[i],
                    ),
            decreases 4 - inner_idx,
        {
            let pat = inner_units[inner_idx];
            let idx = outer_idx * 4 + inner_idx;
            assert(chord_section(*draws, idx as int) == pat) by {
                assert((idx as int) / 4 == outer_idx);
                assert((idx as int) % 4 == inner_idx);
            }
            proof {
                if idx > 0 {
                    chord_octaves_in_range(start, draws.chords@, idx as nat);
                }
                assert(chord_draw_ok(
                    draws.chords@[idx as int],
                    chord_octave_after(start, draws.chords@, idx as nat),
                    table[pat as int].0,
                    table[pat as int].1,
                    voices as int,
                ));
            }
            let chord = gen_chord_with(oct, chords[pat].0, chords[pat].1, voices, &draws.chords[idx]);
            out.push(chord);
            inner_idx = inner_idx + 1;
        }
        outer_idx = outer_idx + 1;
    }
    proof {
        chord_octaves_in_range(start, draws.chords@, 16);
    }
    out
}

/// Whether each of `drawn` can be drawn for its bar of the sections that
/// `outer` and `inners` pick among `table`, the octave walking from `start`.
pub open spec fn chord_draws_prefix_ok(
    drawn: Seq<ChordDraw>,
    table: Seq<(SemiTones, Seq<SemiTones>)>,
    voices: int,
    start: u8,
    outer: FourPattern,
    inners: Seq<FourPattern>,
) -> bool {
    forall|i: int|
        0 <= i < drawn.len() ==> chord_draw_ok(
            #[trigger] drawn[i],
            chord_octave_after(start, drawn, i as nat),
            table[section_of_bar(outer, inners, i)].0,
            table[section_of_bar(outer, inners, i)].1,
            voices,
        )
}

/// Appending a chord draw made from the octave the earlier draws reached
/// keeps every draw valid for its bar.
proof fn chord_draws_prefix_push(
    drawn: Seq<ChordDraw>,
    d: ChordDraw,
    table: Seq<(SemiTones, Seq<SemiTones>)>,
    voices: int,
    start: u8,
    outer: FourPattern,
    inners: Seq<FourPattern>,
)
    requires
        chord_draws_prefix_ok(drawn, table, voices, start, outer, inners),
        chord_draw_ok(
            d,
            chord_octave_after(start, drawn, drawn.len() as nat),
            table[section_of_bar(outer, inners, drawn.len() as int)].0,
            table[section_of_bar(outer, inners, drawn.len() as int)].1,
            voices,
        ),
    ensures
        chord_draws_prefix_ok(drawn.push(d), table, voices, start, outer, inners),
        chord_octave_after(start, drawn.push(d), (drawn.len() + 1) as nat) == step_octave(
            chord_octave_after(start, drawn, drawn.len() as nat),
            d.step as int,
            3,
            5,
        ),
{
    let longer = drawn.push(d);
    assert forall|i: int| 0 <= i < longer.len() implies chord_draw_ok(
        #[trigger] longer[i],
        chord_octave_after(start, longer, i as nat),
        table[section_of_bar(outer, inners, i)].0,
        table[section_of_bar(outer, inners, i)].1,
        voices,
    ) by {
        lemma_chord_octave_prefix(start, drawn, longer, i as nat);
        if i < drawn.len() {
            assert(longer[i] == drawn[i]);
        }
    }
    lemma_chord_octave_prefix(start, drawn, longer, drawn.len() as nat);
}

/// Draws the chord draws of sixteen bars for the sections the patterns pick,
/// the chord octave walking on from `start`.
#[verifier::spinoff_prover]
fn draw_chord_bars(
    chords: [(SemiTones, &[SemiTones]); 3],
    start: u8,
    voices: usize,
    outer: FourPattern,
    inners: [FourPattern; 3],
    rng: &mut rand::rngs::ThreadRng,
) -> (d: ChordPartDraws)
    requires
        octave_can_step(start),
        forall|k: int| 0 <= k < 3 ==> chord_fits(#[trigger] chords@[k].0, chords@[k].1@, voices as int),
    ensures
        d.outer == outer,
        d.inners == inners,
        chord_part_draws_ok(d, chord_table(chords), voices as int, start),
{
    let ghost table = chord_table(chords);
    assert forall|k: int| 0 <= k < 3 implies #[trigger] table[k] == (chords@[k].0, chords@[k].1@) by {}
    let mut drawn: Vec<ChordDraw> = Vec::new();
    let mut oct = start;
    let outer_units = outer.indexes();
    proof {
        crate::arrangement::pattern_units_bounded(outer);
        crate::arrangement::arrangement_sections_bounded(outer, inners@);
    }
    let mut bar: usize = 0;
    while bar < 16
        invariant
            outer_units@ == outer.units(),
            forall|k: int| 0 <= k < 4 ==> #[trigger] outer.units()[k] < 3,
            forall|i: int| 0 <= i < 16 ==> 0 <= #[trigger] section_of_bar(outer, inners@, i) < 3,
            forall|k: int| 0 <= k < 3 ==> #[trigger] table[k] == (chords@[k].0, chords@[k].1@),
            forall|k: int| 0 <= k < 3 ==> chord_fits(#[trigger] chords@[k].0, chords@[k].1@, voices as int),
            bar <= 16,
            drawn@.len() == bar,
            oct == chord_octave_after(start, drawn@, bar as nat),
            octave_can_step(oct),
            chord_draws_prefix_ok(drawn@, table, voices as int, start, outer, inners@),
        decreases 16 - bar,
    {
        let inpat = inners[outer_units[bar / 4]];
        let inner_units = inpat.indexes();
        proof {
            crate::arrangement::pattern_units_bounded(inpat);
        }
        let pat = inner_units[bar % 4];
        assert(section_of_bar(outer, inners@, bar as int) == pat);
        let d = draw_chord(oct, chords[pat].0, chords[pat].1, voices, rng);
        proof {
            chord_draws_prefix_push(drawn@, d, table, voices as int, start, outer, inners@);
        }
        oct = apply_octave_step(oct, d.step, 3, 5);
        drawn.push(d);
        bar = bar + 1;
    }
    ChordPartDraws { outer, inners, chords: drawn }
}

/// The chord octave after `n` draws depends only on those draws.
proof fn lemma_chord_octave_prefix(start: u8, a: Seq<ChordDraw>, b: Seq<ChordDraw>, n: nat)
    requires
        n <= a.len(),
        n <= b.len(),
        forall|i: int| 0 <= i < n ==> a[i] == b[i],
    ensures
        chord_octave_after(start, a, n) == chord_octave_after(start, b, n),
    decreases n,
{
    if n > 0 {
        lemma_chord_octave_prefix(start, a, b, (n - 1) as nat);
    }
}

/// Draws an outer and three inner patterns.
fn draw_patterns(rng: &mut rand::rngs::ThreadRng) -> (r: (FourPattern, [FourPattern; 3])) {
    assert(PATTERNS@.len() == 5);
    let outer = *pick_one(&PATTERNS, rng).unwrap();
    let inners = [
        *pick_one(&PATTERNS, rng).unwrap(),
        *pick_one(&PATTERNS, rng).unwrap(),
        *pick_one(&PATTERNS, rng).unwrap(),
    ];
    (outer, inners)
}

/// Draws everything sixteen bars of chords need: the patterns, then each
/// bar's chord draws.
pub(crate) fn draw_chord_part(
    chords: [(SemiTones, &[SemiTones]); 3],
    start: u8,
    voices: usize,
    rng: &mut rand::rngs::ThreadRng,
) -> (d: ChordPartDraws)
    requires
        octave_can_step(start),
        forall|k: int| 0 <= k < 3 ==> chord_fits(#[trigger] chords@[k].0, chords@[k].1@, voices as int),
    ensures
        chord_part_draws_ok(d, chord_table(chords), voices as int, start),
{
    let (outer, inners) = draw_patterns(rng);
    draw_chord_bars(chords, start, voices, outer, inners, rng)
}

/// Plays sixteen bars of chords: draws an outer pattern and three inner
/// patterns, and for each bar plays the chord that the patterns pick among
/// `chords`, as `gen_chord` plays it. The chord octave walks on from `oct`
/// from bar to bar.
#[verifier::spinoff_prover]
pub fn sixteen_bars_chords(chords: [(SemiTones, &[SemiTones]); 3], oct: &mut u8, voices: usize) -> (bars:
    Vec<ChordBars>)
    requires
        octave_can_step(*old(oct)),
        forall|k: int| 0 <= k < 3 ==> chord_fits(#[trigger] chords@[k].0, chords@[k].1@, voices as int),
    ensures
        bars@.len() == 16,
        3 <= *final(oct) <= 5,
        exists|d: ChordPartDraws|
            #[trigger] chord_part_draws_ok(d, chord_table(chords), voices as int, *old(oct))
                && is_chord_part_from(bars@, chord_table(chords), *old(oct), d) && *final(oct)
                == chord_octave_after(*old(oct), d.chords@, 16),
{
    let mut rng = thread_rng();
    let d = draw_chord_part(chords, *oct, voices, &mut rng);
    sixteen_bars_chords_with(chords, oct, voices, &d)
}


/// The draws that decide a motif: for each entry, the octave step and the
/// interval drawn from the scale.
pub struct MotifDraw {
    pub steps: Vec<i64>,
    pub semis: Vec<SemiTones>,
}

/// The melody octave after the first `n` steps of a motif from `start`.
pub open spec fn motif_octave(start: u8, d: MotifDraw, n: nat) -> u8
    decreases n,
{
    if n == 0 {
        start
    } else {
        step_octave(motif_octave(start, d, (n - 1) as nat), d.steps@[n - 1] as int, 2, 6)
    }
}

/// The motif that the draws `d` give from melody octave `start`: each entry's
/// octave (one step from the last) and its interval.
pub open spec fn motif_of(start: u8, d: MotifDraw) -> Seq<(u8, SemiTones)> {
    Seq::new(d.steps@.len(), |k: int| (motif_octave(start, d, (k + 1) as nat), d.semis@[k]))
}

/// The melody octave a motif leaves behind.
pub open spec fn motif_end(start: u8, d: MotifDraw) -> u8 {
    motif_octave(start, d, d.steps@.len())
}

/// Whether `d` has the shape of a motif's draws: one to four entries, each a
/// step of -1, 0 or +1 with an interval.
pub open spec fn motif_draw_shape(d: MotifDraw) -> bool {
    &&& 1 <= d.steps@.len() <= 4
    &&& d.semis@.len() == d.steps@.len()
    &&& forall|k: int| 0 <= k < d.steps@.len() ==> -1 <= #[trigger] d.steps@[k] <= 1
}

/// Whether `d` can be drawn for a motif on `scale`.
pub open spec fn motif_draw_ok(d: MotifDraw, scale: Seq<SemiTones>) -> bool {
    &&& motif_draw_shape(d)
    &&& forall|k: int| 0 <= k < d.semis@.len() ==> scale.contains(#[trigger] d.semis@[k])
}

/// Every octave of a motif after its first step lies within 2..=6.
proof fn motif_octaves_in_range(start: u8, d: MotifDraw, n: nat)
    requires
        n > 0,
    ensures
        2 <= motif_octave(start, d, n) <= 6,
{
}

/// Builds a motif from its draws, walking the melody octave on from `oct`.
fn motif_with(oct: &mut u8, d: &MotifDraw) -> (motif: Vec<(u8, SemiTones)>)
    requires
        octave_can_step(*old(oct)),
        motif_draw_shape(*d),
    ensures
        motif@ == motif_of(*old(oct), *d),
        *final(oct) == motif_end(*old(oct), *d),
        2 <= *final(oct) <= 6,
{
    let ghost start = *oct;
    let mut motif: Vec<(u8, SemiTones)> = Vec::new();
    let mut k: usize = 0;
    while k < d.steps.len()
        invariant
            motif_draw_shape(*d),
            k <= d.steps@.len(),
            *oct == motif_octave(start, *d, k as nat),
            k == 0 ==> octave_can_step(*oct),
            motif@ == motif_of(start, *d).take(k as int),
        decreases d.steps@.len() - k,
    {
        proof {
            if k > 0 {
                motif_octaves_in_range(start, *d, k as nat);
            }
        }
        *oct = apply_octave_step(*oct, d.steps[k], 2, 6);
        motif.push((*oct, d.semis[k]));
        assert(motif@ =~= motif_of(start, *d).take(k + 1));
        k = k + 1;
    }
    assert(motif_of(start, *d).take(d.steps@.len() as int) =~= motif_of(start, *d));
    motif
}

/// Draws a motif: how many entries (one to four), then for each its octave
/// step and an interval from `scale`.
fn draw_motif(scale: &[SemiTones], rng: &mut rand::rngs::ThreadRng) -> (d: MotifDraw)
    requires
        scale@.len() > 0,
    ensures
        motif_draw_ok(d, scale@),
{
    let count = random_between(rng, 1, 4);
    let mut steps: Vec<i64> = Vec::new();
    let mut semis: Vec<SemiTones> = Vec::new();
    let mut k: i64 = 0;
    while k < count
        invariant
            1 <= count <= 4,
            0 <= k <= count,
            scale@.len() > 0,
            steps@.len() == k,
            semis@.len() == k,
            forall|j: int| 0 <= j < k ==> -1 <= #[trigger] steps@[j] <= 1,
            forall|j: int| 0 <= j < k ==> scale@.contains(#[trigger] semis@[j]),
        decreases count - k,
    {
        let step = random_between(rng, -1, 1);
        let semi = *pick_one(scale, rng).unwrap();
        steps.push(step);
        semis.push(semi);
        k = k + 1;
    }
    MotifDraw { steps, semis }
}

/// The draws that decide sixteen bars of melody: the outer and inner
/// patterns, the three motifs, the note value of each motif, and each bar's
/// draws, in bar order.
pub struct MelodyDraws {
    pub outer: FourPattern,
    pub inners: [FourPattern; 3],
    pub motifs: Vec<MotifDraw>,
    pub lengths: [Lengths; 3],
    pub bars: Vec<BarDraws>,
}

/// The melody octave from which motif `k` (0, 1 or 2) starts, the melody
/// having started from `start`.
pub open spec fn motif_start(d: MelodyDraws, start: u8, k: int) -> u8
    decreases k,
{
    if k <= 0 {
        start
    } else {
        motif_end(motif_start(d, start, k - 1), d.motifs@[k - 1])
    }
}

/// The melody octave the three motifs leave behind.
pub open spec fn melody_end(d: MelodyDraws, start: u8) -> u8 {
    motif_start(d, start, 3)
}

/// The section (0, 1 or 2) that bar `bar` of a melody plays.
pub open spec fn melody_section(d: MelodyDraws, bar: int) -> int {
    section_of_bar(d.outer, d.inners@, bar)
}

/// Whether `d` has the shape of a melody's draws: three motifs of motif
/// shape, and sixteen bar draws of the shape their section's note value takes.
pub open spec fn melody_draws_shape(d: MelodyDraws) -> bool {
    &&& d.motifs@.len() == 3
    &&& forall|k: int| 0 <= k < 3 ==> motif_draw_shape(#[trigger] d.motifs@[k])
    &&& d.bars@.len() == 16
    &&& forall|i: int|
        0 <= i < 16 ==> bar_draws_shape(d.lengths[melody_section(d, i)], #[trigger] d.bars@[i])
}

/// Whether `d` can be drawn for sixteen bars of melody in `scale` over the
/// chord pitches `pitch`, from melody octave `start`: motifs on the scale,
/// melody note values, and each bar drawn on its section's motif over its
/// chord pitch.
pub open spec fn melody_draws_ok(
    d: MelodyDraws,
    scale: Seq<SemiTones>,
    pitch: Seq<Pitch>,
    start: u8,
) -> bool {
    &&& melody_draws_shape(d)
    &&& forall|k: int| 0 <= k < 3 ==> motif_draw_ok(#[trigger] d.motifs@[k], scale)
    &&& forall|k: int| 0 <= k < 3 ==> is_melody_length(#[trigger] d.lengths[k])
    &&& forall|i: int|
        0 <= i < 16 ==> bar_draws_ok(
            d.lengths[melody_section(d, i)],
            #[trigger] d.bars@[i],
            motif_notes(
                pitch[i],
                motif_of(
                    motif_start(d, start, melody_section(d, i)),
                    d.motifs@[melody_section(d, i)],
                ),
            ),
        )
}

/// Whether `output` is the sixteen bars of melody that the draws `d` give.
pub open spec fn is_melody_from(output: Seq<Bar>, d: MelodyDraws) -> bool {
    &&& output.len() == 16
    &&& forall|i: int|
        0 <= i < 16 ==> (#[trigger] output[i]).notes@ == bar_slots(
            d.lengths[melody_section(d, i)],
            d.bars@[i],
        )
}

/// Plays sixteen bars of melody from their draws: builds the three motifs
/// (walking the melody octave on from `oct`), then each bar as its draws decide.
#[verifier::spinoff_prover]
pub fn sixteen_bars_melody_with(oct: &mut u8, draws: &MelodyDraws) -> (output: Vec<Bar>)
    requires
        octave_can_step(*old(oct)),
        melody_draws_shape(*draws),
    ensures
        *final(oct) == melody_end(*draws, *old(oct)),
        2 <= *final(oct) <= 6,
        is_melody_from(output@, *draws),
{
    let ghost start = *oct;
    let m0 = motif_with(oct, &draws.motifs[0]);
    let m1 = motif_with(oct, &draws.motifs[1]);
    let m2 = motif_with(oct, &draws.motifs[2]);
    proof {
        reveal_with_fuel(motif_start, 4);
    }
    let mut output: Vec<Bar> = Vec::new();
    let outer_units = draws.outer.indexes();
    proof {
        crate::arrangement::pattern_units_bounded(draws.outer);
    }
    let mut outer_idx: usize = 0;
    while outer_idx < 4
        invariant
            outer_units@ == draws.outer.units(),
            forall|k: int| 0 <= k < 4 ==> #[trigger] draws.outer.units()[k] < 3,
            melody_draws_shape(*draws),
            outer_idx <= 4,
            output@.len() == 4 * outer_idx,
            forall|i: int|
                0 <= i < output@.len() ==> (#[trigger] output@[i]).notes@ == bar_slots(
                    draws.lengths[melody_section(*draws, i)],
                    draws.bars@[i],
                ),
        decreases 4 - outer_idx,
    {
        let inpat = draws.inners[outer_units[outer_idx]];
        let inner_units = inpat.indexes();
        proof {
            crate::arrangement::pattern_units_bounded(inpat);
        }
        let mut inner_idx: usize = 0;
        while inner_idx < 4
            invariant
                outer_units@ == draws.outer.units(),
                forall|k: int| 0 <= k < 4 ==> #[trigger] draws.outer.units()[k] < 3,
                melody_draws_shape(*draws),
                outer_idx < 4,
                inpat == draws.inners@[draws.outer.units()[outer_idx as int] as int],
                inner_units@ == inpat.units(),
                forall|k: int| 0 <= k < 4 ==> #[trigger] inpat.units()[k] < 3,
                inner_idx <= 4,
                output@.len() == 4 * outer_idx + inner_idx,
                forall|i: int|
                    0 <= i < output@.len() ==> (#[trigger] output@[i]).notes@ == bar_slots(
                        draws.lengths[melody_section(*draws, i)],
                        draws.bars@[i],
                    ),
            decreases 4 - inner_idx,
        {
            let pat = inner_units[inner_idx];
            let idx = outer_idx * 4 + inner_idx;
            assert(melody_section(*draws, idx as int) == pat) by {
                assert((idx as int) / 4 == outer_idx);
                assert((idx as int) % 4 == inner_idx);
            }
            let bar = bar_with(draws.lengths[pat], &draws.bars[idx]);
            output.push(bar);
            inner_idx = inner_idx + 1;
        }
        outer_idx = outer_idx + 1;
    }
    output
}

/// The notes a motif sounds over `pitch`, computed.
fn motif_tones(pitch: Pitch, motif: &Vec<(u8, SemiTones)>, scale: &[SemiTones]) -> (notes: Vec<Note>)
    requires
        forall|k: int| 0 <= k < motif@.len() ==> 2 <= (#[trigger] motif@[k]).0 <= 6 && scale@.contains(motif@[k].1),
        forall|oct: u8, s: SemiTones| 2 <= oct <= 6 && scale@.contains(s) ==> #[trigger] transpose_fits(Note { pitch, octave: oct }, s),
    ensures
        notes@ == motif_notes(pitch, motif@),
        notes@.len() == motif@.len(),
        forall|k: int|
            0 <= k < motif@.len() ==> #[trigger] notes@[k] == transposed(
                Note { pitch, octave: motif@[k].0 },
                motif@[k].1,
            ),
{
    let mut notes: Vec<Note> = Vec::new();
    let mut j: usize = 0;
    while j < motif.len()
        invariant
            forall|k: int| 0 <= k < motif@.len() ==> 2 <= (#[trigger] motif@[k]).0 <= 6 && scale@.contains(motif@[k].1),
            forall|oct: u8, s: SemiTones| 2 <= oct <= 6 && scale@.contains(s) ==> #[trigger] transpose_fits(Note { pitch, octave: oct }, s),
            j <= motif@.len(),
            notes@ == motif_notes(pitch, motif@.take(j as int)),
        decreases motif@.len() - j,
    {
        let (o, semi) = motif[j];
        assert(transpose_fits(Note { pitch, octave: o }, semi));
        let note = Note { pitch, octave: o } + semi;
        notes.push(note);
        assert(motif@.take(j + 1) =~= motif@.take(j as int).push(motif@[j as int]));
        assert(notes@ =~= motif_notes(pitch, motif@.take(j + 1)));
        j = j + 1;
    }
    assert(motif@.take(motif@.len() as int) =~= motif@);
    notes
}

/// Each note of a motif over `pitch` is `pitch`, in the entry's octave,
/// raised by the entry's interval: exactly that many semitones up the
/// chromatic scale wherever the sum does not overflow.
pub proof fn motif_notes_rise_by_their_intervals(pitch: Pitch, motif: Seq<(u8, SemiTones)>)
    ensures
        motif_notes(pitch, motif).len() == motif.len(),
        forall|k: int|
            0 <= k < motif.len() ==> #[trigger] motif_notes(pitch, motif)[k] == transposed(
                Note { pitch, octave: motif[k].0 },
                motif[k].1,
            ),
        forall|k: int|
            0 <= k < motif.len() && pitch.index() + motif[k].1.0 <= u32::MAX && 12 * motif[k].0
                + pitch.index() + motif[k].1.0 < 256 * 12 ==> semitone_number(
                #[trigger] motif_notes(pitch, motif)[k],
            ) == 12 * motif[k].0 + pitch.index() + motif[k].1.0,
{
    assert forall|k: int|
        0 <= k < motif.len() && pitch.index() + motif[k].1.0 <= u32::MAX && 12 * motif[k].0
            + pitch.index() + motif[k].1.0 < 256 * 12 implies semitone_number(
        #[trigger] motif_notes(pitch, motif)[k],
    ) == 12 * motif[k].0 + pitch.index() + motif[k].1.0 by {
        transpose_moves_by_semitones(Note { pitch, octave: motif[k].0 }, motif[k].1);
    }
}

/// Every note of a melody made from draws on `scale` over the chord pitches
/// `pitch` is the chord pitch of its bar, in an octave from 2 to 6, raised by
/// an interval of the scale.
pub proof fn melody_sounds_scale_over_chord_pitches(
    output: Seq<Bar>,
    d: MelodyDraws,
    scale: Seq<SemiTones>,
    pitch: Seq<Pitch>,
    start: u8,
)
    requires
        melody_draws_ok(d, scale, pitch, start),
        is_melody_from(output, d),
    ensures
        forall|i: int, j: int|
            0 <= i < 16 && 0 <= j < output[i].notes@.len() && (#[trigger] output[i].notes@[j]).note is Some
                ==> exists|oct: u8, s: SemiTones|
                2 <= oct <= 6 && scale.contains(s) && output[i].notes@[j].note == Some(
                    #[trigger] transposed(Note { pitch: pitch[i], octave: oct }, s),
                ),
{
    crate::arrangement::arrangement_sections_bounded(d.outer, d.inners@);
    assert forall|i: int, j: int|
        0 <= i < 16 && 0 <= j < output[i].notes@.len() && (#[trigger] output[i].notes@[j]).note is Some
            implies exists|oct: u8, s: SemiTones|
        2 <= oct <= 6 && scale.contains(s) && output[i].notes@[j].note == Some(
            #[trigger] transposed(Note { pitch: pitch[i], octave: oct }, s),
        ) by {
        let sec = melody_section(d, i);
        assert(0 <= sec < 3);
        let length = d.lengths[sec];
        let bd = d.bars@[i];
        let m = d.motifs@[sec];
        let ms = motif_start(d, start, sec);
        let motif = motif_of(ms, m);
        let notes = motif_notes(pitch[i], motif);
        assert(output[i].notes@ == bar_slots(length, bd));
        assert(bar_draws_ok(length, bd, notes));
        let n = output[i].notes@[j].note->0;
        bar_sounds_only_its_picks(length, bd, j);
        let k = choose|k: int| 0 <= k < bd.picks@.len() && bd.picks@[k] == n;
        assert(picks_from(bd.picks@, notes));
        assert(notes.contains(bd.picks@[k]));
        let k2 = choose|k2: int| 0 <= k2 < notes.len() && notes[k2] == n;
        assert(motif_draw_ok(m, scale));
        motif_entries_in_range(ms, m, scale);
        motif_notes_rise_by_their_intervals(pitch[i], motif);
        assert(notes[k2] == transposed(Note { pitch: pitch[i], octave: motif[k2].0 }, motif[k2].1));
        assert(2 <= motif[k2].0 <= 6 && scale.contains(motif[k2].1));
    }
}

/// A motif built from draws made on `scale` has octaves within 2..=6 and
/// intervals from `scale`.
proof fn motif_entries_in_range(start: u8, d: MotifDraw, scale: Seq<SemiTones>)
    requires
        motif_draw_ok(d, scale),
    ensures
        forall|k: int|
            0 <= k < motif_of(start, d).len() ==> 2 <= (#[trigger] motif_of(start, d)[k]).0 <= 6
                && scale.contains(motif_of(start, d)[k].1),
        motif_of(start, d).len() >= 1,
{
    assert forall|k: int| 0 <= k < motif_of(start, d).len() implies 2 <= (#[trigger] motif_of(
        start,
        d,
    )[k]).0 <= 6 && scale.contains(motif_of(start, d)[k].1) by {
        motif_octaves_in_range(start, d, (k + 1) as nat);
    }
}

/// Draws everything sixteen bars of melody need, in the order they are
/// played for: the patterns, the three motifs, their note values, and then for
/// each bar its draws on its motif over its chord pitch.
#[verifier::spinoff_prover]
pub(crate) fn draw_melody(
    start: u8,
    scale: &[SemiTones],
    pitch: &[Pitch],
    rng: &mut rand::rngs::ThreadRng,
) -> (d: MelodyDraws)
    requires
        octave_can_step(start),
        scale@.len() > 0,
        pitch@.len() >= 16,
        melody_fits(scale@, pitch@),
    ensures
        melody_draws_ok(d, scale@, pitch@, start),
{
    let (outer, inners) = draw_patterns(rng);
    let d0 = draw_motif(scale, rng);
    let d1 = draw_motif(scale, rng);
    let d2 = draw_motif(scale, rng);

    let length_opts = [
        Lengths::Eighth,
        Lengths::EighthTriplets,
        Lengths::Quarter,
        Lengths::QuarterTriplets,
        Lengths::HalfTriplets,
        Lengths::Half,
    ];
    assert forall|i: int| 0 <= i < 6 implies is_melody_length(#[trigger] length_opts@[i]) by {}
    let lengths = [
        *pick_one(&length_opts, rng).unwrap(),
        *pick_one(&length_opts, rng).unwrap(),
        *pick_one(&length_opts, rng).unwrap(),
    ];

    let mut oct = start;
    let m0 = motif_with(&mut oct, &d0);
    let m1 = motif_with(&mut oct, &d1);
    let m2 = motif_with(&mut oct, &d2);
    proof {
        motif_entries_in_range(start, d0, scale@);
        motif_entries_in_range(motif_end(start, d0), d1, scale@);
        motif_entries_in_range(motif_end(motif_end(start, d0), d1), d2, scale@);
    }
    let motifs = [m0, m1, m2];
    let ghost motif_draws = seq![d0, d1, d2];

    let mut bars: Vec<BarDraws> = Vec::new();
    let outer_units = outer.indexes();
    proof {
        crate::arrangement::pattern_units_bounded(outer);
    }
    let mut outer_idx: usize = 0;
    while outer_idx < 4
        invariant
            outer_units@ == outer.units(),
            forall|k: int| 0 <= k < 4 ==> #[trigger] outer.units()[k] < 3,
            pitch@.len() >= 16,
            melody_fits(scale@, pitch@),
            forall|k: int, j: int|
                0 <= k < 3 && 0 <= j < motifs[k]@.len() ==> 2 <= (#[trigger] motifs[k]@[j]).0 <= 6
                    && scale@.contains(motifs[k]@[j].1),
            forall|k: int| 0 <= k < 3 ==> #[trigger] motifs[k]@.len() >= 1,
            outer_idx <= 4,
            bars@.len() == 4 * outer_idx,
            forall|i: int|
                0 <= i < bars@.len() ==> bar_draws_ok(
                    lengths[section_of_bar(outer, inners@, i)],
                    #[trigger] bars@[i],
                    motif_notes(pitch@[i], motifs[section_of_bar(outer, inners@, i)]@),
                ),
        decreases 4 - outer_idx,
    {
        let inpat = inners[outer_units[outer_idx]];
        let inner_units = inpat.indexes();
        proof {
            crate::arrangement::pattern_units_bounded(inpat);
        }
        let mut inner_idx: usize = 0;
        while inner_idx < 4
            invariant
                outer_units@ == outer.units(),
                forall|k: int| 0 <= k < 4 ==> #[trigger] outer.units()[k] < 3,
                pitch@.len() >= 16,
                melody_fits(scale@, pitch@),
                forall|k: int, j: int|
                    0 <= k < 3 && 0 <= j < motifs[k]@.len() ==> 2 <= (#[trigger] motifs[k]@[j]).0 <= 6
                        && scale@.contains(motifs[k]@[j].1),
                forall|k: int| 0 <= k < 3 ==> #[trigger] motifs[k]@.len() >= 1,
                outer_idx < 4,
                inpat == inners@[outer.units()[outer_idx as int] as int],
                inner_units@ == inpat.units(),
                forall|k: int| 0 <= k < 4 ==> #[trigger] inpat.units()[k] < 3,
                inner_idx <= 4,
                bars@.len() == 4 * outer_idx + inner_idx,
                forall|i: int|
                    0 <= i < bars@.len() ==> bar_draws_ok(
                        lengths[section_of_bar(outer, inners@, i)],
                        #[trigger] bars@[i],
                        motif_notes(pitch@[i], motifs[section_of_bar(outer, inners@, i)]@),
                    ),
            decreases 4 - inner_idx,
        {
            let pat = inner_units[inner_idx];
            let idx = outer_idx * 4 + inner_idx;
            assert(section_of_bar(outer, inners@, idx as int) == pat) by {
                assert((idx as int) / 4 == outer_idx);
                assert((idx as int) % 4 == inner_idx);
            }
            proof {
                assert forall|o: u8, s: SemiTones| 2 <= o <= 6 && scale@.contains(s) implies #[trigger] transpose_fits(
                    Note { pitch: pitch@[idx as int], octave: o },
                    s,
                ) by {}
            }
            let notes = motif_tones(pitch[idx], &motifs[pat], scale);
            assert(motifs[pat as int]@.len() >= 1);
            let bar = draw_bar(lengths[pat], &notes, rng);
            bars.push(bar);
            inner_idx = inner_idx + 1;
        }
        outer_idx = outer_idx + 1;
    }
    let d = MelodyDraws { outer, inners, motifs: vec![d0, d1, d2], lengths, bars };
    proof {
        reveal_with_fuel(motif_start, 4);
        assert(d.motifs@ == motif_draws);
        assert(motif_start(d, start, 0) == start);
        assert(motif_start(d, start, 1) == motif_end(start, d0));
        assert(motif_start(d, start, 2) == motif_end(motif_end(start, d0), d1));
        assert forall|k: int| 0 <= k < 3 implies #[trigger] motifs[k]@ == motif_of(motif_start(d, start, k), d.motifs@[k]) by {}
        assert forall|k: int| 0 <= k < 3 implies motif_draw_ok(#[trigger] d.motifs@[k], scale@) by {}
        assert forall|k: int| 0 <= k < 3 implies is_melody_length(#[trigger] d.lengths[k]) by {}
        crate::arrangement::arrangement_sections_bounded(outer, inners@);
        assert forall|i: int| 0 <= i < 16 implies bar_draws_shape(d.lengths[melody_section(d, i)], #[trigger] d.bars@[i]) by {
            assert(bar_draws_ok(lengths[section_of_bar(outer, inners@, i)], bars@[i], motif_notes(pitch@[i], motifs[section_of_bar(outer, inners@, i)]@)));
        }
        assert forall|i: int| 0 <= i < 16 implies bar_draws_ok(
            d.lengths[melody_section(d, i)],
            #[trigger] d.bars@[i],
            motif_notes(
                pitch@[i],
                motif_of(
                    motif_start(d, start, melody_section(d, i)),
                    d.motifs@[melody_section(d, i)],
                ),
            ),
        ) by {
            let sec = section_of_bar(outer, inners@, i);
            assert(0 <= sec < 3);
            assert(motifs[sec]@ == motif_of(motif_start(d, start, sec), d.motifs@[sec]));
            assert(bar_draws_ok(lengths[sec], bars@[i], motif_notes(pitch@[i], motifs[sec]@)));
        }
    }
    d
}

/// Plays sixteen bars of melody over the chord pitches `pitch`: draws an outer
/// and three inner patterns, three motifs from `scale` (the melody octave
/// walking on from `oct`), and a note value for each motif; each bar then sounds
/// its section's motif over its chord pitch as a driving or a ones-and-threes bar.
#[verifier::spinoff_prover]
pub fn sixteen_bars_melody(oct: &mut u8, scale: &[SemiTones], pitch: &[Pitch]) -> (output: Vec<Bar>)
    requires
        octave_can_step(*old(oct)),
        scale@.len() > 0,
        pitch@.len() >= 16,
        melody_fits(scale@, pitch@),
    ensures
        output@.len() == 16,
        2 <= *final(oct) <= 6,
        exists|d: MelodyDraws|
            #[trigger] melody_draws_ok(d, scale@, pitch@, *old(oct)) && is_melody_from(output@, d)
                && *final(oct) == melody_end(d, *old(oct)),
{
    let mut rng = thread_rng();
    let d = draw_melody(*oct, scale, pitch, &mut rng);
    sixteen_bars_melody_with(oct, &d)
}

} // verus!
