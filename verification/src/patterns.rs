use vstd::prelude::*;

use crate::bar::{
    fract_ticks, slots_ticks, slots_ticks_concat, slots_ticks_uniform, ticks_per_whole, Bar,
    BarMember, BeatFract, Lengths,
};
use crate::random::{pick_one, random_between, random_bool, thread_rng};
use crate::scale::Note;

verus! {

/// A slot that sounds one of `notes` for `fract`.
pub open spec fn sounds_one_of(m: BarMember, fract: BeatFract, notes: Seq<Note>) -> bool {
    &&& m.fract == fract
    &&& m.note matches Some(n) && notes.contains(n)
}

/// A rest that lasts `fract`.
pub open spec fn rest_of(fract: BeatFract) -> BarMember {
    BarMember { fract, note: None }
}

/// The bars that `driving_bar` builds: one whole note filled with notes of
/// `length`, each of them one of `notes`.
pub open spec fn is_driving_bar(slots: Seq<BarMember>, length: Lengths, notes: Seq<Note>) -> bool {
    &&& slots.len() == length.per_whole()
    &&& forall|i: int|
        0 <= i < slots.len() ==> sounds_one_of(#[trigger] slots[i], length.fraction(), notes)
}

/// For the note values whose halves hold a random number of sounding notes:
/// the largest number a half can hold. `None` for the values whose halves are fixed.
pub open spec fn drawn_notes_bound(length: Lengths) -> Option<int> {
    match length {
        Lengths::Sixteenth => Some(8),
        Lengths::SixteenthTriplets => Some(12),
        Lengths::Eighth => Some(4),
        Lengths::EighthTriplets => Some(6),
        Lengths::Quarter => Some(2),
        Lengths::QuarterTriplets => Some(3),
        Lengths::Half => Some(1),
        _ => None,
    }
}

/// The rests that follow `on` sounding notes in a half whose count was drawn.
pub open spec fn drawn_rests(length: Lengths, on: int) -> int {
    match length {
        Lengths::Sixteenth => 8 - on,
        Lengths::SixteenthTriplets => 12 - on,
        Lengths::Eighth => 4 - on,
        Lengths::EighthTriplets => 6 - on,
        Lengths::Quarter => 2 - on,
        Lengths::QuarterTriplets => if on <= 1 {
            1 - on
        } else {
            0
        },
        Lengths::Half => 1 - on,
        _ => 0,
    }
}

/// Whether half `half` (0 or 1) of a ones-and-threes bar at `length` can hold
/// `on` sounding notes.
pub open spec fn half_notes_possible(length: Lengths, half: int, on: int) -> bool {
    match drawn_notes_bound(length) {
        Some(b) => 0 <= on <= b,
        None => if half == 0 {
            on == (if length is HalfTriplets {
                3int
            } else {
                1int
            })
        } else {
            on == 0
        },
    }
}

/// The number of rests after the sounding notes of a half.
pub open spec fn half_rests(length: Lengths, half: int, on: int) -> int {
    if drawn_notes_bound(length) is Some {
        drawn_rests(length, on)
    } else if half == 0 {
        0
    } else {
        1
    }
}

/// The duration of the rests of a half.
pub open spec fn half_rest_fract(length: Lengths, half: int) -> BeatFract {
    if drawn_notes_bound(length) is None && half != 0 {
        BeatFract { num: 1, den: 2 }
    } else {
        length.fraction()
    }
}

/// One half of a ones-and-threes bar: `on` notes of `length`, each one of
/// `notes`, then the rests of that half.
pub open spec fn is_ones_threes_half(
    slots: Seq<BarMember>,
    length: Lengths,
    half: int,
    on: int,
    notes: Seq<Note>,
) -> bool {
    &&& half_notes_possible(length, half, on)
    &&& slots.len() == on + half_rests(length, half, on)
    &&& forall|i: int| 0 <= i < on ==> sounds_one_of(#[trigger] slots[i], length.fraction(), notes)
    &&& forall|i: int|
        on <= i < slots.len() ==> #[trigger] slots[i] == rest_of(half_rest_fract(length, half))
}

/// The bars that `ones_threes` builds: a first half and a second half.
pub open spec fn is_ones_threes_bar(slots: Seq<BarMember>, length: Lengths, notes: Seq<Note>) -> bool {
    exists|split: int, on0: int, on1: int|
        #![trigger is_ones_threes_half(slots.subrange(0, split), length, 0, on0, notes), is_ones_threes_half(slots.subrange(split, slots.len() as int), length, 1, on1, notes)]
        0 <= split <= slots.len() && is_ones_threes_half(slots.subrange(0, split), length, 0, on0, notes)
            && is_ones_threes_half(slots.subrange(split, slots.len() as int), length, 1, on1, notes)
}

/// A slot that sounds `note` for `fract`.
pub open spec fn sounding(fract: BeatFract, note: Note) -> BarMember {
    BarMember { fract, note: Some(note) }
}

/// The slots of a driving bar of `length` whose notes were drawn as `picks`.
pub open spec fn driving_slots(length: Lengths, picks: Seq<Note>) -> Seq<BarMember> {
    picks.map_values(|n: Note| sounding(length.fraction(), n))
}

/// `count` rests of `fract` (none when `count` is not positive).
pub open spec fn rests(count: int, fract: BeatFract) -> Seq<BarMember> {
    Seq::new(
        if count > 0 {
            count as nat
        } else {
            0
        },
        |i: int| rest_of(fract),
    )
}

/// One half of a ones-and-threes bar whose sounding notes were drawn as `picks`.
pub open spec fn half_slots(length: Lengths, half: int, picks: Seq<Note>) -> Seq<BarMember> {
    picks.map_values(|n: Note| sounding(length.fraction(), n)) + rests(
        half_rests(length, half, picks.len() as int),
        half_rest_fract(length, half),
    )
}

/// The slots of a ones-and-threes bar of `length` whose first half sounds the
/// first `first` of `picks` and whose second half sounds the rest.
pub open spec fn ones_threes_slots(length: Lengths, first: int, picks: Seq<Note>) -> Seq<BarMember> {
    half_slots(length, 0, picks.take(first)) + half_slots(length, 1, picks.skip(first))
}

/// The draws that decide a bar: whether it is a driving bar, the numbers of
/// sounding notes in the halves of a ones-and-threes bar, and the notes drawn
/// for the sounding slots, in order.
pub struct BarDraws {
    pub driving: bool,
    pub counts: [i64; 2],
    pub picks: Vec<Note>,
}

/// The slots of the bar of `length` that the draws `d` decide.
pub open spec fn bar_slots(length: Lengths, d: BarDraws) -> Seq<BarMember> {
    if d.driving {
        driving_slots(length, d.picks@)
    } else {
        ones_threes_slots(length, d.counts[0] as int, d.picks@)
    }
}

/// Whether the draws `d` have a shape a bar of `length` can take: as many notes
/// as fill a whole note for a driving bar, and counts possible for each half
/// of a ones-and-threes bar with as many notes as they add up to.
pub open spec fn bar_draws_shape(length: Lengths, d: BarDraws) -> bool {
    if d.driving {
        d.picks@.len() == length.per_whole()
    } else {
        &&& half_notes_possible(length, 0, d.counts[0] as int)
        &&& half_notes_possible(length, 1, d.counts[1] as int)
        &&& d.picks@.len() == d.counts[0] + d.counts[1]
    }
}

/// Whether every drawn note is one of `notes`.
pub open spec fn picks_from(picks: Seq<Note>, notes: Seq<Note>) -> bool {
    forall|i: int| 0 <= i < picks.len() ==> notes.contains(#[trigger] picks[i])
}

/// Whether `d` are draws that can be made for a bar of `length` on `notes`.
pub open spec fn bar_draws_ok(length: Lengths, d: BarDraws, notes: Seq<Note>) -> bool {
    bar_draws_shape(length, d) && picks_from(d.picks@, notes)
}

/// A bar that `driving_bar` or `ones_threes` can build from note value
/// `length` and the notes `notes`.
pub open spec fn is_bar_of(slots: Seq<BarMember>, length: Lengths, notes: Seq<Note>) -> bool {
    is_driving_bar(slots, length, notes) || is_ones_threes_bar(slots, length, notes)
}

/// The driving bar of `length` that sounds `picks` in turn, one note of
/// `length` each.
pub fn driving_bar_with(length: Lengths, picks: &[Note]) -> (bar: Bar)
    requires
        picks@.len() == length.per_whole(),
    ensures
        bar.notes@ == driving_slots(length, picks@),
{
    let mut bar = Bar { notes: vec![] };
    let fract = length.get_fraction();
    let mut k: usize = 0;
    while k < picks.len()
        invariant
            fract == length.fraction(),
            k <= picks@.len(),
            bar.notes@ == driving_slots(length, picks@.take(k as int)),
        decreases picks@.len() - k,
    {
        bar.notes.push(BarMember { fract, note: Some(picks[k]) });
        assert(picks@.take(k + 1) =~= picks@.take(k as int).push(picks@[k as int]));
        assert(bar.notes@ =~= driving_slots(length, picks@.take(k + 1)));
        k = k + 1;
    }
    assert(picks@.take(picks@.len() as int) =~= picks@);
    bar
}

/// The number of rests after `on` sounding notes in half `half`.
fn half_rest_count(length: Lengths, half: u8, on: i64) -> (r: i64)
    requires
        half < 2,
        0 <= on <= 12,
    ensures
        r == half_rests(length, half as int, on as int),
{
    match length {
        Lengths::Sixteenth => 8 - on,
        Lengths::SixteenthTriplets => 12 - on,
        Lengths::Eighth => 4 - on,
        Lengths::EighthTriplets => 6 - on,
        Lengths::Quarter => 2 - on,
        Lengths::QuarterTriplets => if on <= 1 {
            1 - on
        } else {
            0
        },
        Lengths::Half => 1 - on,
        _ => if half == 0 {
            0
        } else {
            1
        },
    }
}

/// The duration of the rests in half `half`.
fn half_rest_fraction(length: Lengths, half: u8) -> (f: BeatFract)
    ensures
        f == half_rest_fract(length, half as int),
{
    match length {
        Lengths::HalfTriplets if half != 0 => BeatFract { num: 1, den: 2 },
        Lengths::Whole if half != 0 => BeatFract { num: 1, den: 2 },
        _ => length.get_fraction(),
    }
}

/// Appends one half of a ones-and-threes bar: the notes `picks[from..from + on]`
/// and then the rests of that half.
fn push_half(bar: &mut Bar, length: Lengths, half: u8, picks: &[Note], from: usize, on: i64)
    requires
        half < 2,
        0 <= on <= 12,
        from + on <= picks@.len(),
    ensures
        final(bar).notes@ == old(bar).notes@ + half_slots(
            length,
            half as int,
            picks@.subrange(from as int, from + on),
        ),
{
    let ghost start = bar.notes@;
    let fract = length.get_fraction();
    let ghost mine = picks@.subrange(from as int, from + on);
    let mut k: i64 = 0;
    while k < on
        invariant
            fract == length.fraction(),
            0 <= k <= on <= 12,
            from + on <= picks.len(),
            mine == picks@.subrange(from as int, from + on),
            bar.notes@ == start + mine.take(k as int).map_values(|n: Note| sounding(length.fraction(), n)),
        decreases on - k,
    {
        let kk = k as usize;
        assert(kk as int == k as int);
        let note = picks[from + kk];
        bar.notes.push(BarMember { fract, note: Some(note) });
        assert(mine.take(k + 1) =~= mine.take(k as int).push(note));
        assert(bar.notes@ =~= start + mine.take(k + 1).map_values(|n: Note| sounding(length.fraction(), n)));
        k = k + 1;
    }
    assert(mine.take(on as int) =~= mine);
    let ghost mid = bar.notes@;
    let off = half_rest_count(length, half, on);
    let rest = half_rest_fraction(length, half);
    let mut k: i64 = 0;
    while k < off
        invariant
            0 <= k,
            off > 0 ==> k <= off,
            off <= 0 ==> k == 0,
            bar.notes@ == mid + rests(k as int, rest),
        decreases off - k,
    {
        bar.notes.push(BarMember { fract: rest, note: None });
        assert(bar.notes@ =~= mid + rests(k + 1, rest));
        k = k + 1;
    }
    assert(rests(k as int, rest) =~= rests(off as int, rest));
    assert(bar.notes@ =~= start + half_slots(length, half as int, mine));
}

/// The ones-and-threes bar of `length` whose first half sounds `counts[0]`
/// notes and whose second half sounds `counts[1]`, the notes taken from
/// `picks` in turn, each half closed by its rests.
pub fn ones_threes_with(length: Lengths, counts: [i64; 2], picks: &[Note]) -> (bar: Bar)
    requires
        half_notes_possible(length, 0, counts[0] as int),
        half_notes_possible(length, 1, counts[1] as int),
        picks@.len() == counts[0] + counts[1],
    ensures
        bar.notes@ == ones_threes_slots(length, counts[0] as int, picks@),
{
    let mut bar = Bar { notes: vec![] };
    let first = counts[0];
    let second = counts[1];
    push_half(&mut bar, length, 0, picks, 0, first);
    push_half(&mut bar, length, 1, picks, first as usize, second);
    assert(picks@.subrange(0, first as int) =~= picks@.take(first as int));
    assert(picks@.subrange(first as int, first + second) =~= picks@.skip(first as int));
    assert(bar.notes@ =~= ones_threes_slots(length, first as int, picks@));
    bar
}

/// The bar of `length` that the draws `d` decide.
pub fn bar_with(length: Lengths, d: &BarDraws) -> (bar: Bar)
    requires
        bar_draws_shape(length, *d),
    ensures
        bar.notes@ == bar_slots(length, *d),
{
    if d.driving {
        driving_bar_with(length, &d.picks)
    } else {
        ones_threes_with(length, d.counts, &d.picks)
    }
}

/// Draws `count` notes from `notes` and appends them to `picks`.
fn draw_picks(notes: &[Note], count: usize, picks: &mut Vec<Note>, rng: &mut rand::rngs::ThreadRng)
    requires
        notes@.len() > 0,
        picks_from(old(picks)@, notes@),
    ensures
        final(picks)@.len() == old(picks)@.len() + count,
        picks_from(final(picks)@, notes@),
{
    let mut k: usize = 0;
    while k < count
        invariant
            notes@.len() > 0,
            k <= count,
            picks@.len() == old(picks)@.len() + k,
            picks_from(picks@, notes@),
        decreases count - k,
    {
        let ghost before = picks@;
        let note = *pick_one(notes, rng).unwrap();
        picks.push(note);
        assert forall|i: int| 0 <= i < picks@.len() implies notes@.contains(#[trigger] picks@[i]) by {
            if i < before.len() {
                assert(picks@[i] == before[i]);
            }
        }
        k = k + 1;
    }
}

/// Draws the notes of a driving bar of `length`.
fn draw_driving(length: Lengths, notes: &[Note], rng: &mut rand::rngs::ThreadRng) -> (picks: Vec<Note>)
    requires
        notes@.len() > 0,
    ensures
        picks@.len() == length.per_whole(),
        picks_from(picks@, notes@),
{
    let ct: usize = match length {
        Lengths::Sixteenth => 16,
        Lengths::SixteenthTriplets => 24,
        Lengths::Eighth => 8,
        Lengths::EighthTriplets => 12,
        Lengths::Quarter => 4,
        Lengths::QuarterTriplets => 6,
        Lengths::Half => 2,
        Lengths::HalfTriplets => 3,
        Lengths::Whole => 1,
    };
    let mut picks: Vec<Note> = Vec::new();
    draw_picks(notes, ct, &mut picks, rng);
    picks
}

/// Draws the number of sounding notes of half `half` of a ones-and-threes bar.
fn draw_half_count(length: Lengths, half: u8, rng: &mut rand::rngs::ThreadRng) -> (on: i64)
    requires
        half < 2,
    ensures
        half_notes_possible(length, half as int, on as int),
        0 <= on <= 12,
{
    match length {
        Lengths::Sixteenth => random_between(rng, 0, 8),
        Lengths::SixteenthTriplets => random_between(rng, 0, 12),
        Lengths::Eighth => random_between(rng, 0, 4),
        Lengths::EighthTriplets => random_between(rng, 0, 6),
        Lengths::Quarter => random_between(rng, 0, 2),
        Lengths::QuarterTriplets => random_between(rng, 0, 3),
        Lengths::Half => random_between(rng, 0, 1),
        Lengths::HalfTriplets if half == 0 => 3,
        Lengths::Whole if half == 0 => 1,
        _ => 0,
    }
}

/// Draws the counts and notes of a ones-and-threes bar of `length`, half by half.
fn draw_ones_threes(length: Lengths, notes: &[Note], rng: &mut rand::rngs::ThreadRng) -> (r: (
    [i64; 2],
    Vec<Note>,
))
    requires
        notes@.len() > 0,
    ensures
        half_notes_possible(length, 0, r.0[0] as int),
        half_notes_possible(length, 1, r.0[1] as int),
        r.1@.len() == r.0[0] + r.0[1],
        picks_from(r.1@, notes@),
{
    let mut picks: Vec<Note> = Vec::new();
    let first = draw_half_count(length, 0, rng);
    draw_picks(notes, first as usize, &mut picks, rng);
    let second = draw_half_count(length, 1, rng);
    draw_picks(notes, second as usize, &mut picks, rng);
    ([first, second], picks)
}

/// Draws a bar of `length` on `notes`: a coin decides between a driving bar
/// and a ones-and-threes bar, whose own draws follow.
pub(crate) fn draw_bar(length: Lengths, notes: &[Note], rng: &mut rand::rngs::ThreadRng) -> (d: BarDraws)
    requires
        notes@.len() > 0,
    ensures
        bar_draws_ok(length, d, notes@),
{
    if random_bool(rng) {
        let picks = draw_driving(length, notes, rng);
        BarDraws { driving: true, counts: [0, 0], picks }
    } else {
        let (counts, picks) = draw_ones_threes(length, notes, rng);
        BarDraws { driving: false, counts, picks }
    }
}

/// A driving bar built from drawn notes is a driving bar on the notes drawn from.
pub proof fn driving_draws_make_driving_bar(length: Lengths, picks: Seq<Note>, notes: Seq<Note>)
    requires
        picks.len() == length.per_whole(),
        picks_from(picks, notes),
    ensures
        is_driving_bar(driving_slots(length, picks), length, notes),
{
    let slots = driving_slots(length, picks);
    assert forall|i: int| 0 <= i < slots.len() implies sounds_one_of(#[trigger] slots[i], length.fraction(), notes) by {
        assert(notes.contains(picks[i]));
    }
}

/// Every note that a bar built from draws sounds is one of the notes drawn
/// for it.
pub proof fn bar_sounds_only_its_picks(length: Lengths, d: BarDraws, j: int)
    requires
        bar_draws_shape(length, d),
        0 <= j < bar_slots(length, d).len(),
        bar_slots(length, d)[j].note is Some,
    ensures
        d.picks@.contains(bar_slots(length, d)[j].note->0),
{
    let slots = bar_slots(length, d);
    let picks = d.picks@;
    if d.driving {
        assert(slots[j].note == Some(picks[j]));
    } else {
        let f = d.counts[0] as int;
        assert(0 <= f <= picks.len());
        let first = half_slots(length, 0, picks.take(f));
        let second = half_slots(length, 1, picks.skip(f));
        assert(slots == first + second);
        let a = picks.take(f).map_values(|n: Note| sounding(length.fraction(), n));
        let b = picks.skip(f).map_values(|n: Note| sounding(length.fraction(), n));
        if j < first.len() {
            assert(first[j] == slots[j]);
            if j < f {
                assert(first[j] == a[j]);
                assert(slots[j].note == Some(picks[j]));
            } else {
                assert(first[j].note is None);
            }
        } else {
            let jj = j - first.len();
            assert(second[jj] == slots[j]);
            if jj < picks.len() - f {
                assert(second[jj] == b[jj]);
                assert(slots[j].note == Some(picks[f + jj]));
            } else {
                assert(second[jj].note is None);
            }
        }
    }
}

/// One half built from drawn notes is a half of a ones-and-threes bar.
proof fn half_draws_make_half(length: Lengths, half: int, picks: Seq<Note>, notes: Seq<Note>)
    requires
        half_notes_possible(length, half, picks.len() as int),
        picks_from(picks, notes),
    ensures
        is_ones_threes_half(half_slots(length, half, picks), length, half, picks.len() as int, notes),
{
    let slots = half_slots(length, half, picks);
    let on = picks.len() as int;
    assert(half_rests(length, half, on) >= 0);
    assert forall|i: int| 0 <= i < on implies sounds_one_of(#[trigger] slots[i], length.fraction(), notes) by {
        assert(notes.contains(picks[i]));
    }
}

/// A ones-and-threes bar built from drawn counts and notes is a
/// ones-and-threes bar on the notes drawn from.
pub proof fn ones_threes_draws_make_ones_threes_bar(
    length: Lengths,
    first: int,
    second: int,
    picks: Seq<Note>,
    notes: Seq<Note>,
)
    requires
        half_notes_possible(length, 0, first),
        half_notes_possible(length, 1, second),
        picks.len() == first + second,
        picks_from(picks, notes),
    ensures
        is_ones_threes_bar(ones_threes_slots(length, first, picks), length, notes),
{
    let a = picks.take(first);
    let b = picks.skip(first);
    assert(picks_from(a, notes)) by {
        assert forall|i: int| 0 <= i < a.len() implies notes.contains(#[trigger] a[i]) by {
            assert(a[i] == picks[i]);
        }
    }
    assert(picks_from(b, notes)) by {
        assert forall|i: int| 0 <= i < b.len() implies notes.contains(#[trigger] b[i]) by {
            assert(b[i] == picks[first + i]);
        }
    }
    half_draws_make_half(length, 0, a, notes);
    half_draws_make_half(length, 1, b, notes);
    let slots = ones_threes_slots(length, first, picks);
    let h0 = half_slots(length, 0, a);
    let h1 = half_slots(length, 1, b);
    let split = h0.len() as int;
    assert(slots.subrange(0, split) =~= h0);
    assert(slots.subrange(split, slots.len() as int) =~= h1);
    assert(is_ones_threes_half(slots.subrange(0, split), length, 0, first, notes));
    assert(is_ones_threes_half(slots.subrange(split, slots.len() as int), length, 1, second, notes));
}

/// A bar built from draws that can be made on `notes` is a driving or a
/// ones-and-threes bar on `notes`.
pub proof fn bar_draws_make_bar_of(length: Lengths, d: BarDraws, notes: Seq<Note>)
    requires
        bar_draws_ok(length, d, notes),
    ensures
        is_bar_of(bar_slots(length, d), length, notes),
{
    if d.driving {
        driving_draws_make_driving_bar(length, d.picks@, notes);
    } else {
        ones_threes_draws_make_ones_threes_bar(
            length,
            d.counts[0] as int,
            d.counts[1] as int,
            d.picks@,
            notes,
        );
    }
}

/// A bar of `length` notes that fills one whole note; every note is drawn at
/// random from `notes`.
pub fn driving_bar(length: Lengths, notes: &[Note]) -> (bar: Bar)
    requires
        notes@.len() > 0,
    ensures
        is_driving_bar(bar.notes@, length, notes@),
        exists|picks: Seq<Note>|
            picks.len() == length.per_whole() && picks_from(picks, notes@) && bar.notes@
                == #[trigger] driving_slots(length, picks),
{
    let mut rng = thread_rng();
    let picks = draw_driving(length, notes, &mut rng);
    let bar = driving_bar_with(length, &picks);
    proof {
        driving_draws_make_driving_bar(length, picks@, notes@);
    }
    bar
}

/// A bar of two halves. For most note values each half sounds a random number
/// of notes drawn from `notes` followed by rests; a half-triplet or whole bar
/// sounds its notes in the first half and rests for a half note after them.
pub fn ones_threes(length: Lengths, notes: &[Note]) -> (bar: Bar)
    requires
        notes@.len() > 0,
    ensures
        is_ones_threes_bar(bar.notes@, length, notes@),
        exists|first: int, picks: Seq<Note>|
            half_notes_possible(length, 0, first) && half_notes_possible(length, 1, picks.len() - first)
                && picks_from(picks, notes@) && bar.notes@ == #[trigger] ones_threes_slots(length, first, picks),
{
    let mut rng = thread_rng();
    let (counts, picks) = draw_ones_threes(length, notes, &mut rng);
    let bar = ones_threes_with(length, counts, &picks);
    proof {
        ones_threes_draws_make_ones_threes_bar(
            length,
            counts[0] as int,
            counts[1] as int,
            picks@,
            notes@,
        );
    }
    bar
}

/// A note of any value lasts a whole number of ticks, and as many notes of
/// that value as fill a whole note last one whole note.
proof fn note_value_ticks(length: Lengths)
    ensures
        fract_ticks(length.fraction()) * length.per_whole() == ticks_per_whole(),
{
    let f = length.fraction();
    assert(f.num == 1);
    assert(f.den == length.per_whole());
    assert(fract_ticks(f) == 48int / (length.per_whole() as int));
    let p = length.per_whole() as int;
    match length {
        Lengths::Sixteenth => assert(p == 16 && 48int / 16 == 3),
        Lengths::SixteenthTriplets => assert(p == 24 && 48int / 24 == 2),
        Lengths::Eighth => assert(p == 8 && 48int / 8 == 6),
        Lengths::EighthTriplets => assert(p == 12 && 48int / 12 == 4),
        Lengths::Quarter => assert(p == 4 && 48int / 4 == 12),
        Lengths::QuarterTriplets => assert(p == 6 && 48int / 6 == 8),
        Lengths::Half => assert(p == 2 && 48int / 2 == 24),
        Lengths::HalfTriplets => assert(p == 3 && 48int / 3 == 16),
        Lengths::Whole => assert(p == 1 && 48int / 1 == 48),
    }
    assert(fract_ticks(f) * p == ticks_per_whole()) by (nonlinear_arith)
        requires
            fract_ticks(f) == 48int / p,
            p == 16 || p == 24 || p == 8 || p == 12 || p == 4 || p == 6 || p == 2 || p == 3 || p == 1,
    ;
}

/// A driving bar lasts exactly one whole note.
pub proof fn driving_bar_fills_a_whole(slots: Seq<BarMember>, length: Lengths, notes: Seq<Note>)
    requires
        is_driving_bar(slots, length, notes),
    ensures
        slots_ticks(slots) == ticks_per_whole(),
{
    assert forall|i: int| 0 <= i < slots.len() implies #[trigger] slots[i].fract == length.fraction() by {
        assert(sounds_one_of(slots[i], length.fraction(), notes));
    }
    slots_ticks_uniform(slots, length.fraction());
    note_value_ticks(length);
}

/// One half of a ones-and-threes bar whose count was drawn at random lasts
/// half a whole note, for every note value whose halves are not cut short.
proof fn drawn_half_fills_a_half(
    slots: Seq<BarMember>,
    length: Lengths,
    half: int,
    on: int,
    notes: Seq<Note>,
)
    requires
        is_ones_threes_half(slots, length, half, on, notes),
        drawn_notes_bound(length) is Some,
        !(length is QuarterTriplets),
    ensures
        slots_ticks(slots) * 2 == ticks_per_whole(),
{
    assert forall|i: int| 0 <= i < slots.len() implies #[trigger] slots[i].fract == length.fraction() by {
        if i < on {
            assert(sounds_one_of(slots[i], length.fraction(), notes));
        } else {
            assert(slots[i] == rest_of(half_rest_fract(length, half)));
        }
    }
    slots_ticks_uniform(slots, length.fraction());
    note_value_ticks(length);
    assert(slots.len() * 2 == length.per_whole());
    assert(slots_ticks(slots) * 2 == ticks_per_whole()) by (nonlinear_arith)
        requires
            slots_ticks(slots) == slots.len() * fract_ticks(length.fraction()),
            slots.len() * 2 == length.per_whole(),
            fract_ticks(length.fraction()) * length.per_whole() == ticks_per_whole(),
    ;
}

/// A ones-and-threes bar lasts exactly one whole note for every note value but
/// quarter triplets, half triplets and whole notes: a quarter-triplet half
/// may hold fewer than three slots, and half-triplet and whole bars end with a
/// half note of rest beyond the whole note.
pub proof fn ones_threes_bar_fills_a_whole(slots: Seq<BarMember>, length: Lengths, notes: Seq<Note>)
    requires
        is_ones_threes_bar(slots, length, notes),
        !(length is QuarterTriplets),
        !(length is HalfTriplets),
        !(length is Whole),
    ensures
        slots_ticks(slots) == ticks_per_whole(),
{
    let (split, on0, on1) = choose|split: int, on0: int, on1: int|
        #![trigger is_ones_threes_half(slots.subrange(0, split), length, 0, on0, notes), is_ones_threes_half(slots.subrange(split, slots.len() as int), length, 1, on1, notes)]
        0 <= split <= slots.len() && is_ones_threes_half(slots.subrange(0, split), length, 0, on0, notes)
            && is_ones_threes_half(slots.subrange(split, slots.len() as int), length, 1, on1, notes);
    let first = slots.subrange(0, split);
    let second = slots.subrange(split, slots.len() as int);
    drawn_half_fills_a_half(first, length, 0, on0, notes);
    drawn_half_fills_a_half(second, length, 1, on1, notes);
    assert(first + second =~= slots);
    slots_ticks_concat(first, second);
}

} // verus!
