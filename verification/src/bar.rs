use vstd::prelude::*;

use crate::scale::Note;

verus! {

/// A duration, as the fraction `num / den` of a whole note.
#[derive(Debug, Copy, Clone)]
pub struct BeatFract {
    pub num: usize,
    pub den: usize,
}

/// One slot of a bar: a duration, and the note sounded for it (`None` for a rest).
#[derive(Debug, Copy, Clone)]
pub struct BarMember {
    pub fract: BeatFract,
    pub note: Option<Note>,
}

/// A bar: the slots that are played one after another.
#[derive(Debug, Clone, Default)]
pub struct Bar {
    pub notes: Vec<BarMember>,
}

/// The note values a bar can be built from.
#[derive(Debug, Copy, Clone)]
pub enum Lengths {
    Sixteenth,
    SixteenthTriplets,
    Eighth,
    EighthTriplets,
    Quarter,
    QuarterTriplets,
    Half,
    HalfTriplets,
    Whole,
}

impl Lengths {
    /// How many notes of this value fill one whole note.
    pub open spec fn per_whole(self) -> nat {
        match self {
            Lengths::Sixteenth => 16,
            Lengths::SixteenthTriplets => 24,
            Lengths::Eighth => 8,
            Lengths::EighthTriplets => 12,
            Lengths::Quarter => 4,
            Lengths::QuarterTriplets => 6,
            Lengths::Half => 2,
            Lengths::HalfTriplets => 3,
            Lengths::Whole => 1,
        }
    }

    /// The duration of one note of this value.
    pub open spec fn fraction(self) -> BeatFract {
        BeatFract { num: 1, den: self.per_whole() as usize }
    }

    pub fn get_fraction(&self) -> (f: BeatFract)
        ensures
            f == self.fraction(),
    {
        match self {
            Lengths::Sixteenth => BeatFract { num: 1, den: 16 },
            Lengths::SixteenthTriplets => BeatFract { num: 1, den: 24 },
            Lengths::Eighth => BeatFract { num: 1, den: 8 },
            Lengths::EighthTriplets => BeatFract { num: 1, den: 12 },
            Lengths::Quarter => BeatFract { num: 1, den: 4 },
            Lengths::QuarterTriplets => BeatFract { num: 1, den: 6 },
            Lengths::Half => BeatFract { num: 1, den: 2 },
            Lengths::HalfTriplets => BeatFract { num: 1, den: 3 },
            Lengths::Whole => BeatFract { num: 1, den: 1 },
        }
    }
}

/// Durations are counted in ticks: 48 ticks make a whole note, so every note
/// value above lasts a whole number of ticks.
pub open spec fn ticks_per_whole() -> nat {
    48
}

/// The length of a duration in ticks.
pub open spec fn fract_ticks(f: BeatFract) -> int {
    ticks_per_whole() * f.num / (f.den as int)
}

/// The total length of a sequence of bar slots in ticks.
pub open spec fn slots_ticks(slots: Seq<BarMember>) -> int
    decreases slots.len(),
{
    if slots.len() == 0 {
        0
    } else {
        slots_ticks(slots.drop_last()) + fract_ticks(slots.last().fract)
    }
}

/// The ticks of two sequences of slots played one after the other add up.
pub proof fn slots_ticks_concat(a: Seq<BarMember>, b: Seq<BarMember>)
    ensures
        slots_ticks(a + b) == slots_ticks(a) + slots_ticks(b),
    decreases b.len(),
{
    if b.len() == 0 {
        assert(a + b =~= a);
    } else {
        assert((a + b).drop_last() =~= a + b.drop_last());
        slots_ticks_concat(a, b.drop_last());
    }
}

/// Slots that all last `f` last, together, their number times `f`.
pub proof fn slots_ticks_uniform(slots: Seq<BarMember>, f: BeatFract)
    requires
        forall|i: int| 0 <= i < slots.len() ==> #[trigger] slots[i].fract == f,
    ensures
        slots_ticks(slots) == slots.len() * fract_ticks(f),
    decreases slots.len(),
{
    if slots.len() > 0 {
        let rest = slots.drop_last();
        assert forall|i: int| 0 <= i < rest.len() implies #[trigger] rest[i].fract == f by {
            assert(rest[i] == slots[i]);
        }
        slots_ticks_uniform(rest, f);
        assert(slots.last().fract == f);
        assert(slots.len() * fract_ticks(f) == rest.len() * fract_ticks(f) + fract_ticks(f)) by (nonlinear_arith)
            requires
                slots.len() == rest.len() + 1,
        ;
    }
}

} // verus!
