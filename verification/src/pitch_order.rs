use vstd::prelude::*;

use std::cmp::Ordering;
use vstd::std_specs::cmp::PartialOrdSpec;

use crate::scale::Pitch;

verus! {

/// How two pitches compare: by their number of semitones above C.
pub open spec fn pitch_order(p: Pitch, q: Pitch) -> Option<Ordering> {
    if p.index() < q.index() {
        Some(Ordering::Less)
    } else if p.index() == q.index() {
        Some(Ordering::Equal)
    } else {
        Some(Ordering::Greater)
    }
}

/// Pitches are ordered as they rise from C: by their numbers.
impl PartialOrd for Pitch {
    fn partial_cmp(&self, other: &Pitch) -> (r: Option<Ordering>) {
        let a: u8 = u8::from(*self);
        let b: u8 = u8::from(*other);
        if a < b {
            Some(Ordering::Less)
        } else if a == b {
            Some(Ordering::Equal)
        } else {
            Some(Ordering::Greater)
        }
    }
}

impl vstd::std_specs::cmp::PartialOrdSpecImpl for Pitch {
    open spec fn obeys_partial_cmp_spec() -> bool {
        true
    }

    open spec fn partial_cmp_spec(&self, other: &Pitch) -> Option<Ordering> {
        pitch_order(*self, *other)
    }
}

/// Converting pitches to their numbers keeps their order and tells them
/// apart: one pitch lies below another exactly when its number is smaller,
/// and two pitches are equal exactly when their numbers are.
pub proof fn pitch_order_follows_numbers(p: Pitch, q: Pitch)
    ensures
        (p.partial_cmp_spec(&q) == Some(Ordering::Less)) <==> p.index() < q.index(),
        (p.partial_cmp_spec(&q) == Some(Ordering::Greater)) <==> p.index() > q.index(),
        (p == q) <==> p.index() == q.index(),
        p.index() < 12,
{
}

} // verus!
