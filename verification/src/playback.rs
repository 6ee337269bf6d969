use vstd::prelude::*;

verus! {

/// The loudness a note of frequency `freq` (in whole hertz) is played at, in
/// thousandths of full scale: lower notes are played louder.
pub open spec fn amplitude_for(freq: int) -> int {
    if freq < 250 {
        250
    } else if freq < 500 {
        225
    } else if freq < 750 {
        200
    } else if freq < 1000 {
        175
    } else if freq < 1500 {
        150
    } else {
        125
    }
}

/// The loudness, in thousandths of full scale, that a note of frequency
/// `freq` hertz is played at.
pub fn amplitude_per_mille(freq: u32) -> (amp: u32)
    ensures
        amp == amplitude_for(freq as int),
{
    if freq < 250 {
        250
    } else if freq < 500 {
        225
    } else if freq < 750 {
        200
    } else if freq < 1000 {
        175
    } else if freq < 1500 {
        150
    } else {
        125
    }
}

/// A higher note is never played louder than a lower one, and every note is
/// played at between an eighth and a quarter of full scale.
pub proof fn amplitude_falls_with_frequency(low: int, high: int)
    requires
        low <= high,
    ensures
        amplitude_for(high) <= amplitude_for(low),
        125 <= amplitude_for(low) <= 250,
{
}

} // verus!
