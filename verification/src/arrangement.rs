use vstd::prelude::*;

verus! {

/// How four consecutive units are laid out from up to three distinct units
/// A, B and C: each letter names the unit played at that position.
#[derive(Debug, Copy, Clone)]
pub enum FourPattern {
    AAAA,
    AABB,
    ABAB,
    ABAC,
    AAAB,
}

impl FourPattern {
    /// The unit (0 for A, 1 for B, 2 for C) played at each of the four positions.
    pub open spec fn units(self) -> Seq<usize> {
        match self {
            FourPattern::AAAA => seq![0, 0, 0, 0],
            FourPattern::AABB => seq![0, 0, 1, 1],
            FourPattern::ABAB => seq![0, 1, 0, 1],
            FourPattern::ABAC => seq![0, 1, 0, 2],
            FourPattern::AAAB => seq![0, 0, 0, 1],
        }
    }

    pub fn indexes(&self) -> (r: [usize; 4])
        ensures
            r@ == self.units(),
    {
        match self {
            FourPattern::AAAA => [0, 0, 0, 0],
            FourPattern::AABB => [0, 0, 1, 1],
            FourPattern::ABAB => [0, 1, 0, 1],
            FourPattern::ABAC => [0, 1, 0, 2],
            FourPattern::AAAB => [0, 0, 0, 1],
        }
    }
}

/// Every four-unit pattern there is, in the order the generator draws from.
pub const PATTERNS: [FourPattern; 5] = [
    FourPattern::AAAA,
    FourPattern::AABB,
    FourPattern::ABAB,
    FourPattern::ABAC,
    FourPattern::AAAB,
];

/// Which of three sections bar `bar` (0 to 15) of a sixteen-bar arrangement
/// plays: the outer pattern picks one of the three inner patterns for each
/// group of four bars, and that inner pattern picks the section of each bar in
/// the group.
pub open spec fn section_of_bar(outer: FourPattern, inners: Seq<FourPattern>, bar: int) -> int {
    inners[outer.units()[bar / 4] as int].units()[bar % 4] as int
}

/// Every pattern starts with unit A and uses no unit beyond C, so it can index
/// a choice of three.
pub proof fn pattern_units_bounded(p: FourPattern)
    ensures
        p.units().len() == 4,
        p.units()[0] == 0,
        forall|k: int| 0 <= k < 4 ==> #[trigger] p.units()[k] < 3,
{
}

/// Every bar of a sixteen-bar arrangement plays one of three sections, and the
/// first bar plays the first section.
pub proof fn arrangement_sections_bounded(outer: FourPattern, inners: Seq<FourPattern>)
    requires
        inners.len() == 3,
    ensures
        section_of_bar(outer, inners, 0) == 0,
        forall|bar: int| 0 <= bar < 16 ==> 0 <= #[trigger] section_of_bar(outer, inners, bar) < 3,
{
    pattern_units_bounded(outer);
    assert forall|bar: int| 0 <= bar < 16 implies 0 <= #[trigger] section_of_bar(outer, inners, bar) < 3 by {
        let g = outer.units()[bar / 4] as int;
        pattern_units_bounded(inners[g]);
        assert(inners[g].units()[bar % 4] < 3);
    }
    pattern_units_bounded(inners[0]);
}

/// Two groups of four bars that the outer pattern labels alike play the same
/// sections bar for bar: bar `k` of group `a` plays what bar `k` of group `b` plays.
pub proof fn arrangement_repeats_groups(
    outer: FourPattern,
    inners: Seq<FourPattern>,
    a: int,
    b: int,
    k: int,
)
    requires
        0 <= a < 4,
        0 <= b < 4,
        0 <= k < 4,
        outer.units()[a] == outer.units()[b],
    ensures
        section_of_bar(outer, inners, 4 * a + k) == section_of_bar(outer, inners, 4 * b + k),
{
    assert((4 * a + k) / 4 == a);
    assert((4 * a + k) % 4 == k);
    assert((4 * b + k) / 4 == b);
    assert((4 * b + k) % 4 == k);
}

} // verus!
