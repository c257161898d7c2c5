//! Pixels and the counting facts that the canvas counters rest on.

use vstd::prelude::*;

verus! {

/// One pixel of the canvas: four 8-bit channels.
///
/// On a canvas the three colour channels always hold the same level and the
/// alpha channel is opaque.
#[derive(Clone, Copy, Debug, PartialEq, Eq, Structural)]
pub struct Rgba {
    pub r: u8,
    pub g: u8,
    pub b: u8,
    pub alpha: u8,
}

/// Level of a pixel that no orbit point has reached yet.
pub const UNTOUCHED: u8 = 255;

impl Rgba {
    /// The opaque gray pixel of the given level.
    pub open spec fn gray_spec(level: u8) -> Rgba {
        Rgba { r: level, g: level, b: level, alpha: 255 }
    }

    /// Whether the pixel is an opaque gray.
    pub open spec fn is_gray(self) -> bool {
        self.r == self.g && self.g == self.b && self.alpha == 255
    }

    /// The pixel after one more visit: one level darker, down to black.
    pub open spec fn decayed(self) -> Rgba {
        if self.r == 0 {
            self
        } else {
            Rgba::gray_spec((self.r - 1) as u8)
        }
    }

    /// The opaque gray pixel of the given level.
    pub fn gray(level: u8) -> (p: Rgba)
        ensures
            p == Rgba::gray_spec(level),
    {
        Rgba { r: level, g: level, b: level, alpha: 255 }
    }
}

/// Number of pixels of `s` whose level is below `t`.
pub open spec fn count_below(s: Seq<Rgba>, t: int) -> nat
    decreases s.len(),
{
    if s.len() == 0 {
        0
    } else {
        count_below(s.drop_last(), t) + if (s.last().r as int) < t {
            1nat
        } else {
            0nat
        }
    }
}

/// No more pixels than there are can lie below a level.
pub proof fn lemma_count_below_le_len(s: Seq<Rgba>, t: int)
    ensures
        count_below(s, t) <= s.len(),
    decreases s.len(),
{
    if s.len() > 0 {
        lemma_count_below_le_len(s.drop_last(), t);
    }
}

/// Raising the level counts at least the pixels counted before.
pub proof fn lemma_count_below_monotone(s: Seq<Rgba>, t1: int, t2: int)
    requires
        t1 <= t2,
    ensures
        count_below(s, t1) <= count_below(s, t2),
    decreases s.len(),
{
    if s.len() > 0 {
        lemma_count_below_monotone(s.drop_last(), t1, t2);
    }
}

/// Where every pixel is at level `t` or above, none is counted.
pub proof fn lemma_count_below_none(s: Seq<Rgba>, t: int)
    requires
        forall|i: int| 0 <= i < s.len() ==> s[i].r >= t,
    ensures
        count_below(s, t) == 0,
    decreases s.len(),
{
    if s.len() > 0 {
        lemma_count_below_none(s.drop_last(), t);
    }
}

/// Replacing one pixel changes the count by that pixel alone.
pub proof fn lemma_count_below_update(s: Seq<Rgba>, i: int, v: Rgba, t: int)
    requires
        0 <= i < s.len(),
    ensures
        count_below(s.update(i, v), t) + (if (s[i].r as int) < t {
            1int
        } else {
            0int
        }) == count_below(s, t) + (if (v.r as int) < t {
            1int
        } else {
            0int
        }),
    decreases s.len(),
{
    let u = s.update(i, v);
    if i == s.len() - 1 {
        assert(u.drop_last() =~= s.drop_last());
    } else {
        assert(u.drop_last() =~= s.drop_last().update(i, v));
        lemma_count_below_update(s.drop_last(), i, v, t);
    }
}

} // verus!
