use vstd::prelude::*;

verus! {

/// A colour of three channels, each from 0 (dark) to 255 (full).
#[derive(Debug, Copy, Clone, PartialEq, Eq, Structural)]
pub struct RGB {
    pub r: u8,
    pub g: u8,
    pub b: u8,
}

/// A channel value brought into the range of a byte: what is over 255
/// becomes 255, what is under 0 becomes 0.
pub open spec fn clamp_channel(value: int) -> u8 {
    if value >= 255 {
        255u8
    } else if value <= 0 {
        0u8
    } else {
        value as u8
    }
}

/// The sums of the three channels over a sequence of colours.
pub struct Totals {
    pub r: int,
    pub g: int,
    pub b: int,
}

/// Channel-wise sum of `colours`, without any bound.
pub open spec fn totals(colours: Seq<RGB>) -> Totals
    decreases colours.len(),
{
    if colours.len() == 0 {
        Totals { r: 0, g: 0, b: 0 }
    } else {
        let rest = totals(colours.drop_last());
        let last = colours.last();
        Totals { r: rest.r + last.r, g: rest.g + last.g, b: rest.b + last.b }
    }
}

impl RGB {
    pub fn new(r: u8, g: u8, b: u8) -> (colour: RGB)
        ensures
            colour == (RGB { r, g, b }),
    {
        RGB { r, g, b }
    }

    /// The colour with no light in it.
    pub open spec fn black() -> RGB {
        RGB { r: 0, g: 0, b: 0 }
    }

    /// Channel-wise sum of two colours, each channel held at 255.
    pub open spec fn plus(self, other: RGB) -> RGB {
        RGB {
            r: clamp_channel(self.r + other.r),
            g: clamp_channel(self.g + other.g),
            b: clamp_channel(self.b + other.b),
        }
    }

    /// No channel of `self` is above that of `other`.
    pub open spec fn le(self, other: RGB) -> bool {
        self.r <= other.r && self.g <= other.g && self.b <= other.b
    }

    /// Adds two colours channel by channel; a channel that would pass 255
    /// stays at 255.
    pub fn saturating_add(&self, other: &RGB) -> (sum: RGB)
        ensures
            sum == self.plus(*other),
    {
        RGB {
            r: add_channel(self.r, other.r),
            g: add_channel(self.g, other.g),
            b: add_channel(self.b, other.b),
        }
    }
}

fn add_channel(a: u8, b: u8) -> (sum: u8)
    ensures
        sum == clamp_channel(a + b),
{
    if a > 255 - b {
        255
    } else {
        a + b
    }
}

/// The totals of a sequence grow by the colour that is appended.
pub proof fn lemma_totals_push(colours: Seq<RGB>, colour: RGB)
    ensures
        totals(colours.push(colour)).r == totals(colours).r + colour.r,
        totals(colours.push(colour)).g == totals(colours).g + colour.g,
        totals(colours.push(colour)).b == totals(colours).b + colour.b,
{
    assert(colours.push(colour).drop_last() =~= colours);
}

/// Each total lies between 0 and 255 times the number of colours.
pub proof fn lemma_totals_bounds(colours: Seq<RGB>)
    ensures
        0 <= totals(colours).r <= 255 * colours.len(),
        0 <= totals(colours).g <= 255 * colours.len(),
        0 <= totals(colours).b <= 255 * colours.len(),
    decreases colours.len(),
{
    if colours.len() > 0 {
        lemma_totals_bounds(colours.drop_last());
    }
}

} // verus!
