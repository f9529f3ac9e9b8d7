use vstd::prelude::*;
use rand::rngs::StdRng;
use rand::RngCore;
use crate::tracer::colour::{lemma_totals_bounds, lemma_totals_push, totals, RGB};

verus! {

/// The standard generator of rand, `rand::rngs::StdRng`. It is carried
/// through to where the bits are drawn; nothing is known of its state.
#[verifier::external_type_specification]
#[verifier::external_body]
pub struct ExStdRng(rand::rngs::StdRng);

/// The number of steps that a jitter is counted in: 2 to the power of 53.
pub const JITTER_STEPS: u64 = 0x20_0000_0000_0000;

/// How far a sample ray is moved off the centre of its pixel: one random
/// number along the row and one down the column. Each counts steps of one
/// part in `JITTER_STEPS` of the stride from a pixel to the next, so that
/// it stands for a fraction from 0 up to but not including 1.
#[derive(Debug, Copy, Clone, PartialEq, Eq, Structural)]
pub struct Jitter {
    pub along_x: u64,
    pub along_y: u64,
}

impl Jitter {
    /// Both parts are below a whole stride.
    pub open spec fn within_pixel(self) -> bool {
        self.along_x < JITTER_STEPS && self.along_y < JITTER_STEPS
    }
}

/// A jitter as `trace` is asked with: none, or one within the pixel.
pub open spec fn jitter_allowed(jitter: Option<Jitter>) -> bool {
    match jitter {
        None => true,
        Some(offset) => offset.within_pixel(),
    }
}

/// Draws the next 64 bits from the generator, by `RngCore::next_u64` of
/// rand. Nothing is claimed of the bits: they are random.
#[verifier::external_body]
fn random_bits(rng: &mut StdRng) -> (bits: u64) {
    rng.next_u64()
}

/// Draws the jitter of one sample ray, which `jitter_from_bits` makes of
/// two draws: first the part along the row, then the part down the column.
fn draw_jitter(rng: &mut StdRng) -> (jitter: Jitter)
    ensures
        jitter.within_pixel(),
{
    let x_bits: u64 = random_bits(rng);
    let y_bits: u64 = random_bits(rng);
    jitter_from_bits(x_bits, y_bits)
}

/// The jitter that two draws of 64 random bits stand for: of each draw the
/// upper 53 bits, which is the draw divided by 2048, the remainder dropped.
pub open spec fn jitter_of(x_bits: u64, y_bits: u64) -> Jitter {
    Jitter { along_x: x_bits / 2048, along_y: y_bits / 2048 }
}

/// Makes the jitter of a sample ray from two draws of 64 random bits, the
/// first for the part along the row, the second for the part down the
/// column. Whatever the bits are, the jitter lies within the pixel.
pub fn jitter_from_bits(x_bits: u64, y_bits: u64) -> (jitter: Jitter)
    ensures
        jitter == jitter_of(x_bits, y_bits),
        jitter.within_pixel(),
{
    Jitter { along_x: x_bits / 2048, along_y: y_bits / 2048 }
}

/// The jitter made of any two draws lies within the pixel.
pub proof fn lemma_jitter_within_pixel(x_bits: u64, y_bits: u64)
    ensures
        jitter_of(x_bits, y_bits).within_pixel(),
{
}

/// The colour of a pixel from the colours of its samples: each channel is
/// the sum over the samples divided by their number, the remainder dropped.
pub open spec fn mean(colours: Seq<RGB>) -> RGB
    recommends
        colours.len() > 0,
{
    let sum = totals(colours);
    let n = colours.len() as int;
    RGB { r: (sum.r / n) as u8, g: (sum.g / n) as u8, b: (sum.b / n) as u8 }
}

/// `colour` is what `trace` may return for sample number `s` of pixel
/// (x, y) when asked with `jitter`: the first sample is the ray through the
/// pixel's centre and has no jitter, every later one has some, within the
/// pixel.
pub open spec fn sample_seen<F: Fn(u16, u16, Option<Jitter>) -> RGB>(
    trace: F,
    x: u16,
    y: u16,
    s: int,
    jitter: Option<Jitter>,
    colour: RGB,
) -> bool {
    &&& jitter.is_none() <==> s == 0
    &&& jitter_allowed(jitter)
    &&& call_ensures(trace, (x, y, jitter), colour)
}

/// `colours` are what `trace` may return for the samples of pixel (x, y),
/// in order, when asked with `jitters`.
pub open spec fn sampled<F: Fn(u16, u16, Option<Jitter>) -> RGB>(
    trace: F,
    x: u16,
    y: u16,
    jitters: Seq<Option<Jitter>>,
    colours: Seq<RGB>,
) -> bool {
    &&& jitters.len() == colours.len()
    &&& forall|s: int|
        0 <= s < colours.len() ==> #[trigger] sample_seen(trace, x, y, s, jitters[s], colours[s])
}

/// Casts `samples` rays through pixel (x, y) and averages what they see.
/// `trace` is asked for the colour along one ray. The first ray goes
/// through the pixel's centre; for each later one a jitter is drawn from
/// `rng`. With one sample `rng` is not used.
pub fn sample_pixel<F: Fn(u16, u16, Option<Jitter>) -> RGB>(
    samples: u8,
    rng: &mut StdRng,
    trace: &F,
    x: u16,
    y: u16,
) -> (colour: RGB)
    requires
        samples >= 1,
        forall|jitter: Option<Jitter>|
            jitter_allowed(jitter) ==> #[trigger] call_requires(*trace, (x, y, jitter)),
    ensures
        exists|jitters: Seq<Option<Jitter>>, colours: Seq<RGB>|
            colours.len() == samples && #[trigger] sampled(*trace, x, y, jitters, colours)
                && colour == mean(colours),
        samples == 1 ==> *final(rng) == *old(rng),
{
    let mut r_total: u32 = 0;
    let mut g_total: u32 = 0;
    let mut b_total: u32 = 0;
    let ghost mut jitters: Seq<Option<Jitter>> = Seq::empty();
    let ghost mut colours: Seq<RGB> = Seq::empty();
    let mut sample: u8 = 0;
    while sample < samples
        invariant
            sample <= samples,
            sample <= 1 ==> *rng == *old(rng),
            colours.len() == sample,
            sampled(*trace, x, y, jitters, colours),
            totals(colours).r == r_total,
            totals(colours).g == g_total,
            totals(colours).b == b_total,
            forall|jitter: Option<Jitter>|
                jitter_allowed(jitter) ==> #[trigger] call_requires(*trace, (x, y, jitter)),
        decreases samples - sample,
    {
        let jitter: Option<Jitter> = if sample == 0 {
            None
        } else {
            Some(draw_jitter(rng))
        };
        let seen: RGB = trace(x, y, jitter);
        proof {
            lemma_totals_push(colours, seen);
            lemma_totals_bounds(colours);
            let more_jitters = jitters.push(jitter);
            let more_colours = colours.push(seen);
            assert forall|s: int| 0 <= s < more_colours.len() implies #[trigger] sample_seen(
                *trace,
                x,
                y,
                s,
                more_jitters[s],
                more_colours[s],
            ) by {
                if s < colours.len() {
                    assert(sample_seen(*trace, x, y, s, jitters[s], colours[s]));
                }
            }
            jitters = more_jitters;
            colours = more_colours;
        }
        r_total = r_total + seen.r as u32;
        g_total = g_total + seen.g as u32;
        b_total = b_total + seen.b as u32;
        sample = sample + 1;
    }
    let n: u32 = samples as u32;
    proof {
        lemma_totals_bounds(colours);
        lemma_mean_fits(r_total as int, n as int);
        lemma_mean_fits(g_total as int, n as int);
        lemma_mean_fits(b_total as int, n as int);
    }
    let colour = RGB { r: (r_total / n) as u8, g: (g_total / n) as u8, b: (b_total / n) as u8 };
    assert(sampled(*trace, x, y, jitters, colours) && colour == mean(colours));
    colour
}

/// A sum of `n` channel values divided by `n` is a channel value again.
pub proof fn lemma_mean_fits(sum: int, n: int)
    requires
        n > 0,
        0 <= sum <= 255 * n,
    ensures
        0 <= sum / n <= 255,
{
    assert(0 <= sum / n <= 255) by (nonlinear_arith)
        requires
            n > 0,
            0 <= sum <= 255 * n,
    ;
}

/// Each channel of the mean is the whole quotient of the channel's sum by
/// the number of samples: making it a byte cuts nothing off.
pub proof fn lemma_mean_is_exact(colours: Seq<RGB>)
    requires
        colours.len() > 0,
    ensures
        mean(colours).r == totals(colours).r / (colours.len() as int),
        mean(colours).g == totals(colours).g / (colours.len() as int),
        mean(colours).b == totals(colours).b / (colours.len() as int),
{
    lemma_totals_bounds(colours);
    let n = colours.len() as int;
    lemma_mean_fits(totals(colours).r, n);
    lemma_mean_fits(totals(colours).g, n);
    lemma_mean_fits(totals(colours).b, n);
}

/// A single sample is its own mean.
pub proof fn lemma_mean_of_one(colour: RGB)
    ensures
        mean(seq![colour]) == colour,
{
    lemma_totals_push(Seq::<RGB>::empty(), colour);
    assert(seq![colour] =~= Seq::<RGB>::empty().push(colour));
}

/// With one sample to the pixel, the pixel is exactly what the ray through
/// its centre sees: no jitter enters.
pub proof fn lemma_one_sample_is_centre_ray<F: Fn(u16, u16, Option<Jitter>) -> RGB>(
    trace: F,
    x: u16,
    y: u16,
    jitters: Seq<Option<Jitter>>,
    colours: Seq<RGB>,
)
    requires
        colours.len() == 1,
        sampled(trace, x, y, jitters, colours),
    ensures
        call_ensures(trace, (x, y, None::<Jitter>), mean(colours)),
{
    lemma_mean_of_one(colours[0]);
    assert(colours =~= seq![colours[0]]);
    assert(sample_seen(trace, x, y, 0, jitters[0], colours[0]));
}

/// Samples that are channel by channel no darker give a mean that is no
/// darker.
pub proof fn lemma_mean_monotone(low: Seq<RGB>, high: Seq<RGB>)
    requires
        low.len() == high.len(),
        low.len() > 0,
        forall|s: int| 0 <= s < low.len() ==> low[s].le(high[s]),
    ensures
        mean(low).le(mean(high)),
{
    lemma_totals_monotone(low, high);
    lemma_totals_bounds(low);
    lemma_totals_bounds(high);
    let n = low.len() as int;
    lemma_mean_fits(totals(low).r, n);
    lemma_mean_fits(totals(low).g, n);
    lemma_mean_fits(totals(low).b, n);
    lemma_mean_fits(totals(high).r, n);
    lemma_mean_fits(totals(high).g, n);
    lemma_mean_fits(totals(high).b, n);
    lemma_div_monotone(totals(low).r, totals(high).r, n);
    lemma_div_monotone(totals(low).g, totals(high).g, n);
    lemma_div_monotone(totals(low).b, totals(high).b, n);
}

proof fn lemma_div_monotone(a: int, b: int, n: int)
    requires
        n > 0,
        0 <= a <= b,
    ensures
        a / n <= b / n,
{
    vstd::arithmetic::div_mod::lemma_div_is_ordered(a, b, n);
}

proof fn lemma_totals_monotone(low: Seq<RGB>, high: Seq<RGB>)
    requires
        low.len() == high.len(),
        forall|s: int| 0 <= s < low.len() ==> low[s].le(high[s]),
    ensures
        totals(low).r <= totals(high).r,
        totals(low).g <= totals(high).g,
        totals(low).b <= totals(high).b,
    decreases low.len(),
{
    if low.len() > 0 {
        lemma_totals_monotone(low.drop_last(), high.drop_last());
    }
}

} // verus!
