use vstd::prelude::*;
use crate::tracer::colour::{clamp_channel, lemma_totals_bounds, lemma_totals_push, totals, RGB};
use crate::tracer::hit::{blocked_between, occluded};

verus! {

/// What one point light gives to a surface point.
#[derive(Debug, Copy, Clone, PartialEq, Eq, Structural)]
pub enum LightSample {
    /// Something stands between the point and the light.
    Occluded,
    /// The light reaches the point, with these diffuse and specular parts.
    Visible { diffuse: RGB, specular: RGB },
}

impl LightSample {
    /// The light's share of the colour: nothing when occluded, otherwise
    /// diffuse plus specular with each channel held at 255.
    pub open spec fn contribution(self) -> RGB {
        match self {
            LightSample::Occluded => RGB::black(),
            LightSample::Visible { diffuse, specular } => diffuse.plus(specular),
        }
    }

    /// The light's share of the colour.
    pub fn colour(&self) -> (colour: RGB)
        ensures
            colour == self.contribution(),
    {
        match self {
            LightSample::Occluded => RGB::new(0, 0, 0),
            LightSample::Visible { diffuse, specular } => diffuse.saturating_add(specular),
        }
    }
}

/// The contributions of `lights`, in their order.
pub open spec fn contributions(lights: Seq<LightSample>) -> Seq<RGB> {
    Seq::new(lights.len(), |i: int| lights[i].contribution())
}

/// The colour of a surface point: the ambient colour plus the contribution
/// of every light, summed channel by channel and held at 255 at the end.
pub open spec fn shaded(ambient: RGB, lights: Seq<LightSample>) -> RGB {
    let sum = totals(contributions(lights));
    RGB {
        r: clamp_channel(ambient.r + sum.r),
        g: clamp_channel(ambient.g + sum.g),
        b: clamp_channel(ambient.b + sum.b),
    }
}

/// Adds up the colour of a surface point from its ambient colour and what
/// each light gives it. The contributions are summed, not averaged.
pub fn shade(ambient: RGB, lights: &Vec<LightSample>) -> (colour: RGB)
    ensures
        colour == shaded(ambient, lights@),
{
    let mut acc: RGB = ambient;
    let mut i: usize = 0;
    proof {
        assert(contributions(lights@).take(0) =~= Seq::<RGB>::empty());
    }
    while i < lights.len()
        invariant
            i <= lights.len(),
            acc.r == clamp_channel(ambient.r + totals(contributions(lights@).take(i as int)).r),
            acc.g == clamp_channel(ambient.g + totals(contributions(lights@).take(i as int)).g),
            acc.b == clamp_channel(ambient.b + totals(contributions(lights@).take(i as int)).b),
        decreases lights.len() - i,
    {
        let part = lights[i].colour();
        proof {
            let all = contributions(lights@);
            assert(all.take(i + 1) =~= all.take(i as int).push(part));
            lemma_totals_push(all.take(i as int), part);
            lemma_totals_bounds(all.take(i as int));
        }
        acc = acc.saturating_add(&part);
        i = i + 1;
    }
    proof {
        assert(contributions(lights@).take(lights.len() as int) =~= contributions(lights@));
    }
    acc
}

/// `sample` is what light `k` gives when the shadow ray toward it meets the
/// primitives at `distances` and the light lies at `light_distance`:
/// nothing if a primitive is hit farther than `epsilon` and nearer than the
/// light; otherwise the diffuse and specular parts that `lit` may return
/// for it.
pub open spec fn light_sampled<L: Fn(usize) -> (RGB, RGB)>(
    distances: Seq<i64>,
    epsilon: i64,
    light_distance: i64,
    lit: L,
    k: usize,
    sample: LightSample,
) -> bool {
    match sample {
        LightSample::Occluded => blocked_between(distances, epsilon, light_distance),
        LightSample::Visible { diffuse, specular } => {
            &&& !blocked_between(distances, epsilon, light_distance)
            &&& call_ensures(lit, (k,), (diffuse, specular))
        },
    }
}

/// `sample` is what light `k` gives for some shadow-ray distances and light
/// distance that `shadow` may return for it.
pub open spec fn light_seen<S: Fn(usize) -> (Vec<i64>, i64), L: Fn(usize) -> (RGB, RGB)>(
    shadow: S,
    lit: L,
    epsilon: i64,
    k: usize,
    sample: LightSample,
) -> bool {
    exists|distances: Vec<i64>, light_distance: i64| #[trigger]
        call_ensures(shadow, (k,), (distances, light_distance)) && light_sampled(
            distances@,
            epsilon,
            light_distance,
            lit,
            k,
            sample,
        )
}

/// `samples` are what the lights give, in order.
pub open spec fn lights_seen<S: Fn(usize) -> (Vec<i64>, i64), L: Fn(usize) -> (RGB, RGB)>(
    shadow: S,
    lit: L,
    epsilon: i64,
    samples: Seq<LightSample>,
) -> bool {
    forall|k: usize|
        k < samples.len() ==> #[trigger] light_seen(shadow, lit, epsilon, k, samples[k as int])
}

/// Shades a surface point that `lights` point lights may reach. For light
/// `k`, `shadow` gives the distance at which the shadow ray from the point
/// toward the light meets each primitive, and the distance of the light
/// itself. A primitive farther than `epsilon` and nearer than the light
/// occludes it: the light then gives nothing and `lit` is not asked.
/// Otherwise `lit` gives the light's diffuse and specular parts, in this
/// order. The result is the ambient colour plus what the lights give.
pub fn colour_for_hit<S: Fn(usize) -> (Vec<i64>, i64), L: Fn(usize) -> (RGB, RGB)>(
    ambient: RGB,
    lights: usize,
    epsilon: i64,
    shadow: &S,
    lit: &L,
) -> (colour: RGB)
    requires
        forall|k: usize| k < lights ==> call_requires(*shadow, (k,)),
        forall|k: usize| k < lights ==> call_requires(*lit, (k,)),
    ensures
        exists|samples: Seq<LightSample>|
            samples.len() == lights && #[trigger] lights_seen(*shadow, *lit, epsilon, samples)
                && colour == shaded(ambient, samples),
{
    let mut samples: Vec<LightSample> = Vec::new();
    let mut k: usize = 0;
    while k < lights
        invariant
            k <= lights,
            samples.len() == k,
            lights_seen(*shadow, *lit, epsilon, samples@),
            forall|k: usize| k < lights ==> call_requires(*shadow, (k,)),
            forall|k: usize| k < lights ==> call_requires(*lit, (k,)),
        decreases lights - k,
    {
        let (distances, light_distance) = shadow(k);
        let sample: LightSample = if occluded(&distances, epsilon, light_distance) {
            LightSample::Occluded
        } else {
            let (diffuse, specular) = lit(k);
            LightSample::Visible { diffuse, specular }
        };
        proof {
            let before = samples@;
            let after = before.push(sample);
            assert(light_seen(*shadow, *lit, epsilon, k, sample));
            assert forall|j: usize| j < after.len() implies #[trigger] light_seen(
                *shadow,
                *lit,
                epsilon,
                j,
                after[j as int],
            ) by {
                if j < k {
                    assert(light_seen(*shadow, *lit, epsilon, j, before[j as int]));
                }
            }
        }
        samples.push(sample);
        k = k + 1;
    }
    shade(ambient, &samples)
}

/// Lights that are all occluded leave the ambient colour alone.
pub proof fn lemma_occluded_lights_leave_ambient(ambient: RGB, lights: Seq<LightSample>)
    requires
        forall|i: int| 0 <= i < lights.len() ==> lights[i] == LightSample::Occluded,
    ensures
        shaded(ambient, lights) == ambient,
{
    lemma_black_totals(contributions(lights));
}

/// Where the way to every light is blocked, whatever `shadow` returns, the
/// surface point keeps its ambient colour and nothing else.
pub proof fn lemma_blocked_lights_leave_ambient<
    S: Fn(usize) -> (Vec<i64>, i64),
    L: Fn(usize) -> (RGB, RGB),
>(ambient: RGB, shadow: S, lit: L, epsilon: i64, samples: Seq<LightSample>)
    requires
        samples.len() <= usize::MAX,
        lights_seen(shadow, lit, epsilon, samples),
        forall|k: usize, distances: Vec<i64>, light_distance: i64|
            k < samples.len() && #[trigger] call_ensures(shadow, (k,), (distances, light_distance))
                ==> blocked_between(distances@, epsilon, light_distance),
    ensures
        shaded(ambient, samples) == ambient,
{
    assert forall|i: int| 0 <= i < samples.len() implies samples[i] == LightSample::Occluded by {
        let k = i as usize;
        assert(light_seen(shadow, lit, epsilon, k, samples[k as int]));
    }
    lemma_occluded_lights_leave_ambient(ambient, samples);
}

/// An occluded light changes nothing of what the other lights give.
pub proof fn lemma_occluded_light_adds_nothing(ambient: RGB, lights: Seq<LightSample>)
    ensures
        shaded(ambient, lights.push(LightSample::Occluded)) == shaded(ambient, lights),
{
    let more = lights.push(LightSample::Occluded);
    assert(contributions(more) =~= contributions(lights).push(RGB::black()));
    lemma_totals_push(contributions(lights), RGB::black());
}

/// With no light at all the colour is the ambient colour.
pub proof fn lemma_no_lights_is_ambient(ambient: RGB)
    ensures
        shaded(ambient, Seq::<LightSample>::empty()) == ambient,
{
    assert(contributions(Seq::<LightSample>::empty()) =~= Seq::<RGB>::empty());
}

/// A brighter ambient colour never darkens a channel of the shaded colour.
pub proof fn lemma_shaded_monotone_in_ambient(low: RGB, high: RGB, lights: Seq<LightSample>)
    requires
        low.le(high),
    ensures
        shaded(low, lights).le(shaded(high, lights)),
{
}

proof fn lemma_black_totals(colours: Seq<RGB>)
    requires
        forall|i: int| 0 <= i < colours.len() ==> colours[i] == RGB::black(),
    ensures
        totals(colours).r == 0,
        totals(colours).g == 0,
        totals(colours).b == 0,
    decreases colours.len(),
{
    if colours.len() > 0 {
        lemma_black_totals(colours.drop_last());
    }
}

} // verus!
