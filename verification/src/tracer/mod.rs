use vstd::prelude::*;
use rand::rngs::StdRng;
use crate::tracer::colour::RGB;
use crate::tracer::hit::{is_nearest, misses, nearest_hit};
use crate::tracer::light::{lemma_shaded_monotone_in_ambient, shaded, LightSample};
use crate::tracer::sample::{
    jitter_allowed, lemma_mean_monotone, lemma_one_sample_is_centre_ray, mean, sample_pixel,
    sampled, Jitter,
};
use crate::Resolution;

pub mod channel;
pub mod colour;
pub mod distance;
pub mod hit;
pub mod light;
pub mod number;
pub mod sample;

verus! {

/// Where the four bytes of pixel (x, y) start in a row-major image that is
/// `width` pixels wide.
pub open spec fn pixel_offset(x: int, y: int, width: int) -> int {
    4 * (x + y * width)
}

/// The four bytes at `offset` hold `colour`, fully opaque.
pub open spec fn shows(frame: Seq<u8>, offset: int, colour: RGB) -> bool {
    &&& 0 <= offset
    &&& offset + 3 < frame.len()
    &&& frame[offset] == colour.r
    &&& frame[offset + 1] == colour.g
    &&& frame[offset + 2] == colour.b
    &&& frame[offset + 3] == 255
}

/// Pixel (x, y) of `frame` holds the mean of `samples` colours that `trace`
/// may return for it.
pub open spec fn rendered<F: Fn(u16, u16, Option<Jitter>) -> RGB>(
    frame: Seq<u8>,
    width: u16,
    samples: u8,
    trace: F,
    x: u16,
    y: u16,
) -> bool {
    exists|jitters: Seq<Option<Jitter>>, colours: Seq<RGB>|
        colours.len() == samples && #[trigger] sampled(trace, x, y, jitters, colours) && shows(
            frame,
            pixel_offset(x as int, y as int, width as int),
            mean(colours),
        )
}

/// `trace` may be asked for every pixel of an image of size `res`, with no
/// jitter or with one that is within the pixel.
pub open spec fn covers<F: Fn(u16, u16, Option<Jitter>) -> RGB>(trace: F, res: Resolution) -> bool {
    forall|x: u16, y: u16, jitter: Option<Jitter>|
        x < res.width && y < res.height && jitter_allowed(jitter) ==> #[trigger] call_requires(
            trace,
            (x, y, jitter),
        )
}

/// Resolves the colour that a ray sees. `distances` holds, for each
/// primitive of the scene in order, the distance at which the ray meets it.
/// The nearest hit is shaded by `shade_hit`, which is given the primitive's
/// index; a ray that hits nothing sees the background, as it is, and
/// `shade_hit` is not asked.
pub fn cast_ray<F: FnOnce(usize) -> RGB>(
    distances: &Vec<i64>,
    background: RGB,
    shade_hit: F,
) -> (colour: RGB)
    requires
        forall|i: usize| is_nearest(distances@, i as int) ==> call_requires(shade_hit, (i,)),
    ensures
        misses(distances@) ==> colour == background,
        !misses(distances@) ==> exists|i: usize|
            is_nearest(distances@, i as int) && call_ensures(shade_hit, (i,), colour),
{
    match nearest_hit(distances) {
        Some(i) => shade_hit(i),
        None => background,
    }
}

/// Writes `colour` and an alpha of 255 into the four bytes at `offset`.
pub fn put_pixel(frame: &mut Vec<u8>, offset: usize, colour: RGB)
    requires
        offset + 3 < old(frame).len(),
    ensures
        final(frame)@ == old(frame)@.update(offset as int, colour.r).update(
            offset + 1,
            colour.g,
        ).update(offset + 2, colour.b).update(offset + 3, 255u8),
{
    frame.set(offset, colour.r);
    frame.set(offset + 1, colour.g);
    frame.set(offset + 2, colour.b);
    frame.set(offset + 3, 255);
}

/// Renders an image of size `res` into `frame`, row by row, four bytes to
/// the pixel. Each pixel is the mean of `samples` colours asked of `trace`
/// for that pixel: first the ray through its centre, then rays with a
/// jitter drawn from `rng`.
/// What `frame` held in those bytes before is never read; bytes past the
/// image are left as they were.
pub fn rasterise<F: Fn(u16, u16, Option<Jitter>) -> RGB>(
    frame: &mut Vec<u8>,
    res: &Resolution,
    samples: u8,
    rng: &mut StdRng,
    trace: F,
)
    requires
        samples >= 1,
        old(frame).len() >= res.bytes(),
        covers(trace, *res),
    ensures
        final(frame).len() == old(frame).len(),
        forall|x: u16, y: u16|
            x < res.width && y < res.height ==> #[trigger] rendered(
                final(frame)@,
                res.width,
                samples,
                trace,
                x,
                y,
            ),
        forall|k: int| res.bytes() <= k < old(frame).len() ==> final(frame)@[k] == old(frame)@[k],
        samples == 1 ==> *final(rng) == *old(rng),
{
    let width: u16 = res.width;
    let height: u16 = res.height;
    let mut offset: usize = 0;
    let mut y: u16 = 0;
    while y < height
        invariant
            y <= height,
            width == res.width,
            height == res.height,
            samples >= 1,
            frame.len() == old(frame).len(),
            frame.len() >= res.bytes(),
            samples == 1 ==> *rng == *old(rng),
            offset == pixel_offset(0, y as int, width as int),
            covers(trace, *res),
            forall|px: u16, py: u16|
                px < width && py < y ==> #[trigger] rendered(frame@, width, samples, trace, px, py),
            forall|k: int| offset <= k < frame.len() ==> frame@[k] == old(frame)@[k],
        decreases height - y,
    {
        let mut x: u16 = 0;
        while x < width
            invariant
                x <= width,
                y < height,
                width == res.width,
                height == res.height,
                samples >= 1,
                frame.len() == old(frame).len(),
                frame.len() >= res.bytes(),
                samples == 1 ==> *rng == *old(rng),
                offset == pixel_offset(x as int, y as int, width as int),
                covers(trace, *res),
                forall|px: u16, py: u16|
                    px < width && (py < y || (py == y && px < x)) ==> #[trigger] rendered(
                        frame@,
                        width,
                        samples,
                        trace,
                        px,
                        py,
                    ),
                forall|k: int| offset <= k < frame.len() ==> frame@[k] == old(frame)@[k],
            decreases width - x,
        {
            let colour: RGB = sample_pixel(samples, rng, &trace, x, y);
            let ghost before = frame@;
            proof {
                lemma_pixel_in_image(x as int, y as int, width as int, height as int);
            }
            put_pixel(frame, offset, colour);
            proof {
                assert forall|px: u16, py: u16|
                    px < width && (py < y || (py == y && px <= x)) implies #[trigger] rendered(
                    frame@,
                    width,
                    samples,
                    trace,
                    px,
                    py,
                ) by {
                    if py == y && px == x {
                        let (jitters, colours) = choose|
                            jitters: Seq<Option<Jitter>>,
                            colours: Seq<RGB>,
                        |
                            colours.len() == samples && #[trigger] sampled(
                                trace,
                                x,
                                y,
                                jitters,
                                colours,
                            ) && colour == mean(colours);
                        assert(shows(frame@, offset as int, mean(colours)));
                    } else {
                        lemma_pixel_order(px as int, py as int, x as int, y as int, width as int);
                        assert(rendered(before, width, samples, trace, px, py));
                        let (jitters, colours) = choose|
                            jitters: Seq<Option<Jitter>>,
                            colours: Seq<RGB>,
                        |
                            colours.len() == samples && #[trigger] sampled(
                                trace,
                                px,
                                py,
                                jitters,
                                colours,
                            ) && shows(
                                before,
                                pixel_offset(px as int, py as int, width as int),
                                mean(colours),
                            );
                        assert(shows(
                            frame@,
                            pixel_offset(px as int, py as int, width as int),
                            mean(colours),
                        ));
                    }
                }
            }
            offset = offset + 4;
            x = x + 1;
        }
        proof {
            lemma_next_row(y as int, width as int);
        }
        y = y + 1;
    }
    proof {
        assert(offset == res.bytes()) by (nonlinear_arith)
            requires
                offset == 4 * (0 + height * width),
                res.bytes() == 4 * (width * height),
        ;
    }
}

/// The colour along a ray: the background where it hits nothing, else the
/// shaded colour of the surface point, given by the point's ambient colour
/// and its lights.
pub open spec fn ray_colour(background: RGB, surface: Option<(RGB, Seq<LightSample>)>) -> RGB {
    match surface {
        None => background,
        Some((ambient, lights)) => shaded(ambient, lights),
    }
}

/// A pixel rendered with one sample holds exactly what the ray through its
/// centre sees.
pub proof fn lemma_one_sample_shows_centre_ray<F: Fn(u16, u16, Option<Jitter>) -> RGB>(
    frame: Seq<u8>,
    width: u16,
    trace: F,
    x: u16,
    y: u16,
)
    requires
        rendered(frame, width, 1, trace, x, y),
    ensures
        exists|colour: RGB| #[trigger]
            call_ensures(trace, (x, y, None::<Jitter>), colour) && shows(
                frame,
                pixel_offset(x as int, y as int, width as int),
                colour,
            ),
{
    let (jitters, colours) = choose|jitters: Seq<Option<Jitter>>, colours: Seq<RGB>|
        colours.len() == 1 && #[trigger] sampled(trace, x, y, jitters, colours) && shows(
            frame,
            pixel_offset(x as int, y as int, width as int),
            mean(colours),
        );
    lemma_one_sample_is_centre_ray(trace, x, y, jitters, colours);
}

/// A pixel never gets darker when the ambient colour gets brighter: if the
/// rays of a pixel hit what they hit and are lit as they are lit, and only
/// the ambient colour of the surface points rises, no channel of the
/// pixel's colour falls.
pub proof fn lemma_pixel_monotone_in_ambient(
    background: RGB,
    low: Seq<Option<(RGB, Seq<LightSample>)>>,
    high: Seq<Option<(RGB, Seq<LightSample>)>>,
)
    requires
        low.len() == high.len(),
        low.len() > 0,
        forall|s: int|
            0 <= s < low.len() ==> match (#[trigger] low[s], high[s]) {
                (None, None) => true,
                (Some((dim, lights)), Some((bright, same))) => dim.le(bright) && lights == same,
                _ => false,
            },
    ensures
        mean(Seq::new(low.len(), |s: int| ray_colour(background, low[s]))).le(
            mean(Seq::new(high.len(), |s: int| ray_colour(background, high[s]))),
        ),
{
    let dim = Seq::new(low.len(), |s: int| ray_colour(background, low[s]));
    let bright = Seq::new(high.len(), |s: int| ray_colour(background, high[s]));
    assert forall|s: int| 0 <= s < dim.len() implies dim[s].le(bright[s]) by {
        match (low[s], high[s]) {
            (Some((a, lights)), Some((b, same))) => {
                lemma_shaded_monotone_in_ambient(a, b, lights);
            },
            _ => {},
        }
    }
    lemma_mean_monotone(dim, bright);
}

/// A pixel inside an image lies before the image's end.
pub proof fn lemma_pixel_in_image(x: int, y: int, width: int, height: int)
    requires
        0 <= x < width,
        0 <= y < height,
    ensures
        0 <= pixel_offset(x, y, width),
        pixel_offset(x, y, width) + 4 <= 4 * (width * height),
{
    assert(0 <= y * width && x + y * width + 1 <= width * height) by (nonlinear_arith)
        requires
            0 <= x < width,
            0 <= y < height,
    ;
}

/// Pixels come in row-major order: one that is in an earlier row, or
/// earlier in the same row, ends where or before the other starts.
pub proof fn lemma_pixel_order(px: int, py: int, x: int, y: int, width: int)
    requires
        0 <= px < width,
        0 <= x < width,
        0 <= py,
        py < y || (py == y && px < x),
    ensures
        0 <= pixel_offset(px, py, width),
        pixel_offset(px, py, width) + 4 <= pixel_offset(x, y, width),
{
    assert(0 <= py * width && px + py * width + 1 <= x + y * width) by (nonlinear_arith)
        requires
            0 <= px < width,
            0 <= x < width,
            0 <= py,
            py < y || (py == y && px < x),
    ;
}

proof fn lemma_next_row(y: int, width: int)
    ensures
        pixel_offset(width, y, width) == pixel_offset(0, y + 1, width),
{
    assert(width + y * width == (y + 1) * width) by (nonlinear_arith);
}

} // verus!
