use rand::rngs::StdRng;
use rand::{RngCore, SeedableRng};
use rust_tracer::buffer::FrameBuffer;
use rust_tracer::config::Config;
use rust_tracer::tracer::colour::RGB;
use rust_tracer::tracer::sample::{jitter_from_bits, sample_pixel, Jitter, JITTER_STEPS};
use rust_tracer::tracer::{put_pixel, rasterise};
use rust_tracer::Resolution;
use std::cell::RefCell;

fn centre_colour(x: u16, y: u16) -> RGB {
    RGB::new((x * 10) as u8, (y * 20) as u8, (x + y) as u8)
}

#[test]
fn put_pixel_writes_four_bytes() {
    let mut frame = vec![7u8; 12];
    put_pixel(&mut frame, 4, RGB::new(1, 2, 3));
    assert_eq!(frame, vec![7, 7, 7, 7, 1, 2, 3, 255, 7, 7, 7, 7]);
}

#[test]
fn one_sample_equals_centre_ray() {
    let res = Resolution { width: 3, height: 2 };
    let mut frame = vec![0u8; 24];
    let mut rng = StdRng::seed_from_u64(11);
    rasterise(&mut frame, &res, 1, &mut rng, |x, y, jitter| {
        assert_eq!(jitter, None);
        centre_colour(x, y)
    });
    for y in 0..2u16 {
        for x in 0..3u16 {
            let at = 4 * (x as usize + y as usize * 3);
            let c = centre_colour(x, y);
            assert_eq!(&frame[at..at + 4], &[c.r, c.g, c.b, 255]);
        }
    }
}

#[test]
fn one_sample_leaves_generator_untouched() {
    let res = Resolution { width: 2, height: 2 };
    let mut frame = vec![0u8; 16];
    let mut rng = StdRng::seed_from_u64(5);
    rasterise(&mut frame, &res, 1, &mut rng, |x, y, _| centre_colour(x, y));
    let mut fresh = StdRng::seed_from_u64(5);
    assert_eq!(rng.next_u64(), fresh.next_u64());
}

#[test]
fn image_is_row_major_with_opaque_alpha() {
    let res = Resolution { width: 2, height: 3 };
    let mut frame = vec![0u8; 24];
    let mut rng = StdRng::seed_from_u64(1);
    rasterise(&mut frame, &res, 1, &mut rng, |x, y, _| RGB::new(x as u8, y as u8, 100));
    let expected: Vec<u8> = vec![
        0, 0, 100, 255, 1, 0, 100, 255, 0, 1, 100, 255, 1, 1, 100, 255, 0, 2, 100, 255, 1, 2,
        100, 255,
    ];
    assert_eq!(frame, expected);
}

#[test]
fn first_sample_is_centred_and_the_rest_jittered() {
    let seen: RefCell<Vec<(u16, u16, Option<Jitter>)>> = RefCell::new(Vec::new());
    let res = Resolution { width: 2, height: 1 };
    let mut frame = vec![0u8; 8];
    let mut rng = StdRng::seed_from_u64(3);
    rasterise(&mut frame, &res, 3, &mut rng, |x, y, jitter| {
        seen.borrow_mut().push((x, y, jitter));
        RGB::new(0, 0, 0)
    });
    let seen = seen.into_inner();
    assert_eq!(seen.len(), 6);
    for (k, (x, y, jitter)) in seen.iter().enumerate() {
        assert_eq!(*x as usize, k / 3);
        assert_eq!(*y, 0);
        assert_eq!(jitter.is_none(), k % 3 == 0);
    }
}

#[test]
fn jitter_follows_the_seed() {
    let seen: RefCell<Vec<Option<Jitter>>> = RefCell::new(Vec::new());
    let mut rng = StdRng::seed_from_u64(42);
    sample_pixel(
        3,
        &mut rng,
        &|_, _, jitter| {
            seen.borrow_mut().push(jitter);
            RGB::new(0, 0, 0)
        },
        0,
        0,
    );
    let mut twin = StdRng::seed_from_u64(42);
    let first = Jitter { along_x: twin.next_u64() >> 11, along_y: twin.next_u64() >> 11 };
    let second = Jitter { along_x: twin.next_u64() >> 11, along_y: twin.next_u64() >> 11 };
    assert_ne!(first, second);
    assert_eq!(seen.into_inner(), vec![None, Some(first), Some(second)]);
    assert_eq!(rng.next_u64(), twin.next_u64());
}

#[test]
fn jitter_is_the_upper_bits_of_each_draw() {
    assert_eq!(jitter_from_bits(0, 0), Jitter { along_x: 0, along_y: 0 });
    assert_eq!(jitter_from_bits(2047, 2048), Jitter { along_x: 0, along_y: 1 });
    assert_eq!(jitter_from_bits(4096, 6143), Jitter { along_x: 2, along_y: 2 });
    assert_eq!(
        jitter_from_bits(u64::MAX, 1u64 << 63),
        Jitter { along_x: JITTER_STEPS - 1, along_y: JITTER_STEPS / 2 }
    );
    let bits = 0x0123_4567_89AB_CDEFu64;
    assert_eq!(jitter_from_bits(bits, !bits), Jitter { along_x: bits >> 11, along_y: !bits >> 11 });
}

#[test]
fn jitter_stays_within_the_pixel() {
    assert_eq!(JITTER_STEPS, 1u64 << 53);
    let mut rng = StdRng::seed_from_u64(9);
    sample_pixel(
        255,
        &mut rng,
        &|_, _, jitter| {
            if let Some(offset) = jitter {
                assert!(offset.along_x < JITTER_STEPS);
                assert!(offset.along_y < JITTER_STEPS);
            }
            RGB::new(0, 0, 0)
        },
        0,
        0,
    );
}

#[test]
fn same_seed_same_image() {
    let res = Resolution { width: 4, height: 4 };
    let trace = |x: u16, y: u16, jitter: Option<Jitter>| match jitter {
        None => RGB::new(x as u8, y as u8, 0),
        Some(j) => RGB::new((j.along_x >> 45) as u8, (j.along_y >> 45) as u8, 1),
    };
    let mut one = vec![0u8; 64];
    let mut two = vec![9u8; 64];
    rasterise(&mut one, &res, 4, &mut StdRng::seed_from_u64(77), trace);
    rasterise(&mut two, &res, 4, &mut StdRng::seed_from_u64(77), trace);
    assert_eq!(one, two);
}

#[test]
fn mean_truncates() {
    let count = RefCell::new(0u32);
    let mut rng = StdRng::seed_from_u64(0);
    let colour = sample_pixel(
        3,
        &mut rng,
        &|_, _, _| {
            let k = *count.borrow();
            *count.borrow_mut() = k + 1;
            [RGB::new(1, 0, 255), RGB::new(2, 0, 255), RGB::new(2, 1, 254)][k as usize]
        },
        0,
        0,
    );
    assert_eq!(colour, RGB::new(1, 0, 254));
}

#[test]
fn mean_of_many_full_samples_is_full() {
    let mut rng = StdRng::seed_from_u64(0);
    let colour = sample_pixel(255, &mut rng, &|_, _, _| RGB::new(255, 255, 255), 0, 0);
    assert_eq!(colour, RGB::new(255, 255, 255));
}

#[test]
fn bytes_past_the_image_are_kept() {
    let res = Resolution { width: 1, height: 1 };
    let mut frame = vec![42u8; 7];
    let mut rng = StdRng::seed_from_u64(0);
    rasterise(&mut frame, &res, 2, &mut rng, |_, _, _| RGB::new(3, 4, 5));
    assert_eq!(frame, vec![3, 4, 5, 255, 42, 42, 42]);
}

#[test]
fn empty_image_asks_nothing() {
    let res = Resolution { width: 0, height: 5 };
    let mut frame: Vec<u8> = vec![1, 2, 3];
    let mut rng = StdRng::seed_from_u64(0);
    rasterise(&mut frame, &res, 4, &mut rng, |_, _, _| -> RGB { panic!("no pixel to trace") });
    assert_eq!(frame, vec![1, 2, 3]);
}

#[test]
fn frame_buffer_starts_white() {
    let buffer = FrameBuffer::new(Resolution { width: 3, height: 2 });
    assert_eq!(buffer.read_buffer(), &vec![255u8; 24]);
    let mut buffer = buffer;
    assert_eq!(buffer.write_buffer(), &mut vec![255u8; 24]);
}

#[test]
fn frame_buffer_of_no_pixels_is_empty() {
    let buffer = FrameBuffer::new(Resolution { width: 0, height: 9 });
    assert!(buffer.read_buffer().is_empty());
}

#[test]
fn drawing_shows_only_after_swap() {
    let res = Resolution { width: 2, height: 1 };
    let mut buffer = FrameBuffer::new(res);
    let mut rng = StdRng::seed_from_u64(0);
    rasterise(buffer.write_buffer(), &res, 1, &mut rng, |x, _, _| RGB::new(x as u8, 7, 9));
    assert_eq!(buffer.read_buffer(), &vec![255u8; 8]);
    buffer.swap();
    assert_eq!(buffer.read_buffer(), &vec![0, 7, 9, 255, 1, 7, 9, 255]);
    assert_eq!(buffer.write_buffer(), &mut vec![255u8; 8]);
}

#[test]
fn swapping_twice_restores_the_roles() {
    let mut buffer = FrameBuffer::new(Resolution { width: 1, height: 1 });
    put_pixel(buffer.write_buffer(), 0, RGB::new(1, 2, 3));
    buffer.swap();
    buffer.swap();
    assert_eq!(buffer.read_buffer(), &vec![255u8; 4]);
    assert_eq!(buffer.write_buffer(), &mut vec![1, 2, 3, 255]);
}

#[test]
fn config_holds_its_fields() {
    let config = Config {
        filename: String::from("scene.yml"),
        threads: 1,
        resolution: Resolution { width: 1280, height: 720 },
        samples: 8,
    };
    assert_eq!(config.filename, "scene.yml");
    assert_eq!(config.threads, 1);
    assert_eq!(config.resolution, Resolution { width: 1280, height: 720 });
    assert_eq!(config.samples, 8);
}
