use rust_tracer::tracer::colour::RGB;
use rust_tracer::tracer::light::{colour_for_hit, shade, LightSample};

fn visible(diffuse: (u8, u8, u8), specular: (u8, u8, u8)) -> LightSample {
    LightSample::Visible {
        diffuse: RGB::new(diffuse.0, diffuse.1, diffuse.2),
        specular: RGB::new(specular.0, specular.1, specular.2),
    }
}

#[test]
fn rgb_new_keeps_channels() {
    let c = RGB::new(1, 2, 3);
    assert_eq!(c.r, 1);
    assert_eq!(c.g, 2);
    assert_eq!(c.b, 3);
    assert_eq!(c, RGB { r: 1, g: 2, b: 3 });
}

#[test]
fn saturating_add_sums_channels() {
    let sum = RGB::new(10, 20, 30).saturating_add(&RGB::new(1, 2, 3));
    assert_eq!(sum, RGB::new(11, 22, 33));
}

#[test]
fn saturating_add_holds_at_255() {
    let sum = RGB::new(200, 255, 128).saturating_add(&RGB::new(100, 255, 127));
    assert_eq!(sum, RGB::new(255, 255, 255));
    let edge = RGB::new(254, 0, 128).saturating_add(&RGB::new(1, 0, 128));
    assert_eq!(edge, RGB::new(255, 0, 255));
}

#[test]
fn occluded_light_is_black() {
    assert_eq!(LightSample::Occluded.colour(), RGB::new(0, 0, 0));
}

#[test]
fn visible_light_is_diffuse_plus_specular() {
    assert_eq!(visible((10, 20, 30), (5, 6, 7)).colour(), RGB::new(15, 26, 37));
    assert_eq!(visible((250, 20, 30), (50, 6, 7)).colour(), RGB::new(255, 26, 37));
}

#[test]
fn no_lights_gives_ambient_only() {
    let ambient = RGB::new(12, 34, 56);
    assert_eq!(shade(ambient, &Vec::new()), ambient);
}

#[test]
fn lights_are_summed_not_averaged() {
    let lights = vec![visible((50, 40, 30), (0, 0, 0)), visible((20, 10, 0), (30, 30, 30))];
    let colour = shade(RGB::new(10, 10, 10), &lights);
    assert_eq!(colour, RGB::new(110, 90, 70));
}

#[test]
fn occluded_lights_leave_only_ambient() {
    let ambient = RGB::new(40, 50, 60);
    let lights = vec![LightSample::Occluded, LightSample::Occluded, LightSample::Occluded];
    assert_eq!(shade(ambient, &lights), ambient);
}

#[test]
fn occluded_light_among_visible_adds_nothing() {
    let ambient = RGB::new(1, 2, 3);
    let with = vec![visible((10, 10, 10), (1, 1, 1)), LightSample::Occluded];
    let without = vec![visible((10, 10, 10), (1, 1, 1))];
    assert_eq!(shade(ambient, &with), shade(ambient, &without));
    assert_eq!(shade(ambient, &with), RGB::new(12, 13, 14));
}

#[test]
fn many_bright_lights_saturate() {
    let lights = vec![visible((255, 200, 0), (255, 100, 0)); 1000];
    let colour = shade(RGB::new(255, 0, 0), &lights);
    assert_eq!(colour, RGB::new(255, 255, 0));
}

#[test]
fn each_light_is_held_at_255_before_the_sum() {
    let lights = vec![visible((200, 0, 0), (200, 0, 0))];
    assert_eq!(shade(RGB::new(0, 0, 0), &lights), RGB::new(255, 0, 0));
}

#[test]
fn brighter_ambient_never_darkens() {
    let lights = vec![visible((100, 3, 0), (100, 4, 0)), LightSample::Occluded];
    let mut previous = shade(RGB::new(0, 0, 0), &lights);
    for level in 1..=255u8 {
        let next = shade(RGB::new(level, level, level), &lights);
        assert!(previous.r <= next.r);
        assert!(previous.g <= next.g);
        assert!(previous.b <= next.b);
        previous = next;
    }
    assert_eq!(previous, RGB::new(255, 255, 255));
}

#[test]
fn blocked_light_is_not_evaluated() {
    let shadow = |_: usize| (vec![-1, 500, 2000], 1000);
    let lit = |_: usize| -> (RGB, RGB) { panic!("an occluded light must not be evaluated") };
    let colour = colour_for_hit(RGB::new(5, 6, 7), 3, 10, &shadow, &lit);
    assert_eq!(colour, RGB::new(5, 6, 7));
}

#[test]
fn free_lights_are_evaluated_and_summed() {
    let shadow = |_: usize| (vec![-1, 5, 2000], 1000);
    let lit = |k: usize| (RGB::new(10 * (k as u8 + 1), 2, 3), RGB::new(4, 5, 6));
    let colour = colour_for_hit(RGB::new(1, 1, 1), 2, 10, &shadow, &lit);
    assert_eq!(colour, RGB::new(1 + 14 + 24, 1 + 7 + 7, 1 + 9 + 9));
}

#[test]
fn only_the_free_lights_count() {
    let shadow = |k: usize| if k == 1 { (vec![20], 1000) } else { (vec![-1], 1000) };
    let lit = |k: usize| {
        assert_ne!(k, 1);
        (RGB::new(100, 0, 0), RGB::new(0, 50, 0))
    };
    let colour = colour_for_hit(RGB::new(0, 0, 9), 3, 10, &shadow, &lit);
    assert_eq!(colour, RGB::new(200, 100, 9));
}

#[test]
fn no_light_sources_gives_ambient() {
    let shadow = |_: usize| -> (Vec<i64>, i64) { panic!("there is no light to look for") };
    let lit = |_: usize| -> (RGB, RGB) { panic!("there is no light to evaluate") };
    assert_eq!(colour_for_hit(RGB::new(3, 2, 1), 0, 10, &shadow, &lit), RGB::new(3, 2, 1));
}

#[test]
fn shadow_bounds_are_exclusive() {
    let lit = |_: usize| (RGB::new(9, 9, 9), RGB::new(0, 0, 0));
    let black = RGB::new(0, 0, 0);
    let at = |distance: i64| colour_for_hit(black, 1, 10, &|_| (vec![distance], 1000), &lit);
    assert_eq!(at(10), RGB::new(9, 9, 9));
    assert_eq!(at(1000), RGB::new(9, 9, 9));
    assert_eq!(at(11), black);
    assert_eq!(at(999), black);
}
