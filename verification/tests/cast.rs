use raytracer::cast::cast_ray;
use raytracer::cast::distance_key;
use raytracer::cast::nearest;
use raytracer::cast::offer;
use raytracer::cast::CastStep;
use raytracer::cast::Nearest;
use raytracer::cast::INFINITY_BITS;

fn bits(distance: f32) -> Option<u32> {
    Some(distance.to_bits())
}

#[test]
fn infinity_has_the_documented_pattern() {
    assert_eq!(f32::INFINITY.to_bits(), INFINITY_BITS);
}

#[test]
fn positive_finite_distances_are_usable() {
    assert_eq!(distance_key(1.5f32.to_bits()), Some(1.5f32.to_bits()));
    assert_eq!(distance_key(f32::MAX.to_bits()), Some(f32::MAX.to_bits()));
    assert_eq!(distance_key(f32::MIN_POSITIVE.to_bits()), Some(f32::MIN_POSITIVE.to_bits()));
    assert_eq!(distance_key(1), Some(1));
}

#[test]
fn other_distances_are_not_usable() {
    assert_eq!(distance_key(0.0f32.to_bits()), None);
    assert_eq!(distance_key((-0.0f32).to_bits()), None);
    assert_eq!(distance_key((-2.0f32).to_bits()), None);
    assert_eq!(distance_key(f32::INFINITY.to_bits()), None);
    assert_eq!(distance_key(f32::NEG_INFINITY.to_bits()), None);
    assert_eq!(distance_key(f32::NAN.to_bits()), None);
    assert_eq!(distance_key((1.0f32 / 0.0f32).to_bits()), None);
    assert_eq!(distance_key((0.0f32 / 0.0f32).to_bits()), None);
}

#[test]
fn usable_patterns_order_as_their_numbers() {
    let samples = [1.0e-45f32, 1.0e-40, 1.1754944e-38, 0.001, 0.5, 1.0, 1.0000001, 2.0, 3.5e10, f32::MAX];
    for i in 0..samples.len() {
        for j in 0..samples.len() {
            assert_eq!(samples[i] < samples[j], samples[i].to_bits() < samples[j].to_bits());
        }
    }
}

#[test]
fn nearest_picks_the_smallest_distance() {
    let hits = vec![bits(3.0), None, bits(1.5), bits(2.0)];
    assert_eq!(nearest(&hits), Some(Nearest { index: 2, key: 1.5f32.to_bits() }));
}

#[test]
fn nearest_keeps_the_first_of_equals() {
    let hits = vec![bits(4.0), bits(2.0), bits(2.0), bits(4.0)];
    assert_eq!(nearest(&hits), Some(Nearest { index: 1, key: 2.0f32.to_bits() }));
}

#[test]
fn nearest_skips_unusable_distances() {
    let hits = vec![bits(-1.0), bits(f32::NAN), bits(0.0), bits(f32::INFINITY), bits(7.0)];
    assert_eq!(nearest(&hits), Some(Nearest { index: 4, key: 7.0f32.to_bits() }));
    let none = vec![bits(-1.0), None, bits(f32::NAN)];
    assert_eq!(nearest(&none), None);
    assert_eq!(nearest(&Vec::new()), None);
}

#[test]
fn offer_replaces_only_on_strictly_smaller() {
    let best = Some(Nearest { index: 0, key: 2.0f32.to_bits() });
    assert_eq!(offer(best, 1, bits(2.0)), best);
    assert_eq!(offer(best, 1, bits(3.0)), best);
    assert_eq!(offer(best, 1, None), best);
    assert_eq!(offer(best, 1, bits(-1.0)), best);
    assert_eq!(offer(best, 1, bits(1.0)), Some(Nearest { index: 1, key: 1.0f32.to_bits() }));
    assert_eq!(offer(None, 5, bits(9.0)), Some(Nearest { index: 5, key: 9.0f32.to_bits() }));
    assert_eq!(offer(None, 5, bits(f32::INFINITY)), None);
}

#[test]
fn ray_without_bounces_is_background() {
    let hits = vec![bits(1.0), bits(0.5)];
    assert_eq!(cast_ray(&hits, 0), CastStep::Background);
    assert_eq!(cast_ray(&Vec::new(), 0), CastStep::Background);
}

#[test]
fn empty_scene_is_background() {
    for bounces in 0..=255u8 {
        assert_eq!(cast_ray(&Vec::new(), bounces), CastStep::Background);
    }
}

#[test]
fn ray_is_shaded_by_the_nearest_object() {
    let hits = vec![None, bits(2.5), bits(0.25), None];
    assert_eq!(cast_ray(&hits, 1), CastStep::Shade(2));
    assert_eq!(cast_ray(&hits, 2), CastStep::Shade(2));
    assert_eq!(cast_ray(&vec![None, None], 2), CastStep::Background);
}
