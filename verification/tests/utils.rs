use raytracer::fidelity_consts::BOUNCES;
use raytracer::fidelity_consts::CELLS;
use raytracer::fidelity_consts::RESOLUTION_X;
use raytracer::fidelity_consts::RESOLUTION_Y;
use raytracer::fidelity_consts::SAMPLE_COUNT;
use raytracer::fidelity_consts::TOTAL_BUFFER_SIZE;
use raytracer::timing::finish;
use raytracer::timing::start;
use raytracer::timing::stop;
use raytracer::utils::clamp;

#[test]
fn clamp_on_integers() {
    assert_eq!(clamp(5, 0, 10), 5);
    assert_eq!(clamp(-3, 0, 10), 0);
    assert_eq!(clamp(12, 0, 10), 10);
    assert_eq!(clamp(0, 0, 10), 0);
    assert_eq!(clamp(10, 0, 10), 10);
    assert_eq!(clamp(7u8, 7, 7), 7);
}

#[test]
fn clamp_on_reals() {
    assert_eq!(clamp(0.5f32, 0.0, 1.0), 0.5);
    assert_eq!(clamp(-0.5f32, 0.0, 1.0), 0.0);
    assert_eq!(clamp(1.5f32, 0.0, 1.0), 1.0);
    assert_eq!(clamp(300.0f32, 0.0, 255.0) as u8, 255);
    assert!(clamp(f32::NAN, 0.0, 1.0).is_nan());
}

#[test]
fn clamp_tests_the_lower_bound_first() {
    assert_eq!(clamp(1, 5, 3), 5);
    assert_eq!(clamp(4, 5, 3), 5);
    assert_eq!(clamp(9, 5, 3), 3);
}

#[test]
fn default_fidelity() {
    assert_eq!(RESOLUTION_Y, 64);
    assert_eq!(RESOLUTION_X, 103);
    assert_eq!(RESOLUTION_X, 1 + (RESOLUTION_Y as f32 * (16.0 / 10.0)) as usize);
    assert_eq!(TOTAL_BUFFER_SIZE, 6592);
    assert_eq!(SAMPLE_COUNT, 32);
    assert_eq!(BOUNCES, 2);
    assert_eq!(CELLS, 256);
}

#[test]
fn timing_hooks_do_nothing() {
    start("cast ray");
    stop("cast ray");
    finish("cast ray");
    stop("never started");
}

#[test]
fn standard_fidelity_is_the_default() {
    let fidelity = raytracer::fidelity_consts::Fidelity::standard();
    assert_eq!(fidelity.resolution_x, 103);
    assert_eq!(fidelity.resolution_y, 64);
    assert_eq!(fidelity.sample_count, 32);
    assert_eq!(fidelity.bounces, 2);
    assert_eq!(fidelity.cells, 256);
    assert_eq!(fidelity.buffer_size(), Some(6592));
    assert_eq!(fidelity.tiles().map(|grid| grid.len()), Some(256));
}

#[test]
fn fidelity_beyond_the_machine() {
    let mut fidelity = raytracer::fidelity_consts::Fidelity::standard();
    fidelity.resolution_x = usize::MAX;
    fidelity.resolution_y = 2;
    assert_eq!(fidelity.buffer_size(), None);
    fidelity.resolution_y = 1;
    assert_eq!(fidelity.buffer_size(), Some(usize::MAX));
    fidelity.resolution_y = 0;
    assert_eq!(fidelity.buffer_size(), Some(0));
}

#[test]
fn fidelity_without_tiles() {
    let mut fidelity = raytracer::fidelity_consts::Fidelity::standard();
    fidelity.cells = 0;
    assert_eq!(fidelity.tiles(), None);
    fidelity.cells = 1;
    assert_eq!(fidelity.tiles().map(|grid| grid.len()), Some(1));
    fidelity.cells = 7;
    assert_eq!(fidelity.tiles().map(|grid| grid.len()), Some(9));
}
