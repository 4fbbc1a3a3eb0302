use raytracer::cast::cast_ray;
use raytracer::cast::CastStep;
use raytracer::fidelity_consts::BOUNCES;
use raytracer::frame::Frame;
use raytracer::material::Material;
use raytracer::material::ShadePlan;
use raytracer::scheduler::row_column_count;
use raytracer::scheduler::tiles;
use raytracer::utils::clamp;

type Color = (f32, f32, f32);

struct Lamp {
    center: (f32, f32, f32),
    radius: f32,
    material: Material<Color>,
}

fn dot(a: (f32, f32, f32), b: (f32, f32, f32)) -> f32 {
    a.0 * b.0 + a.1 * b.1 + a.2 * b.2
}

/// Distance along the ray to the sphere, by the quadratic formula.
fn distance(lamp: &Lamp, origin: (f32, f32, f32), direction: (f32, f32, f32)) -> Option<f32> {
    let l = (origin.0 - lamp.center.0, origin.1 - lamp.center.1, origin.2 - lamp.center.2);
    let a = dot(direction, direction);
    let b = 2.0 * dot(direction, l);
    let c = dot(l, l) - lamp.radius * lamp.radius;
    let discr = b * b - 4.0 * a * c;
    if discr < 0.0 {
        return None;
    }
    let near = (-b - discr.sqrt()) / (2.0 * a);
    let far = (-b + discr.sqrt()) / (2.0 * a);
    let roots = vec![Some(near.to_bits()), Some(far.to_bits())];
    raytracer::cast::nearest(&roots).map(|found| f32::from_bits(found.key))
}

/// What one pixel shows: the light along its ray, colour times clamped intensity.
fn pixel(scene: &Vec<Lamp>, origin: (f32, f32, f32), direction: (f32, f32, f32), bounces: u8) -> Color {
    let hits: Vec<Option<u32>> =
        scene.iter().map(|lamp| distance(lamp, origin, direction).map(|d| d.to_bits())).collect();
    let (color, intensity) = match cast_ray(&hits, bounces) {
        CastStep::Background => ((0.0, 0.0, 0.0), 0.0),
        CastStep::Shade(index) => match scene[index].material.shade(bounces) {
            ShadePlan::Emit { tinted } => (
                if tinted { scene[index].material.texture_emission_color.unwrap() } else { (1.0, 1.0, 1.0) },
                scene[index].material.texture_emission_intensity.unwrap().0,
            ),
            _ => ((0.0, 0.0, 0.0), 0.0),
        },
    };
    let scale = clamp(intensity, 0.0, 1.0);
    (color.0 * scale, color.1 * scale, color.2 * scale)
}

fn lamp(emission_color: Color, emission_intensity: f32) -> Lamp {
    let mut material = Material::new();
    material.texture_emission_color = Some(emission_color);
    material.texture_emission_intensity = Some((emission_intensity, emission_intensity, emission_intensity));
    Lamp { center: (0.0, 0.0, -10.0), radius: 2.0, material }
}

#[test]
fn emissive_sphere_on_the_camera_axis() {
    let scene = vec![lamp((1.0, 0.52, 0.17), 0.75)];
    let center = pixel(&scene, (0.0, 0.0, 0.0), (0.0, 0.0, -1.0), BOUNCES);
    assert_eq!(center, (1.0 * 0.75, 0.52 * 0.75, 0.17 * 0.75));
    let one_bounce = pixel(&scene, (0.0, 0.0, 0.0), (0.0, 0.0, -1.0), 1);
    assert_eq!(one_bounce, center);
    let beside = pixel(&scene, (0.0, 0.0, 0.0), (1.0, 0.0, 0.0), BOUNCES);
    assert_eq!(beside, (0.0, 0.0, 0.0));
    let behind = pixel(&scene, (0.0, 0.0, 0.0), (0.0, 0.0, 1.0), BOUNCES);
    assert_eq!(behind, (0.0, 0.0, 0.0));
}

#[test]
fn bright_lamp_is_clamped_at_the_pixel() {
    let scene = vec![lamp((0.25, 0.5, 1.0), 10.0)];
    assert_eq!(pixel(&scene, (0.0, 0.0, 0.0), (0.0, 0.0, -1.0), BOUNCES), (0.25, 0.5, 1.0));
}

#[test]
fn nearer_lamp_hides_the_farther() {
    let mut far = lamp((1.0, 0.0, 0.0), 1.0);
    far.center = (0.0, 0.0, -30.0);
    let near = lamp((0.0, 1.0, 0.0), 1.0);
    let scene = vec![far, near];
    assert_eq!(pixel(&scene, (0.0, 0.0, 0.0), (0.0, 0.0, -1.0), BOUNCES), (0.0, 1.0, 0.0));
}

#[test]
fn spent_ray_sees_no_lamp() {
    let scene = vec![lamp((1.0, 1.0, 1.0), 1.0)];
    assert_eq!(pixel(&scene, (0.0, 0.0, 0.0), (0.0, 0.0, -1.0), 0), (0.0, 0.0, 0.0));
}

#[test]
fn empty_scene_renders_as_background() {
    let scene: Vec<Lamp> = Vec::new();
    for (width, height, cells) in [(1usize, 1usize, 1usize), (7, 5, 4), (16, 16, 16), (103, 64, 256), (3, 9, 100)] {
        let mut frame = Frame::new(width, height, (9.0f32, 9.0f32, 9.0f32));
        for tile in tiles(width, height, row_column_count(cells)) {
            let mut colors = Vec::new();
            for x in tile.min_x..tile.max_x {
                for y in tile.min_y..tile.max_y {
                    let direction = (x as f32 - width as f32 / 2.0, height as f32 / 2.0 - y as f32, -2.0);
                    colors.push(pixel(&scene, (0.0, 0.0, 0.0), direction, BOUNCES));
                }
            }
            frame.store_tile(&tile, &colors);
        }
        assert_eq!(frame.buffer().len(), width * height);
        assert!(frame.buffer().iter().all(|p| *p == (0.0, 0.0, 0.0)));
    }
}
