use lib_render::color::{make_average_color, RGBA32, RGBA8};
use lib_render::exact::{integer_root, Ratio};
use lib_render::filter::filters::{BoxFilter, MitchellFilter};
use lib_render::filter::{AnyFilter, Filter, FilterFactory};
use lib_render::geometry::obj3d::{GeoPoint, Mesh, Object, Triangle};
use lib_render::img::{Image, Pixel as ImagePixel};
use lib_render::light::point_light::PointLight;
use lib_render::light::{Light, LightObject};
use lib_render::material::channel::{Channel, NormalMap, Texture, TextureMap};
use lib_render::material::flat_material::FlatMaterial;
use lib_render::math::{Vector2, Vector3, VectorialOperations};
use lib_render::ray::Ray;
use lib_render::renderer::block::Block;
use lib_render::renderer::render::Renderer;
use lib_render::renderer::{assign_slots, Pixel};
use lib_render::sampler::samplers::{
    get_halton, has_halton, rounded_sqrt, AnySampler, DefaultSampler, HaltonSampler,
};
use lib_render::sampler::{SamplableArea, Sample, Sampler, SamplerFactory};
use lib_render::scene::{Camera, World};

#[test]
fn test_image_superposition() {
    let mut image1: Image<RGBA32> = Image::new(40, 40);
    let mut image2: Image<RGBA32> = Image::new(10, 10);

    for x in 0..image2.width() {
        for y in 0..image2.height() {
            image2.write_pixel_at(x, y, RGBA32::new_white());
        }
    }
    assert_eq!(image2.get_pixel_at(5, 5), RGBA32::new_white());
    println!("{}x{}", image1.width(), image1.height());
    image1.superpose_sub_image(image2, 30, 30);
    assert_eq!(image1.get_pixel_at(39, 39), RGBA32::new_white());
    assert_eq!(image1.get_pixel_at(30, 30), RGBA32::new_white());
    assert_eq!(image1.get_pixel_at(29, 30), RGBA32::new_black());
    assert_eq!(image1.get_pixel_at(30, 29), RGBA32::new_black());
    assert_eq!(image1.get_pixel_at(0, 0), RGBA32::new_black());
}

#[test]
fn test_image_from_columns() {
    let a = RGBA8::new(&1, &2, &3, &4);
    let b = RGBA8::new(&5, &6, &7, &8);
    let c = RGBA8::new(&9, &10, &11, &12);
    let image = Image::from_vec_vec(&[vec![a, b, c], vec![c, a, b]]);
    assert_eq!(image.width(), 2);
    assert_eq!(image.height(), 3);
    assert_eq!(image.get_pixel_at(0, 1), b);
    assert_eq!(image.get_pixel_at(1, 0), c);
    assert_eq!(image.get_pixel_at(1, 2), b);
    assert_eq!(b.to_rgb_pixel(), (5, 6, 7));
    assert_eq!(b.to_rgba_pixel(), (5, 6, 7, 8));
    assert_eq!(b.to_rgba32().to_rgba_pixel(), (5, 6, 7, 8));
    assert_eq!(RGBA32::new(&16777216, &33554431, &0, &4294967295).to_rgb_pixel(), (1, 1, 0));
}

#[test]
fn test_average_color() {
    let colors = [
        RGBA32::new(&10, &0, &4000000000, &7),
        RGBA32::new(&20, &1, &4000000000, &7),
        RGBA32::new(&31, &1, &4000000001, &7),
    ];
    assert_eq!(make_average_color(&colors), RGBA32::new(&20, &0, &4000000000, &4294967295));
    let c = RGBA32::new(&123, &456, &789, &0);
    assert_eq!(make_average_color(&[c, c, c, c, c]), RGBA32::new(&123, &456, &789, &4294967295));
}

#[test]
fn test_color_products() {
    let white = RGBA32::new_white();
    let c = RGBA32::new(&1000, &0, &4294967295, &2147483648);
    assert_eq!(c * white, c);
    assert_eq!(c * RGBA32::new(&0, &5, &2147483648, &2147483648), RGBA32::new(&0, &0, &2147483648, &1073741824));
    assert_eq!(RGBA32::new(&3, &65536, &4294967295, &0).square(), (9, 4294967296, 18446744065119617025));
    assert_eq!(RGBA8::new_black(), RGBA8::new(&0, &0, &0, &255));
    assert_eq!(RGBA32::new_black(), RGBA32::new(&0, &0, &0, &4294967295));
    assert_eq!((c.r(), c.g(), c.b(), c.a()), (1000, 0, 4294967295, 2147483648));
    let d = RGBA8::new(&1, &2, &3, &4);
    assert_eq!((d.r(), d.g(), d.b(), d.a()), (1, 2, 3, 4));
}

#[test]
fn test_square_roots() {
    assert_eq!(rounded_sqrt(0), 0);
    assert_eq!(rounded_sqrt(1), 1);
    assert_eq!(rounded_sqrt(2), 1);
    assert_eq!(rounded_sqrt(3), 2);
    assert_eq!(rounded_sqrt(6), 2);
    assert_eq!(rounded_sqrt(7), 3);
    assert_eq!(rounded_sqrt(15), 4);
    assert_eq!(rounded_sqrt(16), 4);
    assert_eq!(rounded_sqrt(4294967295), 65536);
    assert_eq!(integer_root(0), 0);
    assert_eq!(integer_root(50000000), 7071);
    assert_eq!(integer_root(18446744073709551615), 4294967295);
}

#[test]
fn test_halton_sequence() {
    assert_eq!(get_halton(0, 2), Ratio::new(0, 1));
    assert_eq!(get_halton(1, 2), Ratio::new(1, 2));
    assert_eq!(get_halton(2, 2), Ratio::new(1, 4));
    assert_eq!(get_halton(3, 2), Ratio::new(3, 4));
    assert_eq!(get_halton(6, 2), Ratio::new(3, 8));
    assert_eq!(get_halton(1, 3), Ratio::new(1, 3));
    assert_eq!(get_halton(2, 3), Ratio::new(2, 3));
    assert_eq!(get_halton(3, 3), Ratio::new(1, 9));
    assert_eq!(get_halton(5, 3), Ratio::new(7, 9));
    assert_eq!(get_halton(65535, 2), Ratio::new(65535, 65536));
    // Any base and any number will do, as long as the digits span no more
    // than the finest grain, 1048576.
    assert_eq!(get_halton(1048575, 2), Ratio::new(1048575, 1048576));
    assert_eq!(get_halton(7, 1048576), Ratio::new(7, 1048576));
    assert_eq!(get_halton(1000, 1000), Ratio::new(1, 1000000));
    assert!(has_halton(1048575, 2));
    assert!(has_halton(1000, 1000));
    assert!(has_halton(0, 4000000000));
    assert!(!has_halton(1048576, 2));
    assert!(!has_halton(1, 1048577));
    assert!(!has_halton(5, 1));
    assert!(!has_halton(5, 0));
    let points = HaltonSampler::new(64).get_sample_distribution();
    assert_eq!(points.len(), 64);
    for i in 0..points.len() {
        for j in 0..i {
            assert!(!points[i].x.same_value(&points[j].x));
        }
    }
    assert_eq!(points[3], Vector2::new(Ratio::new(3, 4), Ratio::new(1, 9)));
}

#[test]
fn test_regular_grid() {
    let sampler = DefaultSampler::new(10);
    assert_eq!(sampler.sample_square_root, 3);
    let points = sampler.get_sample_distribution();
    assert_eq!(points.len(), 9);
    assert_eq!(points[0], Vector2::new(Ratio::new(1, 6), Ratio::new(1, 6)));
    assert_eq!(points[5], Vector2::new(Ratio::new(3, 6), Ratio::new(5, 6)));
    // Each cell of the grid holds one point.
    for i in 0..3 {
        for j in 0..3 {
            let inside = points
                .iter()
                .filter(|p| {
                    i * p.x.den <= 3 * p.x.num
                        && 3 * p.x.num < (i + 1) * p.x.den
                        && j * p.y.den <= 3 * p.y.num
                        && 3 * p.y.num < (j + 1) * p.y.den
                })
                .count();
            assert_eq!(inside, 1);
        }
    }
    assert_eq!(DefaultSampler::new(0).get_sample_distribution().len(), 0);
    // The side of the grid is the nearest root of the rate.
    assert_eq!(DefaultSampler::new(8).get_sample_distribution().len(), 9);
    assert_eq!(DefaultSampler::new(6).get_sample_distribution().len(), 4);
}

#[test]
fn test_samples_fall_in_their_pixels() {
    let mut block = Block::new(3, 2, 10, 20);
    assert_eq!(block.dimensions(), (3, 2));
    assert_eq!((block.position_x(), block.position_y()), (10, 20));
    assert_eq!(block.pixels().len(), 6);
    let sampler = (SamplerFactory::DefaultSampler { subdivision_sampling: 4 }).create_sampler();
    sampler.create_samples(&mut block);
    for y in 0..2 {
        for x in 0..3 {
            let pixel = block.get_pixel(x, y);
            assert_eq!((pixel.x(), pixel.y()), (x, y));
            let samples = pixel.samples();
            assert_eq!(samples.len(), 4);
            // (10 + x + 1/4) = (40 + 4 x + 1) * 3 / 12
            assert_eq!(samples[0].position().x, Ratio::new(((x as i64) * 4 + 1) * 3 + 10 * 12, 12));
            assert_eq!(samples[0].position().y, Ratio::new(((y as i64) * 4 + 1) * 2 + 20 * 8, 8));
            assert_eq!(samples[3].position().x, Ratio::new(((x as i64) * 4 + 3) * 3 + 10 * 12, 12));
            assert_eq!(samples[0].color, RGBA32::new_black());
        }
    }
    let mut other = Block::new(2, 2, 0, 0);
    other.add_sample(Sample::new(Ratio::new(3, 2), Ratio::new(1, 3)));
    assert_eq!(other.get_pixel(1, 0).samples().len(), 1);
    assert_eq!(other.get_pixel(0, 0).samples().len(), 0);
    assert_eq!(SamplableArea::dimensions(&other), (2, 2));
    assert_eq!(other.offset(), Vector2::new(0, 0));
    assert_eq!((other.pixel_width(), other.pixel_height()), (2, 2));
    match (SamplerFactory::HaltonSampler { subdivision_sampling: 7 }).create_sampler() {
        AnySampler::Halton(s) => assert_eq!(s.sample_rate, 7),
        _ => panic!("a Halton sampler was asked for"),
    }
}

fn pixel_with(colors: &[RGBA32], places: &[(i64, i64)]) -> Pixel {
    let mut pixel = Pixel::new(2, 3);
    for (color, place) in colors.iter().zip(places) {
        let mut sample = Sample::new(Ratio::new(place.0, 16), Ratio::new(place.1, 16));
        sample.color = *color;
        pixel.add_sample(sample);
    }
    pixel
}

#[test]
fn test_box_filter_is_the_mean() {
    let colors = [
        RGBA32::new(&100, &0, &9, &1),
        RGBA32::new(&200, &10, &9, &1),
        RGBA32::new(&301, &20, &9, &1),
    ];
    let pixel = pixel_with(&colors, &[(40, 56), (41, 57), (47, 63)]);
    let filter = BoxFilter::default();
    assert_eq!(filter.compute_color(&pixel, (0, 0)), RGBA32::new(&200, &10, &9, &4294967295));
    assert_eq!(filter.compute_color(&pixel, (0, 0)), make_average_color(&colors));
    assert_eq!(filter.compute_color(&Pixel::new(0, 0), (0, 0)), RGBA32::new_black());
    assert_eq!(pixel.get_average_color(), RGBA32::new(&200, &10, &9, &4294967295));
}

#[test]
fn test_mitchell_filter() {
    let mut filter = MitchellFilter::default();
    filter.set_image_size(640, 480);
    assert_eq!(filter.image_size, Vector2::new(640, 480));
    // Samples of one colour give that colour, wherever they are.
    let c = RGBA32::new(&77, &4000000000, &5, &9);
    let pixel = pixel_with(&[c, c, c, c], &[(32, 48), (39, 49), (47, 63), (40, 56)]);
    assert_eq!(filter.compute_color(&pixel, (0, 0)), RGBA32::new(&77, &4000000000, &5, &4294967295));
    // A sample at the centre of the pixel weighs (16/18)^2; one at a corner
    // weighs (1/18)^2: the kernel at 0 is 16/18 and at 1 it is 1/18.
    let a = RGBA32::new(&257000, &0, &0, &0);
    let b = RGBA32::new(&0, &257000, &0, &0);
    let pixel = pixel_with(&[a, b], &[(40, 56), (48, 64)]);
    assert_eq!(filter.compute_color(&pixel, (0, 0)), RGBA32::new(&256000, &1000, &0, &4294967295));
    // The place of the block counts.
    let pixel = pixel_with(&[a, b], &[(40 + 160, 56), (48 + 160, 64)]);
    assert_eq!(filter.compute_color(&pixel, (10, 0)), RGBA32::new(&256000, &1000, &0, &4294967295));
    assert_eq!(filter.compute_color(&Pixel::new(0, 0), (0, 0)), RGBA32::new_black());
    match FilterFactory::MitchellFilter.create_filter(3, 4) {
        AnyFilter::Mitchell(f) => assert_eq!(f.image_size, Vector2::new(3, 4)),
        _ => panic!("a Mitchell filter was asked for"),
    }
    let boxed = FilterFactory::BoxFilter.create_filter(3, 4);
    assert_eq!(boxed.compute_color(&pixel_with(&[a, b], &[(0, 0), (1, 1)]), (0, 0)), RGBA32::new(&128500, &128500, &0, &4294967295));
}

#[test]
fn test_blocks_tile_the_image() {
    let mut renderer = Renderer::new(25, 17);
    let blocks = renderer.generate_blocks();
    // One narrow block, two low ones, the corner, and two square ones.
    assert_eq!(blocks.len(), 1 + 2 + 1 + 2);
    assert_eq!((blocks[0].dimensions(), blocks[0].position_x(), blocks[0].position_y()), ((5, 10), 20, 0));
    assert_eq!((blocks[1].dimensions(), blocks[1].position_x(), blocks[1].position_y()), ((10, 7), 0, 10));
    assert_eq!((blocks[2].dimensions(), blocks[2].position_x(), blocks[2].position_y()), ((10, 7), 10, 10));
    assert_eq!((blocks[3].dimensions(), blocks[3].position_x(), blocks[3].position_y()), ((5, 7), 20, 10));
    assert_eq!((blocks[4].dimensions(), blocks[4].position_x(), blocks[4].position_y()), ((10, 10), 0, 0));
    assert_eq!((blocks[5].dimensions(), blocks[5].position_x(), blocks[5].position_y()), ((10, 10), 10, 0));
    let mut seen = vec![0u32; 25 * 17];
    for block in &blocks {
        let (w, h) = block.dimensions();
        for x in 0..w {
            for y in 0..h {
                seen[((block.position_x() + x) + 25 * (block.position_y() + y)) as usize] += 1;
            }
        }
    }
    assert!(seen.iter().all(|n| *n == 1));
    assert_eq!(renderer.compute_ratio(), Ratio::new(25, 17));
    renderer.set_resolution(20, 30);
    assert_eq!(renderer.generate_blocks().len(), 6);
    renderer.set_resolution(7, 3);
    let small = renderer.generate_blocks();
    assert_eq!(small.len(), 1);
    assert_eq!(small[0].dimensions(), (7, 3));
}

fn small_world() -> World {
    let mut mesh = Mesh::new_empty();
    let normal = Vector3::new(0, -100, 0);
    let a = GeoPoint::new(Vector3::new(100, 0, 100), normal, None);
    let b = GeoPoint::new(Vector3::new(-100, 0, 100), normal, None);
    let c = GeoPoint::new(Vector3::new(0, 0, -100), normal, None);
    mesh.add_triangle(Triangle::new(a, b, c));
    let mut object = Object::new_empty();
    object.position = Vector3::new(0, 0, 0);
    assert!(object.initialize(mesh));
    object.material.diffuse = Channel::Solid { color: RGBA8::new(&255, &128, &0, &255) };
    let mut world = World::new_empty();
    world.add_object(object);
    world.add_camera(Vector3::new(0, -400, 0), Vector3::new(0, 0, 0));
    world.cameras[0].clip = 100;
    world.cameras[0].set_fov(Ratio::new(1, 2));
    world
}

#[test]
fn test_rendering_twice_gives_the_same_image() {
    let world = small_world();
    let mut renderer = Renderer::new(12, 9);
    renderer.bucket_size = 5;
    renderer.background_color = RGBA8::new(&0, &0, &64, &255);
    for sampler in [
        SamplerFactory::HaltonSampler { subdivision_sampling: 4 },
        SamplerFactory::DefaultSampler { subdivision_sampling: 4 },
    ] {
        renderer.sampler_factory = sampler;
        for filter in [FilterFactory::BoxFilter, FilterFactory::MitchellFilter] {
            renderer.filter_factory = filter;
            let first = renderer.render(&world, world.get_camera(0)).unwrap();
            let second = renderer.render(&world, world.get_camera(0)).unwrap();
            assert_eq!((first.width(), first.height()), (12, 9));
            let mut object_seen = false;
            let mut background_seen = false;
            for x in 0..12 {
                for y in 0..9 {
                    assert_eq!(first.get_pixel_at(x, y), second.get_pixel_at(x, y));
                    let c = first.get_pixel_at(x, y).to_rgba8();
                    object_seen = object_seen || c == RGBA8::new(&255, &128, &0, &255);
                    background_seen = background_seen || c == RGBA8::new(&0, &0, &64, &255);
                }
            }
            assert!(object_seen);
            assert!(background_seen);
            // The middle of the picture looks at the triangle.
            assert_eq!(first.get_pixel_at(6, 4).to_rgba8(), RGBA8::new(&255, &128, &0, &255));
            assert_eq!(first.get_pixel_at(0, 0).to_rgba8(), RGBA8::new(&0, &0, &64, &255));
        }
    }
}

#[test]
fn test_a_camera_out_of_the_lattice_is_refused() {
    let mut world = small_world();
    let renderer = Renderer::new(4, 4);
    assert!(renderer.render(&world, world.get_camera(0)).is_some());
    // The canvas of this camera is farther than the lattice reaches: no
    // ray can be made, and no picture comes out, not even of background.
    world.cameras[0].clip = 8192;
    world.cameras[0].set_fov(Ratio::new(2, 1));
    assert!(world.get_camera(0).is_valid());
    assert!(world.get_camera(0).get_canvas_base(Ratio::new(1, 1)).is_none());
    assert!(renderer.render(&world, world.get_camera(0)).is_none());
    let mut pixel = Pixel::new(0, 0);
    pixel.add_sample(Sample::new(Ratio::new(1, 2), Ratio::new(1, 2)));
    assert!(!renderer.calculate_rays(&world, world.get_camera(0), &mut pixel));
}

#[test]
fn test_the_nearest_object_is_found() {
    let mut world = small_world();
    let mut mesh = Mesh::new_empty();
    let corner = |x, y, z| GeoPoint::new(Vector3::new(x, y, z), Vector3::new(0, -100, 0), None);
    mesh.add_triangle(Triangle::new(corner(100, 0, 100), corner(-100, 0, 100), corner(0, 0, -100)));
    let mut nearer = Object::new_empty();
    nearer.position = Vector3::new(0, -50, 0);
    assert!(nearer.initialize(mesh));
    nearer.material.diffuse = Channel::Solid { color: RGBA8::new(&1, &2, &3, &255) };
    world.add_object(nearer);
    let renderer = Renderer::new(8, 8);
    for order in [[0usize, 1], [1, 0]] {
        let objects: Vec<&Object> = order.iter().map(|i| &world.objects()[*i]).collect();
        let mut ray = Ray::new(Vector3::new(0, -100, 0), Vector3::new(0, 100, 0));
        let found = renderer.calculate_ray_intersection(&objects, &mut ray).unwrap();
        // The triangle at -50 is hit at the parameter one half, before the
        // triangle at 0.
        assert!(found.fragment.param.same_value(&Ratio::new(1, 2)));
        assert_eq!(ray.max_t, Some(found.fragment.param));
        assert_eq!(found.ray, ray);
        assert_eq!(found.get_point_color(&world, &renderer.textures), Some(RGBA8::new(&1, &2, &3, &255).to_rgba32()));
    }
    let none: Vec<&Object> = Vec::new();
    let mut ray = Ray::new(Vector3::new(0, -100, 0), Vector3::new(0, 100, 0));
    assert!(renderer.calculate_ray_intersection(&none, &mut ray).is_none());
    // An object that is not visible is not seen.
    world.objects[1].visible = false;
    let mut pixel = Pixel::new(0, 0);
    pixel.add_sample(Sample::new(Ratio::new(4, 1), Ratio::new(4, 1)));
    world.cameras[0].clip = 100;
    assert!(renderer.calculate_rays(&world, world.get_camera(0), &mut pixel));
    assert_eq!(pixel.samples()[0].color, RGBA8::new(&255, &128, &0, &255).to_rgba32());
    world.objects[1].visible = true;
    assert!(renderer.calculate_rays(&world, world.get_camera(0), &mut pixel));
    assert_eq!(pixel.samples()[0].color, RGBA8::new(&1, &2, &3, &255).to_rgba32());
}

#[test]
fn test_lit_material() {
    let plain = RGBA8::new(&255, &128, &0, &255).to_rgba32();
    let shade = |light: Vector3<i64>| {
        let mut world = small_world();
        world.lights.push(LightObject::Point {
            point: PointLight { position: light, color: RGBA32::new_white(), intensity: 65536 },
        });
        let mut ray = Ray::new(Vector3::new(0, -100, 0), Vector3::new(0, 100, 0));
        let found = world.objects()[0].get_intersection_point(&mut ray).unwrap();
        found.get_point_color(&world, &Vec::new()).unwrap()
    };
    // Without a light a material has its plain colour.
    let world = small_world();
    let mut ray = Ray::new(Vector3::new(0, -100, 0), Vector3::new(0, 100, 0));
    let found = world.objects()[0].get_intersection_point(&mut ray).unwrap();
    assert_eq!(found.get_point_color(&world, &Vec::new()), Some(plain));
    // A light before the front of the triangle: the quick test finds the
    // triangle itself on the way of the light, and the point is dark.
    assert_eq!(shade(Vector3::new(300, -300, 0)), RGBA32::new(&0, &0, &0, &4278190080));
    // A light behind the triangle reaches the point at a slant: the
    // cosine is 30000 / (424 * 100), that is 46369 on the scale of 65536.
    assert_eq!(
        shade(Vector3::new(300, 300, 0)),
        RGBA32::new(&3026968320, &1519419392, &0, &4278190080)
    );
}

#[test]
fn test_camera_canvas_base() {
    // One unit of the scene is a thousand steps of the lattice.
    let mut cam = Camera::new(
        Vector3::new(4000, 4000, 4000),
        Vector3::new(-1000, -1000, 4000),
        Vector3::new(0, 0, 1),
    );
    cam.set_fov(Ratio::new(1, 1));
    cam.clip = 1414;
    assert!(cam.is_valid());
    let (origin, vec1, vec2) = cam.get_canvas_base(Ratio::new(1, 1)).unwrap();
    // Each vector is less than a step, a thousandth of a unit, from where
    // it should be.
    assert!((origin - Vector3::new(4000, 2000, 4000 + 1414)).norm_squared() < 1);
    assert!((vec1 - Vector3::new(-2000, 2000, 0)).norm_squared() < 1);
    assert!((vec2 - Vector3::new(0, 0, -2828)).norm_squared() < 1);
    // The ray through the middle of the picture goes along the aim.
    let ray = cam
        .create_ray_from_sample(&Sample::new(Ratio::new(1, 2), Ratio::new(1, 2)), Ratio::new(1, 1), 1, 1)
        .unwrap();
    assert_eq!(ray.origin(), Vector3::new(4000, 4000, 4000));
    assert_eq!(ray.slope(), Vector3::new(-1000, -1000, 0));
    assert_eq!(ray.max_t, None);
    // The same camera on a lattice of 985 steps to the unit, where the
    // clip distance, the square root of two, is 1393 steps.
    let mut other = Camera::new(
        Vector3::new(3940, 3940, 3940),
        Vector3::new(-985, -985, 3940),
        Vector3::new(0, 0, 985),
    );
    other.set_fov(Ratio::new(1, 1));
    other.clip = 1393;
    assert_eq!(
        other.get_canvas_base(Ratio::new(1, 1)),
        Some((Vector3::new(3940, 1970, 5333), Vector3::new(-1970, 1970, 0), Vector3::new(0, 0, -2786)))
    );
    // A picture twice as wide as it is high has a canvas half as high.
    assert_eq!(
        other.get_canvas_base(Ratio::new(2, 1)),
        Some((Vector3::new(3940, 1970, 4637), Vector3::new(-1970, 1970, 0), Vector3::new(0, 0, -1393)))
    );
    // A camera that looks nowhere, or straight up, is not valid.
    assert!(!Camera::new(Vector3::new(1, 1, 1), Vector3::new(1, 1, 1), Vector3::new(0, 0, 1)).is_valid());
    assert!(!Camera::new(Vector3::new(1, 1, 1), Vector3::new(1, 1, 9), Vector3::new(0, 0, 1)).is_valid());
    // A canvas that leaves the lattice is refused.
    cam.clip = 8000;
    assert!(cam.get_canvas_base(Ratio::new(1, 1)).is_none());
}

#[test]
fn test_lights_and_shadows() {
    let mut world = small_world();
    let light = PointLight { position: Vector3::new(0, -300, 0), color: RGBA32::new_white(), intensity: 65536 };
    let point = Vector3::new(0, 100, 0);
    let rays = light.emit_rays(&point, &world);
    assert_eq!(rays.len(), 1);
    assert_eq!(rays[0].origin(), Vector3::new(0, -300, 0));
    assert_eq!(rays[0].slope(), Vector3::new(0, 400, 0));
    assert_eq!(rays[0].max_t, Some(Ratio::new(999, 1000)));
    assert_eq!(light.intensity(), 65536);
    // The triangle stands between the light and the point.
    assert!(!light.visible(&point, &world));
    assert!(light.visible(&Vector3::new(500, 100, 0), &world));
    let mut ray = Ray::new(Vector3::new(0, -300, 0), Vector3::new(0, 400, 0));
    assert!(world.is_occluded(&mut ray));
    let mut ray = Ray::new(Vector3::new(0, -300, 0), Vector3::new(400, 400, 0));
    assert!(!world.is_occluded(&mut ray));
    world.lights.push(LightObject::Point { point: light });
    assert_eq!(world.lights().len(), 1);
    assert_eq!(world.lights()[0].as_trait().intensity, 65536);
    assert_eq!(world.objects().len(), 1);
}

#[test]
fn test_channels() {
    let solid = Channel::Solid { color: RGBA8::new(&1, &2, &3, &4) };
    let texture = Channel::TextureMap { texture: TextureMap::new("wood.png".to_string(), 2, 1) };
    let normal = Channel::NormalMap { normal: NormalMap {} };
    assert!(solid.is_solid() && !solid.is_texture());
    assert!(texture.is_texture() && !texture.is_solid());
    assert!(!normal.is_texture() && !normal.is_solid());
    assert_eq!(texture.get_texture_path(), "wood.png");
    let empty_map = TextureMap::new_empty();
    assert_eq!((empty_map.tiling_x, empty_map.tiling_y, empty_map.slot), (1, 1, 0));
    assert_eq!(empty_map.get_map_path(), "/empty/map/path");
    let mut material = FlatMaterial::new_empty();
    assert_eq!(material.get_texture_paths().len(), 0);
    material.specular = texture.clone();
    material.ambient = Channel::TextureMap { texture: TextureMap::new("iron.png".to_string(), 1, 1) };
    assert_eq!(material.get_texture_paths(), vec!["wood.png".to_string(), "iron.png".to_string()]);

    let world = small_world();
    let mut ray = Ray::new(Vector3::new(0, -100, 0), Vector3::new(0, 100, 0));
    let frag = lib_render::ray::Surface::get_intersection_fragment(&world.objects()[0], &mut ray).unwrap();
    assert_eq!(solid.get_color(&frag, None, None, None), Some(RGBA8::new(&1, &2, &3, &4).to_rgba32()));
    // The normal points down the second axis: (1 + (0, -1, 0)) / 2.
    let shown = normal.get_color(&frag, None, None, None).unwrap();
    assert_eq!(shown.to_rgba8(), RGBA8::new(&127, &0, &127, &255));
    assert_eq!(normal.get_color(&frag, Some(0), Some(0), None), None);
    // An image of two columns and one line, repeated twice along the lines.
    let red = RGBA8::new(&255, &0, &0, &255);
    let blue = RGBA8::new(&0, &0, &255, &255);
    let register = vec![Image::from_vec_vec(&[vec![red], vec![blue]])];
    assert_eq!(texture.get_color(&frag, Some(0), Some(0), Some(&register)), Some(red.to_rgba32()));
    assert_eq!(texture.get_color(&frag, Some(2048), Some(0), Some(&register)), Some(blue.to_rgba32()));
    assert_eq!(texture.get_color(&frag, Some(4096), Some(0), Some(&register)), Some(red.to_rgba32()));
    assert_eq!(texture.get_color(&frag, Some(-5), Some(0), Some(&register)), Some(red.to_rgba32()));
    assert_eq!(texture.get_color(&frag, Some(0), Some(0), None), None);
    assert_eq!(texture.get_color(&frag, None, None, None), None);
    let empty: Vec<Image<RGBA8>> = Vec::new();
    assert_eq!(texture.get_color(&frag, Some(0), Some(0), Some(&empty)), None);
    let map = TextureMap::new("wood.png".to_string(), 1, 1);
    assert_eq!(Texture::get_color(&map, &frag, Some(8191), Some(0), Some(&register)), Some(blue.to_rgba32()));
}

#[test]
fn test_texture_slots() {
    let paths: Vec<String> =
        ["wood.png", "stone.png", "wood.png", "sky.png", "stone.png"].iter().map(|p| p.to_string()).collect();
    let (slots, register) = assign_slots(&paths);
    assert_eq!(slots, vec![0, 1, 0, 2, 1]);
    assert_eq!(register, vec!["wood.png".to_string(), "stone.png".to_string(), "sky.png".to_string()]);
    let (slots, register) = assign_slots(&Vec::new());
    assert!(slots.is_empty() && register.is_empty());
}
