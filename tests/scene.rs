use pathtracer::axis::{Axis, PlaneType};
use pathtracer::materials::{EmissiveDiffuse, Lambertian};
use pathtracer::mesh::face_corners;
use pathtracer::pixel_map::{PixelMap, Rotate};
use pathtracer::random::random_int;
use pathtracer::render::pixel_position;
use pathtracer::world::{RenderParams, World};

#[test]
fn rotation_frames() {
    assert_eq!(Axis::X.get_axis(), (0, 1, 2));
    assert_eq!(Axis::Y.get_axis(), (1, 2, 0));
    assert_eq!(Axis::Z.get_axis(), (2, 0, 1));
}

#[test]
fn rectangle_frames() {
    assert_eq!(PlaneType::YZ.get_axis(), (0, 1, 2));
    assert_eq!(PlaneType::ZX.get_axis(), (1, 2, 0));
    assert_eq!(PlaneType::XY.get_axis(), (2, 0, 1));
}

#[test]
fn random_int_stays_in_range() {
    for _ in 0..1000 {
        let r = random_int(3, 7);
        assert!(3 <= r && r < 7);
    }
    assert_eq!(random_int(5, 6), 5);
}

#[test]
fn pixel_map_needs_matching_size() {
    assert!(PixelMap::new(vec![1u8, 2, 3, 4, 5, 6], 3, 2).is_some());
    assert!(PixelMap::new(vec![1u8, 2, 3, 4, 5], 3, 2).is_none());
    assert!(PixelMap::new(Vec::<u8>::new(), 0, 0).is_none());
    assert!(PixelMap::new(vec![1u8, 2, 3], 0, 3).is_none());
}

#[test]
fn pixel_map_reads_row_major_and_clamps() {
    let map = PixelMap::new(vec![10u8, 11, 12, 20, 21, 22], 3, 2).unwrap();
    assert_eq!(map.width(), 3);
    assert_eq!(map.height(), 2);
    assert_eq!(map.get_pixel((0, 0)), 10);
    assert_eq!(map.get_pixel((2, 0)), 12);
    assert_eq!(map.get_pixel((1, 1)), 21);
    assert_eq!(map.get_pixel((3, 1)), 22);
    assert_eq!(map.get_pixel((100, 100)), 22);
    assert_eq!(map.get_pixel((0, 9)), 20);
}

#[test]
fn rotations_are_distinct() {
    assert_ne!(Rotate::R0, Rotate::R90);
    assert_ne!(Rotate::R180, Rotate::R270);
}

#[test]
fn output_rows_run_from_the_top() {
    // 4 by 3 image: slot 0 is the top-left pixel, which is row 2 from the bottom.
    assert_eq!(pixel_position(0, 4, 3), (0, 2));
    assert_eq!(pixel_position(3, 4, 3), (3, 2));
    assert_eq!(pixel_position(4, 4, 3), (0, 1));
    assert_eq!(pixel_position(11, 4, 3), (3, 0));
    assert_eq!(pixel_position(0, 1, 1), (0, 0));
}

#[test]
fn face_corners_of_two_triangles() {
    let indices = vec![0u32, 1, 2, 2, 1, 3, 7];
    let corners = face_corners(&indices, 12).unwrap();
    assert_eq!(corners, vec![(0, 3, 6), (6, 3, 9)]);
}

#[test]
fn face_corners_refuses_missing_vertex() {
    let indices = vec![0u32, 1, 4];
    assert!(face_corners(&indices, 12).is_none());
    assert!(face_corners(&indices, 14).is_none());
    assert!(face_corners(&indices, 15).is_some());
}

#[test]
fn face_corners_of_empty_mesh() {
    assert_eq!(face_corners(&Vec::new(), 0), Some(Vec::new()));
}

#[test]
fn world_defaults_and_builders() {
    let world: World<u8, u8, &str> = World::new("sky");
    assert_eq!(world.params(), RenderParams::new(800, 128, 50));
    let world = world.width(1000).samples_per_pixel(256).max_depth(10);
    let p = world.params();
    assert_eq!((p.width(), p.samples_per_pixel(), p.max_depth()), (1000, 256, 10));
    assert_eq!(*world.skybox(), "sky");
}

#[test]
fn lights_are_objects_too() {
    let mut world: World<char, u8, ()> = World::new(());
    assert_eq!(world.pick_light(), None);
    world.add('a');
    world.add_light('b');
    world.add('c');
    world.add_light('d');
    assert_eq!(world.objects(), &vec!['a', 'b', 'c', 'd']);
    assert_eq!(world.lights(), &vec![1, 3]);
    for _ in 0..100 {
        let i = world.pick_light().unwrap();
        assert!(i == 1 || i == 3);
    }
}

#[test]
fn textures_are_found_by_index() {
    let mut world: World<(), &str, ()> = World::new(());
    let a = world.add_texture("white");
    let b = world.add_texture("checker");
    assert_eq!((a, b), (0, 1));
    assert_eq!(world.texture(1), Some(&"checker"));
    assert_eq!(world.texture(2), None);
    assert_eq!(Lambertian::new(b).texture(), 1);
    assert_eq!(EmissiveDiffuse::new(a).texture(), 0);
}
