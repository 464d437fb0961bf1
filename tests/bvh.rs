use pathtracer::aabb::{surrounding_box, Aabb, Keys3};
use pathtracer::bvh::{BuildError, BvhNode, BvhTree};

fn cube(lo: i32, hi: i32) -> Aabb {
    Aabb { min: Keys3 { x: lo, y: lo, z: lo }, max: Keys3 { x: hi, y: hi, z: hi } }
}

fn build(boxes: &Vec<Option<Aabb>>) -> BvhTree {
    match BvhTree::new(boxes) {
        Ok(tree) => tree,
        Err(e) => panic!("build failed: {:?}", e),
    }
}

#[test]
fn surrounding_box_is_componentwise_union() {
    let a = Aabb { min: Keys3 { x: 0, y: 5, z: -3 }, max: Keys3 { x: 2, y: 9, z: 1 } };
    let b = Aabb { min: Keys3 { x: -1, y: 6, z: -4 }, max: Keys3 { x: 1, y: 12, z: 0 } };
    let u = surrounding_box(&a, &b);
    assert_eq!(u.min, Keys3 { x: -1, y: 5, z: -4 });
    assert_eq!(u.max, Keys3 { x: 2, y: 12, z: 1 });
}

#[test]
fn empty_scene_gives_a_tree_every_ray_misses() {
    let boxes: Vec<Option<Aabb>> = Vec::new();
    let tree = build(&boxes);
    assert_eq!(tree.node_count(), 0);
    assert_eq!(tree.root(), None);
    assert_eq!(tree.bounding_box(), None);
    let r = tree.hit(&|_id: usize| true, &|o: usize| Some((1, o)));
    assert!(r.is_none());
}

#[test]
fn unbounded_object_is_refused_with_first_index() {
    let boxes = vec![Some(cube(0, 1)), None, Some(cube(2, 3)), None];
    assert!(matches!(BvhTree::new(&boxes), Err(BuildError::MissingBoundingBox { index: 1 })));
}

#[test]
fn single_object_is_one_leaf() {
    let boxes = vec![Some(cube(4, 7))];
    let tree = build(&boxes);
    assert_eq!(tree.node_count(), 1);
    assert_eq!(tree.number_hittables(0), 1);
    assert_eq!(tree.bounding_box(), Some(cube(4, 7)));
    assert_eq!(tree.root(), Some(0));
}

#[test]
fn tree_has_two_n_minus_one_nodes_and_every_object() {
    for n in 1..40usize {
        let boxes: Vec<Option<Aabb>> = (0..n).map(|i| Some(cube(i as i32, i as i32 + 2))).collect();
        let tree = build(&boxes);
        assert_eq!(tree.node_count(), 2 * n - 1);
        let root = tree.root().unwrap();
        assert_eq!(tree.number_hittables(root), n);
        assert_eq!(tree.bounding_box(), Some(cube(0, n as i32 + 1)));
    }
}

#[test]
fn objects_are_ordered_by_their_low_corner() {
    // The low corners descend on every axis, so whichever axis is drawn the
    // leftmost leaf, built first, holds the last object.
    let boxes: Vec<Option<Aabb>> = (0..4).map(|i| Some(cube(10 - 2 * i, 11 - 2 * i))).collect();
    let tree = build(&boxes);
    assert_eq!(tree.node_box(0), Some(cube(4, 5)));
    assert_eq!(tree.node_box(1), Some(cube(6, 7)));
    assert_eq!(tree.node_box(tree.node_count()), None);
}

fn linear_nearest(n: usize, hit: &dyn Fn(usize) -> Option<(i32, usize)>) -> Option<i32> {
    (0..n).filter_map(|o| hit(o)).map(|h| h.0).min()
}

#[test]
fn hit_matches_linear_search() {
    let n = 25usize;
    let boxes: Vec<Option<Aabb>> = (0..n).map(|i| Some(cube(3 * i as i32, 3 * i as i32 + 1))).collect();
    let tree = build(&boxes);
    // A "ray" that hits the objects whose index is a multiple of 3 or 7, at a
    // distance that depends on the index; a box passes when some object under
    // it is hit, which is what a conservative slab test gives.
    let object_hit = |o: usize| -> Option<(i32, usize)> {
        if o % 3 == 0 || o % 7 == 0 { Some((100 - ((o as i32 * 37) % 50), o)) } else { None }
    };
    let node_objects: Vec<Vec<usize>> = (0..tree.node_count())
        .map(|id| {
            let b = tree.node_box(id).unwrap();
            (0..n).filter(|&o| {
                let ob = boxes[o].unwrap();
                b.min.x <= ob.min.x && ob.max.x <= b.max.x
            }).collect()
        })
        .collect();
    let box_hit = |id: usize| node_objects[id].iter().any(|&o| object_hit(o).is_some());
    let r = tree.hit(&box_hit, &object_hit);
    let expected = linear_nearest(n, &object_hit);
    assert_eq!(r.map(|h| h.0), expected);
    let (key, object) = r.unwrap();
    assert_eq!(object_hit(object), Some((key, object)));
}

#[test]
fn hit_misses_when_no_object_is_hit() {
    let boxes: Vec<Option<Aabb>> = (0..9).map(|i| Some(cube(i, i + 1))).collect();
    let tree = build(&boxes);
    let r = tree.hit(&|_id: usize| true, &|_o: usize| -> Option<(i32, u8)> { None });
    assert!(r.is_none());
}

#[test]
fn failing_root_box_prunes_everything() {
    let boxes: Vec<Option<Aabb>> = (0..9).map(|i| Some(cube(i, i + 1))).collect();
    let tree = build(&boxes);
    let root = tree.root().unwrap();
    let r = tree.hit(&|id: usize| id != root, &|o: usize| Some((o as i32, ())));
    assert!(r.is_none());
}

#[test]
fn equal_distances_keep_one_of_them() {
    let boxes: Vec<Option<Aabb>> = (0..2).map(|i| Some(cube(i, i + 1))).collect();
    let tree = build(&boxes);
    let r = tree.hit(&|_id: usize| true, &|o: usize| Some((5, o)));
    assert_eq!(r.map(|h| h.0), Some(5));
}

#[test]
fn leaf_node_refers_to_its_object() {
    let boxes = vec![Some(cube(1, 2))];
    let tree = build(&boxes);
    let r = tree.intersects_id(0, &|_id: usize| true, &|o: usize| Some((7, o)));
    assert_eq!(r, Some((7, 0)));
    let rejected = tree.intersects_id(0, &|_id: usize| false, &|o: usize| Some((7, o)));
    assert_eq!(rejected, None);
    let missed = tree.intersects_id(0, &|_id: usize| true, &|_o: usize| -> Option<(i32, usize)> { None });
    assert_eq!(missed, None);
    assert_eq!(BvhNode::Leaf { aabb: cube(1, 2), object: 0 }.bbox(), cube(1, 2));
}
