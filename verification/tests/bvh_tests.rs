use raytracer::aabb::{Crossing, AABB};
use raytracer::base::{Axis, Vec3};
use raytracer::hit::bvh::{BVHNode, BVHNodeChild, LinearBVHNodeChild, LinearBVHTree};
use raytracer::hit::hit_record::HitRecord;
use raytracer::hit::sah::{best_split, get_aabb_from_list, sort_along};
use raytracer::hit::sphere::{Roots, Sphere};
use raytracer::hit::{Entry, HittableList, Nearest};
use raytracer::scalar::Scalar;

fn s(x: f64) -> Scalar {
    Scalar::from_bits(x.to_bits())
}

fn f(x: Scalar) -> f64 {
    f64::from_bits(x.to_bits())
}

fn v(x: f64, y: f64, z: f64) -> Vec3 {
    Vec3::new(s(x), s(y), s(z))
}

fn cube(x: f64, y: f64, z: f64, half: f64) -> AABB {
    AABB::new(v(x - half, y - half, z - half), v(x + half, y + half, z + half))
}

fn extent(b: AABB) -> Vec3 {
    v(
        f(b.max().x) - f(b.min().x),
        f(b.max().y) - f(b.min().y),
        f(b.max().z) - f(b.min().z),
    )
}

fn area(b: AABB) -> f64 {
    let e = extent(b);
    let (dx, dy, dz) = (f(e.x), f(e.y), f(e.z));
    2.0 * (dx * dy + dx * dz + dy * dz)
}

fn cost(left: AABB, right: AABB, whole: AABB, n_left: usize, n_right: usize) -> Scalar {
    s((area(left) / area(whole)) * (n_left as f64) + (area(right) / area(whole)) * (n_right as f64))
}

type Ball = ([f64; 3], f64);

fn ball_box(b: &Ball) -> AABB {
    cube(b.0[0], b.0[1], b.0[2], b.1)
}

fn crossing(lo: f64, hi: f64, origin: f64, direction: f64) -> Crossing {
    let inv_d = 1.0 / direction;
    Crossing { inv_d: s(inv_d), t0: s((lo - origin) * inv_d), t1: s((hi - origin) * inv_d) }
}

fn box_hit(b: AABB, o: [f64; 3], d: [f64; 3], t_min: f64, t_max: f64) -> bool {
    let lo = b.min();
    let hi = b.max();
    AABB::hit(
        &crossing(f(lo.x), f(hi.x), o[0], d[0]),
        &crossing(f(lo.y), f(hi.y), o[1], d[1]),
        &crossing(f(lo.z), f(hi.z), o[2], d[2]),
        s(t_min),
        s(t_max),
    )
}

fn ball_hit(id: usize, ball: &Ball, o: [f64; 3], d: [f64; 3], t_min: f64, t_max: f64) -> Option<HitRecord<usize>> {
    let oc = [o[0] - ball.0[0], o[1] - ball.0[1], o[2] - ball.0[2]];
    let a = d[0] * d[0] + d[1] * d[1] + d[2] * d[2];
    let half_b = oc[0] * d[0] + oc[1] * d[1] + oc[2] * d[2];
    let c = oc[0] * oc[0] + oc[1] * oc[1] + oc[2] * oc[2] - ball.1 * ball.1;
    let disc = half_b * half_b - a * c;
    let sq = disc.sqrt();
    let roots = Roots { discriminant: s(disc), near: s((-half_b - sq) / a), far: s((-half_b + sq) / a) };
    let t = f(Sphere::<usize>::select_root(&roots, s(t_min), s(t_max))?);
    let p = [o[0] + t * d[0], o[1] + t * d[1], o[2] + t * d[2]];
    let n = [(p[0] - ball.0[0]) / ball.1, (p[1] - ball.0[1]) / ball.1, (p[2] - ball.0[2]) / ball.1];
    let facing = d[0] * n[0] + d[1] * n[1] + d[2] * n[2];
    let sphere = Sphere::new(v(ball.0[0], ball.0[1], ball.0[2]), s(ball.1), id);
    Some(sphere.record(s(t), s(0.0), s(0.0), v(p[0], p[1], p[2]), s(facing), &v(n[0], n[1], n[2])))
}

fn list_search(balls: &[Ball], o: [f64; 3], d: [f64; 3], t_min: f64, t_max: f64) -> Option<HitRecord<usize>> {
    let mut nearest = Nearest::new(s(t_max));
    for (i, b) in balls.iter().enumerate() {
        let hit = ball_hit(i, b, o, d, t_min, f(nearest.closest()));
        nearest.offer(hit);
    }
    nearest.finish()
}

fn tree_search(
    tree: &LinearBVHTree<usize>,
    balls: &[Ball],
    o: [f64; 3],
    d: [f64; 3],
    t_min: f64,
    t_max: f64,
) -> (Option<HitRecord<usize>>, usize) {
    let mut search = tree.begin::<usize>(s(t_max));
    let mut tested = 0;
    while let Some(i) = search.current() {
        let through = box_hit(tree.bounds_at(i), o, d, t_min, f(search.closest()));
        if let Some(p) = tree.enter(&mut search, through) {
            tested += 1;
            let hit = ball_hit(*p, &balls[*p], o, d, t_min, f(search.closest()));
            search.offer(hit);
        }
    }
    (search.finish(), tested)
}

fn world(balls: &[Ball]) -> HittableList<usize> {
    let mut list = HittableList::new();
    for (i, b) in balls.iter().enumerate() {
        list.add(i, Some(ball_box(b)));
    }
    list
}

fn scene() -> Vec<Ball> {
    let mut balls = Vec::new();
    let mut k = 0u64;
    for a in -3..3 {
        for b in -3..3 {
            k = k.wrapping_mul(6364136223846793005).wrapping_add(1442695040888963407);
            let jitter = ((k >> 33) % 1000) as f64 / 2000.0;
            balls.push(([a as f64 * 2.0 + jitter, 0.3 * jitter, b as f64 * 2.0 - jitter], 0.3 + 0.2 * jitter));
        }
    }
    balls.push(([0.0, -1000.0, 0.0], 999.0));
    balls
}

fn count_nodes(node: &BVHNode<usize>) -> usize {
    match &node.child {
        BVHNodeChild::Trees(l, r) => 1 + count_nodes(l) + count_nodes(r),
        BVHNodeChild::Element(_) => 1,
    }
}

fn leaves(node: &BVHNode<usize>, out: &mut Vec<usize>) {
    match &node.child {
        BVHNodeChild::Trees(l, r) => {
            leaves(l, out);
            leaves(r, out);
        }
        BVHNodeChild::Element(p) => out.push(*p),
    }
}

fn encloses(outer: AABB, inner: AABB) -> bool {
    outer.min().x.le(inner.min().x)
        && outer.min().y.le(inner.min().y)
        && outer.min().z.le(inner.min().z)
        && inner.max().x.le(outer.max().x)
        && inner.max().y.le(outer.max().y)
        && inner.max().z.le(outer.max().z)
}

fn nested(node: &BVHNode<usize>) -> bool {
    match &node.child {
        BVHNodeChild::Trees(l, r) => {
            encloses(node.bounds, l.bounds) && encloses(node.bounds, r.bounds) && nested(l) && nested(r)
        }
        BVHNodeChild::Element(_) => true,
    }
}

#[test]
fn list_bounding_box_is_the_union_or_nothing() {
    let mut list: HittableList<usize> = HittableList::new();
    assert_eq!(list.bounding_box(), None);
    assert!(list.is_bounded());
    list.add(0, Some(cube(0.0, 0.0, 0.0, 1.0)));
    assert_eq!(list.bounding_box(), Some(cube(0.0, 0.0, 0.0, 1.0)));
    list.add(1, Some(cube(3.0, 0.0, 0.0, 1.0)));
    assert_eq!(list.bounding_box(), Some(AABB::new(v(-1.0, -1.0, -1.0), v(4.0, 1.0, 1.0))));
    assert_eq!(list.len(), 2);
    assert_eq!(*list.get(1), 1);
    list.add(2, None);
    assert!(!list.is_bounded());
    assert_eq!(list.bounding_box(), None);
}

#[test]
fn nearest_keeps_the_last_hit_offered() {
    let mut n: Nearest<usize> = Nearest::new(s(10.0));
    assert_eq!(f(n.closest()), 10.0);
    n.offer(None);
    assert_eq!(f(n.closest()), 10.0);
    n.offer(Some(HitRecord::new(s(4.0), s(0.0), s(0.0), v(0.0, 0.0, 0.0), 7, s(-1.0), &v(0.0, 1.0, 0.0))));
    assert_eq!(f(n.closest()), 4.0);
    n.offer(None);
    n.offer(Some(HitRecord::new(s(2.0), s(0.0), s(0.0), v(0.0, 0.0, 0.0), 9, s(-1.0), &v(0.0, 1.0, 0.0))));
    let best = n.finish().unwrap();
    assert_eq!(f(best.t), 2.0);
    assert_eq!(best.material, 9);
}

#[test]
fn best_split_takes_the_first_least_cost() {
    assert_eq!(best_split(&vec![s(3.0)]), 1);
    assert_eq!(best_split(&vec![s(3.0), s(2.0), s(5.0)]), 2);
    assert_eq!(best_split(&vec![s(3.0), s(2.0), s(2.0), s(2.5)]), 2);
    assert_eq!(best_split(&vec![s(1.0), s(1.0), s(1.0)]), 1);
    assert_eq!(best_split(&vec![s(4.0), s(3.0), s(2.0), s(1.0)]), 4);
    assert_eq!(best_split(&vec![s(f64::NAN), s(3.0), s(2.0)]), 1);
    assert_eq!(best_split(&vec![s(3.0), s(f64::NAN), s(2.0)]), 3);
}

#[test]
fn sort_along_is_stable_and_uses_the_axis() {
    let mut objects: Vec<Entry<usize>> = vec![
        Entry { item: 0, bounds: Some(cube(3.0, 9.0, 1.0, 0.5)) },
        Entry { item: 1, bounds: Some(cube(1.0, 8.0, 2.0, 0.5)) },
        Entry { item: 2, bounds: Some(cube(3.0, 7.0, 3.0, 0.5)) },
        Entry { item: 3, bounds: Some(cube(-2.0, 6.0, 4.0, 0.5)) },
        Entry { item: 4, bounds: Some(cube(1.0, 5.0, 5.0, 0.5)) },
    ];
    sort_along(&mut objects, Axis::X);
    let order: Vec<usize> = objects.iter().map(|e| e.item).collect();
    assert_eq!(order, vec![3, 1, 4, 0, 2]);
    sort_along(&mut objects, Axis::Y);
    let order: Vec<usize> = objects.iter().map(|e| e.item).collect();
    assert_eq!(order, vec![4, 3, 2, 1, 0]);
    sort_along(&mut objects, Axis::Z);
    let order: Vec<usize> = objects.iter().map(|e| e.item).collect();
    assert_eq!(order, vec![0, 1, 2, 3, 4]);
}

#[test]
fn sort_along_treats_the_two_zeros_as_equal() {
    let mut objects: Vec<Entry<usize>> = vec![
        Entry { item: 0, bounds: Some(AABB::new(v(0.0, 0.0, 0.0), v(1.0, 1.0, 1.0))) },
        Entry { item: 1, bounds: Some(AABB::new(v(-0.0, 0.0, 0.0), v(1.0, 1.0, 1.0))) },
        Entry { item: 2, bounds: Some(AABB::new(v(0.0, 0.0, 0.0), v(1.0, 1.0, 1.0))) },
    ];
    sort_along(&mut objects, Axis::X);
    let order: Vec<usize> = objects.iter().map(|e| e.item).collect();
    assert_eq!(order, vec![0, 1, 2]);
}

#[test]
fn get_aabb_from_list_unites_a_range() {
    let objects: Vec<Entry<usize>> = vec![
        Entry { item: 0, bounds: Some(cube(0.0, 0.0, 0.0, 1.0)) },
        Entry { item: 1, bounds: Some(cube(5.0, 0.0, 0.0, 1.0)) },
        Entry { item: 2, bounds: Some(cube(0.0, 7.0, 0.0, 1.0)) },
    ];
    assert_eq!(get_aabb_from_list(&objects, 0, 1), cube(0.0, 0.0, 0.0, 1.0));
    assert_eq!(get_aabb_from_list(&objects, 1, 3), AABB::new(v(-1.0, -1.0, -1.0), v(6.0, 8.0, 1.0)));
    assert_eq!(get_aabb_from_list(&objects, 0, 3), AABB::new(v(-1.0, -1.0, -1.0), v(6.0, 8.0, 1.0)));
}

#[test]
fn build_keeps_every_object_once() {
    let balls = scene();
    let root = BVHNode::new_from_hittable_list(world(&balls), &extent, &cost);
    assert_eq!(count_nodes(&root), 2 * balls.len() - 1);
    let mut found = Vec::new();
    leaves(&root, &mut found);
    found.sort();
    assert_eq!(found, (0..balls.len()).collect::<Vec<_>>());
    assert!(nested(&root));
    assert_eq!(Some(root.bounds), world(&balls).bounding_box());
}

#[test]
fn build_of_one_object_is_a_leaf() {
    let balls = vec![([1.0, 2.0, 3.0], 0.5)];
    let root = BVHNode::new_from_hittable_list(world(&balls), &extent, &cost);
    assert_eq!(root.bounds, cube(1.0, 2.0, 3.0, 0.5));
    assert!(matches!(root.child, BVHNodeChild::Element(0)));
}

#[test]
fn build_cuts_where_the_cost_is_least() {
    // Three balls close together and one far away along x: the cheapest cut
    // separates the far one.
    let balls = vec![([0.0, 0.0, 0.0], 0.5), ([1.0, 0.0, 0.0], 0.5), ([2.0, 0.0, 0.0], 0.5), ([50.0, 0.0, 0.0], 0.5)];
    let root = BVHNode::new_from_hittable_list(world(&balls), &extent, &cost);
    match root.child {
        BVHNodeChild::Trees(l, r) => {
            assert_eq!(count_nodes(&l), 5);
            assert_eq!(count_nodes(&r), 1);
            assert!(matches!(r.child, BVHNodeChild::Element(3)));
        }
        BVHNodeChild::Element(_) => panic!("expected an inner node"),
    }
}

#[test]
fn flat_layout_is_the_tree_in_pre_order() {
    let a = BVHNode::leaf(10usize, cube(0.0, 0.0, 0.0, 1.0));
    let b = BVHNode::leaf(11usize, cube(2.0, 0.0, 0.0, 1.0));
    let c = BVHNode::leaf(12usize, cube(4.0, 0.0, 0.0, 1.0));
    let ab = BVHNode::branch(a, b, AABB::new(v(-1.0, -1.0, -1.0), v(3.0, 1.0, 1.0)));
    let root = BVHNode::branch(ab, c, AABB::new(v(-1.0, -1.0, -1.0), v(5.0, 1.0, 1.0)));
    let tree = LinearBVHTree::new_from_bvhnode(root);
    assert_eq!(tree.len(), 5);
    assert!(matches!(tree.list[0].child, LinearBVHNodeChild::RightTree(4)));
    assert!(matches!(tree.list[1].child, LinearBVHNodeChild::RightTree(3)));
    assert!(matches!(tree.list[2].child, LinearBVHNodeChild::Element(10)));
    assert!(matches!(tree.list[3].child, LinearBVHNodeChild::Element(11)));
    assert!(matches!(tree.list[4].child, LinearBVHNodeChild::Element(12)));
    assert_eq!(tree.bounds_at(1), AABB::new(v(-1.0, -1.0, -1.0), v(3.0, 1.0, 1.0)));
    assert_eq!(tree.bounding_box(), Some(AABB::new(v(-1.0, -1.0, -1.0), v(5.0, 1.0, 1.0))));
}

#[test]
fn search_enters_left_child_first() {
    let a = BVHNode::leaf(10usize, cube(0.0, 0.0, 0.0, 1.0));
    let b = BVHNode::leaf(11usize, cube(2.0, 0.0, 0.0, 1.0));
    let root = BVHNode::branch(a, b, AABB::new(v(-1.0, -1.0, -1.0), v(3.0, 1.0, 1.0)));
    let tree = LinearBVHTree::new_from_bvhnode(root);
    let mut search = tree.begin::<usize>(s(100.0));
    assert_eq!(search.current(), Some(0));
    assert!(tree.enter(&mut search, true).is_none());
    assert_eq!(search.current(), Some(1));
    assert_eq!(tree.enter(&mut search, true), Some(&10));
    search.offer(Some(HitRecord::new(s(5.0), s(0.0), s(0.0), v(0.0, 0.0, 0.0), 10, s(-1.0), &v(1.0, 0.0, 0.0))));
    assert_eq!(f(search.closest()), 5.0);
    assert_eq!(search.current(), Some(2));
    assert!(tree.enter(&mut search, false).is_none());
    assert_eq!(search.current(), None);
    assert_eq!(search.finish().unwrap().material, 10);
}

#[test]
fn tree_search_finds_what_the_list_search_finds() {
    let balls = scene();
    let tree = LinearBVHTree::new_from_bvhnode(BVHNode::new_from_hittable_list(world(&balls), &extent, &cost));
    let mut hits = 0;
    let mut tested_total = 0;
    let mut rays = 0;
    for i in 0..40 {
        for j in 0..40 {
            let o = [0.1, 4.0, 0.2];
            let d = [(i as f64 - 20.0) / 7.0, -1.0 - (j as f64) / 40.0, (j as f64 - 20.0) / 9.0];
            let by_list = list_search(&balls, o, d, 0.001, f64::INFINITY);
            let (by_tree, tested) = tree_search(&tree, &balls, o, d, 0.001, f64::INFINITY);
            rays += 1;
            tested_total += tested;
            match (by_list, by_tree) {
                (Some(a), Some(b)) => {
                    hits += 1;
                    assert_eq!(f(a.t), f(b.t));
                    assert_eq!(a.material, b.material);
                    assert_eq!(a.p, b.p);
                    assert_eq!(a.normal, b.normal);
                }
                (None, None) => {}
                _ => panic!("one search hit and the other missed"),
            }
        }
    }
    assert!(hits > 100);
    assert!(tested_total < rays * balls.len() / 2);
}

#[test]
fn tree_search_respects_the_limit() {
    let balls = vec![([0.0, 0.0, -5.0], 1.0), ([0.0, 0.0, -10.0], 1.0)];
    let tree = LinearBVHTree::new_from_bvhnode(BVHNode::new_from_hittable_list(world(&balls), &extent, &cost));
    let o = [0.0, 0.0, 0.0];
    let d = [0.0, 0.0, -1.0];
    let (hit, _) = tree_search(&tree, &balls, o, d, 0.001, f64::INFINITY);
    assert_eq!(f(hit.unwrap().t), 4.0);
    let (hit, _) = tree_search(&tree, &balls, o, d, 5.0, f64::INFINITY);
    assert_eq!(f(hit.unwrap().t), 6.0);
    let (hit, _) = tree_search(&tree, &balls, o, d, 7.0, f64::INFINITY);
    assert_eq!(f(hit.unwrap().t), 9.0);
    let (hit, _) = tree_search(&tree, &balls, o, d, 0.001, 3.0);
    assert!(hit.is_none());
    let (hit, _) = tree_search(&tree, &balls, o, [0.0, 1.0, 0.0], 0.001, f64::INFINITY);
    assert!(hit.is_none());
}
