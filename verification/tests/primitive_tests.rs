use raytracer::aabb::AABB;
use raytracer::base::Vec3;
use raytracer::hit::constant_medium::{ConstantMedium, Segment};
use raytracer::hit::hit_record::HitRecord;
use raytracer::hit::rectangle::{Cuboid, PlaneHit, Side, XYRect, XZRect, YZRect};
use raytracer::hit::sphere::{Roots, Sphere};
use raytracer::hit::transform::{RotateY, Translate};
use raytracer::materials::textures::SolidColor;
use raytracer::scalar::Scalar;

fn s(x: f64) -> Scalar {
    Scalar::from_bits(x.to_bits())
}

fn f(x: Scalar) -> f64 {
    f64::from_bits(x.to_bits())
}

fn v(x: f64, y: f64, z: f64) -> Vec3 {
    Vec3::new(s(x), s(y), s(z))
}

fn plane_hit(t: f64, a: f64, b: f64, facing: f64) -> PlaneHit {
    PlaneHit { t: s(t), a: s(a), b: s(b), u: s(0.25), v: s(0.75), p: v(a, b, 9.0), facing: s(facing) }
}

#[test]
fn hit_record_turns_the_normal_against_the_ray() {
    let front = HitRecord::new(s(1.5), s(0.1), s(0.2), v(1.0, 2.0, 3.0), 'm', s(-0.5), &v(0.0, 1.0, 0.0));
    assert!(front.front_face);
    assert_eq!(front.normal, v(0.0, 1.0, 0.0));
    assert_eq!(f(front.t), 1.5);
    assert_eq!(f(front.u), 0.1);
    assert_eq!(f(front.v), 0.2);
    assert_eq!(front.p, v(1.0, 2.0, 3.0));
    assert_eq!(front.material, 'm');
    let back = HitRecord::new(s(1.5), s(0.1), s(0.2), v(1.0, 2.0, 3.0), 'm', s(0.5), &v(0.0, 1.0, 0.0));
    assert!(!back.front_face);
    assert_eq!(back.normal, v(-0.0, -1.0, -0.0));
    let grazing = HitRecord::new(s(1.5), s(0.1), s(0.2), v(1.0, 2.0, 3.0), 'm', s(0.0), &v(0.0, 1.0, 0.0));
    assert!(!grazing.front_face);
    assert_eq!(f(grazing.normal.y), -1.0);
}

#[test]
fn rectangle_accepts_hits_inside_and_in_range() {
    let r = XYRect::new(s(3.0), s(5.0), s(1.0), s(3.0), s(-2.0), 7u32);
    let rec = r.hit(&plane_hit(2.0, 4.0, 2.0, -1.0), s(0.001), s(f64::INFINITY)).unwrap();
    assert_eq!(f(rec.t), 2.0);
    assert_eq!(f(rec.u), 0.25);
    assert_eq!(f(rec.v), 0.75);
    assert_eq!(rec.material, 7);
    assert!(rec.front_face);
    assert_eq!(rec.normal, v(0.0, 0.0, 1.0));
    let rec = r.hit(&plane_hit(2.0, 3.0, 3.0, 1.0), s(0.001), s(f64::INFINITY)).unwrap();
    assert!(!rec.front_face);
    assert_eq!(f(rec.normal.z), -1.0);
    assert!(r.hit(&plane_hit(2.0, 3.0, 3.0, 1.0), s(2.0), s(2.0)).is_some());
    assert!(r.hit(&plane_hit(2.0, 2.9, 2.0, -1.0), s(0.001), s(f64::INFINITY)).is_none());
    assert!(r.hit(&plane_hit(2.0, 5.1, 2.0, -1.0), s(0.001), s(f64::INFINITY)).is_none());
    assert!(r.hit(&plane_hit(2.0, 4.0, 0.9, -1.0), s(0.001), s(f64::INFINITY)).is_none());
    assert!(r.hit(&plane_hit(2.0, 4.0, 3.1, -1.0), s(0.001), s(f64::INFINITY)).is_none());
    assert!(r.hit(&plane_hit(-1.0, 4.0, 2.0, -1.0), s(0.001), s(f64::INFINITY)).is_none());
    assert!(r.hit(&plane_hit(2.0, 4.0, 2.0, -1.0), s(0.001), s(1.5)).is_none());
}

#[test]
fn rectangles_have_their_own_normals_and_boxes() {
    let xz = XZRect::new(s(0.0), s(1.0), s(2.0), s(3.0), s(5.0), 1u8);
    let rec = xz.hit(&plane_hit(1.0, 0.5, 2.5, -1.0), s(0.0), s(9.0)).unwrap();
    assert_eq!(rec.normal, v(0.0, 1.0, 0.0));
    assert_eq!(xz.bounding_box(s(4.999), s(5.001)), Some(AABB::new(v(0.0, 4.999, 2.0), v(1.0, 5.001, 3.0))));
    let yz = YZRect::new(s(0.0), s(1.0), s(2.0), s(3.0), s(5.0), 1u8);
    let rec = yz.hit(&plane_hit(1.0, 0.5, 2.5, -1.0), s(0.0), s(9.0)).unwrap();
    assert_eq!(rec.normal, v(1.0, 0.0, 0.0));
    assert_eq!(yz.bounding_box(s(4.999), s(5.001)), Some(AABB::new(v(4.999, 0.0, 2.0), v(5.001, 1.0, 3.0))));
    let xy = XYRect::new(s(0.0), s(1.0), s(2.0), s(3.0), s(5.0), 1u8);
    assert_eq!(xy.bounding_box(s(4.999), s(5.001)), Some(AABB::new(v(0.0, 2.0, 4.999), v(1.0, 3.0, 5.001))));
}

#[test]
fn cuboid_has_six_faces_around_its_corners() {
    let c = Cuboid::new(v(0.0, 1.0, 2.0), v(165.0, 330.0, 166.0), 3u8);
    assert_eq!(c.bounding_box(), Some(AABB::new(v(0.0, 1.0, 2.0), v(165.0, 330.0, 166.0))));
    assert_eq!(c.sides.len(), 6);
    let k: Vec<(u8, f64, [f64; 4])> = (0..6)
        .map(|i| match c.sides.get(i) {
            Side::XY(r) => (0, f(r.k), [f(r.x0), f(r.x1), f(r.y0), f(r.y1)]),
            Side::XZ(r) => (1, f(r.k), [f(r.x0), f(r.x1), f(r.z0), f(r.z1)]),
            Side::YZ(r) => (2, f(r.k), [f(r.y0), f(r.y1), f(r.z0), f(r.z1)]),
        })
        .collect();
    assert_eq!(
        k,
        vec![
            (0, 166.0, [0.0, 165.0, 1.0, 330.0]),
            (0, 2.0, [0.0, 165.0, 1.0, 330.0]),
            (1, 330.0, [0.0, 165.0, 2.0, 166.0]),
            (1, 1.0, [0.0, 165.0, 2.0, 166.0]),
            (2, 165.0, [1.0, 330.0, 2.0, 166.0]),
            (2, 0.0, [1.0, 330.0, 2.0, 166.0]),
        ]
    );
    for i in 0..6 {
        let m = match c.sides.get(i) {
            Side::XY(r) => r.mp,
            Side::XZ(r) => r.mp,
            Side::YZ(r) => r.mp,
        };
        assert_eq!(m, 3);
    }
    assert_eq!(c.sides.bounding_box(), None);
}

#[test]
fn sphere_takes_the_nearer_root_in_range() {
    let roots = Roots { discriminant: s(4.0), near: s(2.0), far: s(6.0) };
    assert_eq!(Sphere::<u8>::select_root(&roots, s(0.001), s(f64::INFINITY)).map(f), Some(2.0));
    assert_eq!(Sphere::<u8>::select_root(&roots, s(3.0), s(f64::INFINITY)).map(f), Some(6.0));
    assert_eq!(Sphere::<u8>::select_root(&roots, s(2.0), s(2.0)), None);
    assert_eq!(Sphere::<u8>::select_root(&roots, s(2.0), s(f64::INFINITY)).map(f), Some(6.0));
    assert_eq!(Sphere::<u8>::select_root(&roots, s(0.001), s(2.0)), None);
    assert_eq!(Sphere::<u8>::select_root(&roots, s(2.0), s(6.0)), None);
    assert_eq!(Sphere::<u8>::select_root(&roots, s(1.999), s(2.001)).map(f), Some(2.0));
    assert_eq!(Sphere::<u8>::select_root(&roots, s(6.5), s(f64::INFINITY)), None);
    assert_eq!(Sphere::<u8>::select_root(&roots, s(0.001), s(1.0)), None);
    assert_eq!(Sphere::<u8>::select_root(&roots, s(3.0), s(5.0)), None);
    let inside = Roots { discriminant: s(1.0), near: s(-1.0), far: s(1.0) };
    assert_eq!(Sphere::<u8>::select_root(&inside, s(0.001), s(f64::INFINITY)).map(f), Some(1.0));
    let none = Roots { discriminant: s(-0.5), near: s(f64::NAN), far: s(f64::NAN) };
    assert_eq!(Sphere::<u8>::select_root(&none, s(0.001), s(f64::INFINITY)), None);
    let unknown = Roots { discriminant: s(f64::NAN), near: s(f64::NAN), far: s(f64::NAN) };
    assert_eq!(Sphere::<u8>::select_root(&unknown, s(0.001), s(f64::INFINITY)), None);
    let touching = Roots { discriminant: s(0.0), near: s(3.0), far: s(3.0) };
    assert_eq!(Sphere::<u8>::select_root(&touching, s(0.001), s(f64::INFINITY)).map(f), Some(3.0));
}

#[test]
fn sphere_record_names_its_material() {
    let sphere = Sphere::new(v(0.0, 0.0, -1.0), s(0.5), 42u32);
    assert_eq!(sphere.center, v(0.0, 0.0, -1.0));
    assert_eq!(f(sphere.radius), 0.5);
    let rec = sphere.record(s(0.5), s(0.5), s(0.5), v(0.0, 0.0, -0.5), s(-1.0), &v(0.0, 0.0, 1.0));
    assert_eq!(rec.material, 42);
    assert!(rec.front_face);
    assert_eq!(rec.normal, v(0.0, 0.0, 1.0));
}

#[test]
fn medium_clips_the_segment() {
    type Medium = ConstantMedium<u8, SolidColor>;
    let seg = Segment { enter: s(2.0), exit: s(8.0) };
    assert_eq!(Medium::clip(&seg, s(0.001), s(f64::INFINITY)), Some(Segment { enter: s(2.0), exit: s(8.0) }));
    assert_eq!(Medium::clip(&seg, s(3.0), s(5.0)), Some(Segment { enter: s(3.0), exit: s(5.0) }));
    assert_eq!(Medium::clip(&seg, s(8.0), s(9.0)), None);
    assert_eq!(Medium::clip(&seg, s(0.0), s(2.0)), None);
    let around = Segment { enter: s(-4.0), exit: s(6.0) };
    assert_eq!(Medium::clip(&around, s(f64::NEG_INFINITY), s(f64::INFINITY)), Some(Segment { enter: s(0.0), exit: s(6.0) }));
    assert_eq!(Medium::clip(&around, s(0.001), s(f64::INFINITY)), Some(Segment { enter: s(0.001), exit: s(6.0) }));
}

#[test]
fn medium_scatters_within_its_length() {
    let m = ConstantMedium::new_from_color('b', s(-100.0), v(1.0, 1.0, 1.0));
    assert_eq!(m.boundary, 'b');
    assert_eq!(f(m.neg_inv_density), -100.0);
    assert_eq!(m.phase_function.albedo.color_value, v(1.0, 1.0, 1.0));
    assert!(m.hit(s(5.0), s(4.0), s(1.0), v(0.0, 0.0, 0.0)).is_none());
    let rec = m.hit(s(3.0), s(4.0), s(1.5), v(1.0, 2.0, 3.0)).unwrap();
    assert_eq!(f(rec.t), 1.5);
    assert_eq!(rec.p, v(1.0, 2.0, 3.0));
    assert_eq!(rec.normal, v(1.0, 0.0, 0.0));
    assert!(rec.front_face);
    assert_eq!(rec.material.albedo.color_value, v(1.0, 1.0, 1.0));
    assert!(m.hit(s(4.0), s(4.0), s(1.5), v(1.0, 2.0, 3.0)).is_some());
    let other = ConstantMedium::new('c', s(-50.0), SolidColor::new(v(0.5, 0.5, 0.5)));
    assert_eq!(other.phase_function.albedo.color_value, v(0.5, 0.5, 0.5));
}

#[test]
fn translate_keeps_parameter_and_material() {
    let t = Translate::new('o', v(265.0, 0.0, 295.0));
    assert_eq!(t.obj, 'o');
    assert_eq!(t.offset, v(265.0, 0.0, 295.0));
    for facing in [-1.0, 1.0] {
        let hit = HitRecord::new(s(2.0), s(0.1), s(0.2), v(1.0, 2.0, 3.0), 5u8, s(facing), &v(0.0, 1.0, 0.0));
        let moved = Translate::<char>::record(hit, v(266.0, 2.0, 298.0));
        assert_eq!(f(moved.t), 2.0);
        assert_eq!(f(moved.u), 0.1);
        assert_eq!(f(moved.v), 0.2);
        assert_eq!(moved.p, v(266.0, 2.0, 298.0));
        assert_eq!(moved.material, 5);
        assert_eq!(moved.normal, hit.normal);
        assert_eq!(moved.front_face, hit.front_face);
    }
    let b = AABB::new(v(0.0, 0.0, 0.0), v(1.0, 1.0, 1.0));
    assert_eq!(Translate::<char>::bounding_box(Some(b), b), Some(b));
    assert_eq!(Translate::<char>::bounding_box(None, b), None);
}

#[test]
fn corners_come_with_the_last_axis_fastest() {
    let b = AABB::new(v(0.0, 10.0, 20.0), v(1.0, 11.0, 21.0));
    let c = b.corners();
    assert_eq!(
        c,
        vec![
            v(0.0, 10.0, 20.0),
            v(0.0, 10.0, 21.0),
            v(0.0, 11.0, 20.0),
            v(0.0, 11.0, 21.0),
            v(1.0, 10.0, 20.0),
            v(1.0, 10.0, 21.0),
            v(1.0, 11.0, 20.0),
            v(1.0, 11.0, 21.0),
        ]
    );
}

#[test]
fn box_around_points_reaches_from_least_to_greatest() {
    assert_eq!(AABB::around(&vec![]), None);
    assert_eq!(AABB::around(&vec![v(1.0, 2.0, 3.0)]), Some(AABB::new(v(1.0, 2.0, 3.0), v(1.0, 2.0, 3.0))));
    let pts = vec![v(1.0, -2.0, 3.0), v(-4.0, 5.0, 0.5), v(0.0, 0.0, 7.0), v(2.0, -2.5, 1.0)];
    assert_eq!(AABB::around(&pts), Some(AABB::new(v(-4.0, -2.5, 0.5), v(2.0, 5.0, 7.0))));
}

#[test]
fn rotated_box_is_the_box_around_the_turned_corners() {
    let child = AABB::new(v(0.0, 0.0, 0.0), v(165.0, 330.0, 165.0));
    let angle = 15.0f64.to_radians();
    let (sin, cos) = (angle.sin(), angle.cos());
    let turn = |p: Vec3| {
        let (x, y, z) = (f(p.x), f(p.y), f(p.z));
        v(cos * x + sin * z, y, -sin * x + cos * z)
    };
    let r = RotateY::new('o', s(sin), s(cos), Some(child), &turn);
    assert_eq!(r.obj, 'o');
    assert_eq!(f(r.sin_theta), sin);
    assert_eq!(f(r.cos_theta), cos);
    let b = r.bounding_box().unwrap();
    assert_eq!(f(b.min().x), 0.0);
    assert_eq!(f(b.max().x), cos * 165.0 + sin * 165.0);
    assert_eq!(f(b.min().y), 0.0);
    assert_eq!(f(b.max().y), 330.0);
    assert_eq!(f(b.min().z), -sin * 165.0);
    assert_eq!(f(b.max().z), cos * 165.0);
    assert!(b.is_wf());
}

#[test]
fn rotation_by_nothing_keeps_the_box() {
    let child = AABB::new(v(-1.0, 2.0, 3.0), v(4.0, 5.0, 6.0));
    let keep = |p: Vec3| p;
    assert_eq!(RotateY::new('o', s(0.0), s(1.0), Some(child), &keep).bounding_box(), Some(child));
    assert_eq!(RotateY::new('o', s(0.0), s(1.0), None, &keep).bounding_box(), None);
}

#[test]
fn rotation_keeps_face_and_parameter() {
    for facing in [-1.0, 1.0] {
        let hit = HitRecord::new(s(2.0), s(0.1), s(0.2), v(1.0, 2.0, 3.0), 5u8, s(facing), &v(0.0, 1.0, 0.0));
        let turned = RotateY::<char>::record(hit, v(3.0, 2.0, 1.0), v(0.0, 0.0, 1.0));
        assert_eq!(f(turned.t), 2.0);
        assert_eq!(f(turned.u), 0.1);
        assert_eq!(f(turned.v), 0.2);
        assert_eq!(turned.p, v(3.0, 2.0, 1.0));
        assert_eq!(turned.normal, v(0.0, 0.0, 1.0));
        assert_eq!(turned.front_face, hit.front_face);
        assert_eq!(turned.material, 5);
    }
}

#[test]
fn checked_box_refuses_corners_out_of_order() {
    assert_eq!(AABB::checked(v(0.0, 0.0, 0.0), v(1.0, 1.0, 1.0)), Some(AABB::new(v(0.0, 0.0, 0.0), v(1.0, 1.0, 1.0))));
    assert!(AABB::checked(v(0.0, 0.0, 0.0), v(0.0, 0.0, 0.0)).is_some());
    assert_eq!(AABB::checked(v(1.0, 0.0, 0.0), v(0.0, 1.0, 1.0)), None);
    assert_eq!(AABB::checked(v(0.0, 0.0, 2.0), v(1.0, 1.0, 1.0)), None);
    assert_eq!(AABB::checked(v(f64::NAN, 0.0, 0.0), v(1.0, 1.0, 1.0)), None);
    assert!(AABB::new(v(0.0, 0.0, 0.0), v(1.0, 1.0, 1.0)).is_wf());
    assert!(!AABB::new(v(1.0, 0.0, 0.0), v(0.0, 1.0, 1.0)).is_wf());
}

#[test]
fn rules_of_thumb_have_the_bits_of_their_numbers() {
    assert_eq!(raytracer::hit::rectangle::PAD_BITS, 0.001f64.to_bits());
    assert_eq!(raytracer::hit::rectangle::pad().to_bits(), 0.001f64.to_bits());
    assert_eq!(raytracer::hit::constant_medium::EXIT_GAP_BITS, 0.0001f64.to_bits());
    assert_eq!(raytracer::hit::constant_medium::exit_gap().to_bits(), 0.0001f64.to_bits());
    assert_eq!(raytracer::render::SELF_HIT_BITS, 0.001f64.to_bits());
    assert_eq!(raytracer::render::self_hit_limit().to_bits(), 0.001f64.to_bits());
}
