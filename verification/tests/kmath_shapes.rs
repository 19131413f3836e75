use koi::kmath::geometry::{BoundingBox, Line};
use koi::kmath::vector::Vector;

#[test]
fn vector_arithmetic() {
    let a = Vector::<3>::new(1, 2, 3);
    let b = Vector::<3>::new(4, -5, 6);
    assert_eq!(a.dot(b), 4 - 10 + 18);
    assert_eq!(a.add(b).as_array(), [5, -3, 9]);
    assert_eq!(a.sub(b).as_array(), [-3, 7, -3]);
    assert_eq!(a.cross(b).as_array(), [2 * 6 - 3 * -5, 3 * 4 - 1 * 6, 1 * -5 - 2 * 4]);
    assert_eq!(a.length_squared(), 14);
    assert_eq!(Vector::<2>::new(-7, 7).div_scalar(2).as_array(), [-3, 3]);
    assert_eq!(a.zxy().as_array(), [3, 1, 2]);
}

#[test]
fn cross_is_perpendicular() {
    let a = Vector::<3>::new(3, -1, 2);
    let b = Vector::<3>::new(0, 5, 7);
    let c = a.cross(b);
    assert_eq!(c.dot(a), 0);
    assert_eq!(c.dot(b), 0);
}

#[test]
fn bounding_boxes() {
    let a = BoundingBox::<2>::new(Vector::<2>::new(0, 0), Vector::<2>::new(2, 3));
    let b = BoundingBox::<2>::new(Vector::<2>::new(1, -1), Vector::<2>::new(4, 1));
    let j = a.join(b);
    assert_eq!(j.min.as_array(), [0, -1]);
    assert_eq!(j.max.as_array(), [4, 3]);
    assert!(j.contains_bounding_box(a));
    assert!(j.contains_bounding_box(b));
    assert_eq!(a.area(), 6);
    let i = a.intersection(b).unwrap();
    assert_eq!(i.min.as_array(), [1, 0]);
    assert_eq!(i.max.as_array(), [2, 1]);
    let far = BoundingBox::<2>::new(Vector::<2>::new(5, 0), Vector::<2>::new(6, 1));
    assert!(a.intersection(far).is_none());
    let touching = BoundingBox::<2>::new(Vector::<2>::new(2, 3), Vector::<2>::new(6, 7));
    let t = a.intersection(touching).unwrap();
    assert_eq!(t.min.as_array(), [2, 3]);
    assert_eq!(t.max.as_array(), [2, 3]);
    assert!(a.contains_point(Vector::<2>::new(1, 1)));
    assert!(!a.contains_point(Vector::<2>::new(2, 3)));
    assert!(!a.contains_point(Vector::<2>::new(3, 3)));
    assert_eq!(a.size().as_array(), [2, 3]);
    assert_eq!(a.center().as_array(), [1, 1]);
}

#[test]
fn swizzles_fill_missing_components_with_zero() {
    let v = Vector::<1>::new_from_slice([9]);
    assert_eq!(v.xy().as_array(), [9, 0]);
    assert_eq!(v.xyz().as_array(), [9, 0, 0]);
    assert_eq!(v.xyzw().as_array(), [9, 0, 0, 0]);
    let w = Vector::<4>::new(1, 2, 3, 4);
    assert_eq!(w.xy().as_array(), [1, 2]);
    let named = w.to_xyzw();
    assert_eq!((named.x, named.y, named.z, named.w), (1, 2, 3, 4));
    let xy = Vector::<2>::new(5, 6).to_xy();
    assert_eq!((xy.x, xy.y), (5, 6));
    let xyz = Vector::<3>::new(7, 8, 9).to_xyz();
    assert_eq!((xyz.x, xyz.y, xyz.z), (7, 8, 9));
    let mut m = Vector::<4>::new(0, 0, 0, 0);
    *m.w_mut() = 12;
    assert_eq!(m.as_array(), [0, 0, 0, 12]);
}

#[test]
fn line_point_at_a_distance() {
    let line = Line { point: Vector::<2>::new(1, 1), direction: Vector::<2>::new(2, -3) };
    assert_eq!(line.get_point(4).as_array(), [9, -11]);
    assert_eq!(line.get_point(0).as_array(), [1, 1]);
}

#[test]
fn boxes_from_corner_center_and_points() {
    let b = BoundingBox::<2>::new_with_min_corner_and_size(Vector::<2>::new(1, 2), Vector::<2>::new(3, 4));
    assert_eq!(b.max.as_array(), [4, 6]);
    let c = BoundingBox::<2>::new_with_center_and_size(Vector::<2>::new(10, 10), Vector::<2>::new(5, 4));
    assert_eq!(c.min.as_array(), [8, 8]);
    assert_eq!(c.max.as_array(), [12, 12]);
    let pts = [Vector::<2>::new(3, -1), Vector::<2>::new(-2, 7), Vector::<2>::new(0, 0)];
    let f = BoundingBox::<2>::from_points(&pts);
    assert_eq!(f.min.as_array(), [-2, -1]);
    assert_eq!(f.max.as_array(), [3, 7]);
    let e = BoundingBox::<2>::from_points(&[]);
    assert_eq!(e.min.as_array(), [i64::MAX, i64::MAX]);
    assert_eq!(e.max.as_array(), [i64::MIN, i64::MIN]);
}
