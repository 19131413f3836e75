use vstd::prelude::*;

use crate::kmath::vector::{
    add_fits, in_i64, mul_fits, seq_max, seq_min, seq_sub, sub_fits, trunc_div, Vector,
};

verus! {

/// A circle in 2D, a sphere in 3D.
#[derive(Clone, Copy, Debug)]
pub struct Ball<const DIMENSIONS: usize> {
    pub center: Vector<DIMENSIONS>,
    pub radius: i64,
}

impl<const DIMENSIONS: usize> Ball<DIMENSIONS> {
    pub fn new(center: Vector<DIMENSIONS>, radius: i64) -> (b: Self)
        ensures
            b.center == center,
            b.radius == radius,
    {
        Self { center, radius }
    }
}

/// A line through `point` that runs along `direction`.
#[derive(Clone, Copy, Debug)]
pub struct Line<const DIMENSIONS: usize> {
    pub point: Vector<DIMENSIONS>,
    pub direction: Vector<DIMENSIONS>,
}

impl<const DIMENSIONS: usize> Line<DIMENSIONS> {
    /// The point `distance` steps of `direction` away from `point`.
    pub fn get_point(self, distance: i64) -> (p: Vector<DIMENSIONS>)
        requires
            forall|i: int| 0 <= i < DIMENSIONS ==> #[trigger] in_i64(self.direction@[i] * distance),
            forall|i: int|
                0 <= i < DIMENSIONS ==> in_i64(#[trigger] self.point@[i] + self.direction@[i] * distance),
        ensures
            p@.len() == DIMENSIONS,
            forall|i: int|
                0 <= i < DIMENSIONS ==> #[trigger] p@[i] == self.point@[i] + self.direction@[i]
                    * distance,
    {
        let steps = Vector::<DIMENSIONS>::fill(distance);
        assert(mul_fits(self.direction@, steps@)) by {
            assert forall|i: int| 0 <= i < DIMENSIONS implies #[trigger] in_i64(
                self.direction@[i] * steps@[i],
            ) by {
                assert(in_i64(self.direction@[i] * distance));
            }
        }
        let offset = self.direction.mul_by_component(steps);
        assert(add_fits(self.point@, offset@)) by {
            assert forall|i: int| 0 <= i < DIMENSIONS implies #[trigger] in_i64(
                self.point@[i] + offset@[i],
            ) by {
                assert(in_i64(self.point@[i] + self.direction@[i] * distance));
            }
        }
        self.point.add(offset)
    }
}

/// The segment between `a` and `b`.
#[derive(Clone, Copy, Debug)]
pub struct LineSegment<const DIMENSIONS: usize> {
    pub a: Vector<DIMENSIONS>,
    pub b: Vector<DIMENSIONS>,
}

impl<const DIMENSIONS: usize> LineSegment<DIMENSIONS> {
    pub fn new(a: Vector<DIMENSIONS>, b: Vector<DIMENSIONS>) -> (s: Self)
        ensures
            s.a == a,
            s.b == b,
    {
        Self { a, b }
    }
}

/// A rectangle in 2D, a rectangular prism in 3D.
#[derive(Clone, Copy, Debug)]
pub struct BoundingBox<const DIMENSIONS: usize> {
    pub min: Vector<DIMENSIONS>,
    pub max: Vector<DIMENSIONS>,
}

/// Product of the first `k` components of `s`.
pub open spec fn product_prefix(s: Seq<int>, k: int) -> int
    decreases k,
{
    if k <= 1 {
        s[0]
    } else {
        product_prefix(s, k - 1) * s[k - 1]
    }
}

/// The smallest component `i` among the first `k` points, or `i64::MAX`
/// when there are none.
pub open spec fn fold_min<const D: usize>(points: Seq<Vector<D>>, i: int, k: int) -> i64
    decreases k,
{
    if k <= 0 {
        i64::MAX
    } else {
        let m = fold_min(points, i, k - 1);
        if m <= points[k - 1]@[i] {
            m
        } else {
            points[k - 1]@[i]
        }
    }
}

/// The largest component `i` among the first `k` points, or `i64::MIN`
/// when there are none.
pub open spec fn fold_max<const D: usize>(points: Seq<Vector<D>>, i: int, k: int) -> i64
    decreases k,
{
    if k <= 0 {
        i64::MIN
    } else {
        let m = fold_max(points, i, k - 1);
        if m >= points[k - 1]@[i] {
            m
        } else {
            points[k - 1]@[i]
        }
    }
}

/// A point lies strictly inside the box on every axis.
pub open spec fn spec_contains_point(min: Seq<i64>, max: Seq<i64>, p: Seq<i64>) -> bool {
    forall|i: int| 0 <= i < p.len() ==> min[i] < #[trigger] p[i] && p[i] < max[i]
}

impl BoundingBox<2> {
    /// The four corners, counter-clockwise from the minimum corner.
    pub fn corners(&self) -> (c: [Vector<2>; 4])
        ensures
            c@[0]@ == seq![self.min@[0], self.min@[1]],
            c@[1]@ == seq![self.max@[0], self.min@[1]],
            c@[2]@ == seq![self.max@[0], self.max@[1]],
            c@[3]@ == seq![self.min@[0], self.max@[1]],
    {
        [
            Vector::<2>::new(self.min.x(), self.min.y()),
            Vector::<2>::new(self.max.x(), self.min.y()),
            Vector::<2>::new(self.max.x(), self.max.y()),
            Vector::<2>::new(self.min.x(), self.max.y()),
        ]
    }
}

impl BoundingBox<3> {
    /// The eight corners: the bottom face first, then the top face.
    pub fn corners(&self) -> (c: [Vector<3>; 8])
        ensures
            c@[0]@ == seq![self.min@[0], self.min@[1], self.min@[2]],
            c@[1]@ == seq![self.max@[0], self.min@[1], self.min@[2]],
            c@[2]@ == seq![self.max@[0], self.min@[1], self.max@[2]],
            c@[3]@ == seq![self.min@[0], self.min@[1], self.max@[2]],
            c@[4]@ == seq![self.min@[0], self.max@[1], self.min@[2]],
            c@[5]@ == seq![self.max@[0], self.max@[1], self.min@[2]],
            c@[6]@ == seq![self.max@[0], self.max@[1], self.max@[2]],
            c@[7]@ == seq![self.min@[0], self.max@[1], self.max@[2]],
    {
        let (min, max) = (self.min, self.max);
        [
            Vector::<3>::new(min.x(), min.y(), min.z()),
            Vector::<3>::new(max.x(), min.y(), min.z()),
            Vector::<3>::new(max.x(), min.y(), max.z()),
            Vector::<3>::new(min.x(), min.y(), max.z()),
            Vector::<3>::new(min.x(), max.y(), min.z()),
            Vector::<3>::new(max.x(), max.y(), min.z()),
            Vector::<3>::new(max.x(), max.y(), max.z()),
            Vector::<3>::new(min.x(), max.y(), max.z()),
        ]
    }
}

impl<const DIMENSIONS: usize> BoundingBox<DIMENSIONS> {
    pub fn new(min: Vector<DIMENSIONS>, max: Vector<DIMENSIONS>) -> (b: Self)
        ensures
            b.min == min,
            b.max == max,
    {
        Self { min, max }
    }

    pub fn new_with_min_corner_and_size(
        min_corner: Vector<DIMENSIONS>,
        size: Vector<DIMENSIONS>,
    ) -> (b: Self)
        requires
            add_fits(min_corner@, size@),
        ensures
            b.min == min_corner,
            b.max@.len() == DIMENSIONS,
            forall|i: int|
                0 <= i < DIMENSIONS ==> #[trigger] b.max@[i] == min_corner@[i] + size@[i],
    {
        Self { min: min_corner, max: min_corner.add(size) }
    }

    /// A box of the given size centred on `center`; odd sizes lose their
    /// remainder, since half of the size is taken with integer division.
    pub fn new_with_center_and_size(center: Vector<DIMENSIONS>, size: Vector<DIMENSIONS>) -> (b:
        Self)
        requires
            forall|i: int|
                0 <= i < DIMENSIONS ==> in_i64(#[trigger] center@[i] - trunc_div(size@[i] as int, 2))
                    && in_i64(center@[i] + trunc_div(size@[i] as int, 2)),
        ensures
            b.min@.len() == DIMENSIONS,
            b.max@.len() == DIMENSIONS,
            forall|i: int|
                0 <= i < DIMENSIONS ==> #[trigger] b.min@[i] == center@[i] - trunc_div(
                    size@[i] as int,
                    2,
                ) && b.max@[i] == center@[i] + trunc_div(size@[i] as int, 2),
    {
        let half_size = size.div_scalar(2);
        assert(sub_fits(center@, half_size@)) by {
            assert forall|i: int| 0 <= i < DIMENSIONS implies #[trigger] in_i64(
                center@[i] - half_size@[i],
            ) by {
                assert(in_i64(center@[i] - trunc_div(size@[i] as int, 2)));
            }
        }
        assert(add_fits(center@, half_size@)) by {
            assert forall|i: int| 0 <= i < DIMENSIONS implies #[trigger] in_i64(
                center@[i] + half_size@[i],
            ) by {
                assert(in_i64(center@[i] + trunc_div(size@[i] as int, 2)));
            }
        }
        Self { min: center.sub(half_size), max: center.add(half_size) }
    }

    /// Returns a new bounding box inflated by `amount` on each side.
    pub fn inflated(self, amount: i64) -> (b: Self)
        requires
            forall|i: int| 0 <= i < DIMENSIONS ==> in_i64(#[trigger] self.min@[i] - amount),
            forall|i: int| 0 <= i < DIMENSIONS ==> in_i64(#[trigger] self.max@[i] + amount),
        ensures
            b.min@.len() == DIMENSIONS,
            b.max@.len() == DIMENSIONS,
            forall|i: int|
                0 <= i < DIMENSIONS ==> #[trigger] b.min@[i] == self.min@[i] - amount
                    && b.max@[i] == self.max@[i] + amount,
    {
        let v = Vector::<DIMENSIONS>::fill(amount);
        assert(sub_fits(self.min@, v@)) by {
            assert forall|i: int| 0 <= i < DIMENSIONS implies #[trigger] in_i64(
                self.min@[i] - v@[i],
            ) by {
                assert(in_i64(self.min@[i] - amount));
            }
        }
        assert(add_fits(self.max@, v@)) by {
            assert forall|i: int| 0 <= i < DIMENSIONS implies #[trigger] in_i64(
                self.max@[i] + v@[i],
            ) by {
                assert(in_i64(self.max@[i] + amount));
            }
        }
        Self { min: self.min.sub(v), max: self.max.add(v) }
    }

    /// The extent of the box along each axis.
    pub fn size(self) -> (s: Vector<DIMENSIONS>)
        requires
            sub_fits(self.max@, self.min@),
        ensures
            s@.len() == DIMENSIONS,
            forall|i: int| 0 <= i < DIMENSIONS ==> #[trigger] s@[i] == self.max@[i] - self.min@[i],
    {
        self.max.sub(self.min)
    }

    /// The smallest box that holds every point of `points`; for no points,
    /// a box whose minimum is `i64::MAX` and maximum `i64::MIN` on every axis.
    pub fn from_points(points: &[Vector<DIMENSIONS>]) -> (b: Self)
        ensures
            b.min@.len() == DIMENSIONS,
            b.max@.len() == DIMENSIONS,
            forall|i: int|
                0 <= i < DIMENSIONS ==> #[trigger] b.min@[i] == fold_min(points@, i, points@.len() as int),
            forall|i: int|
                0 <= i < DIMENSIONS ==> #[trigger] b.max@[i] == fold_max(points@, i, points@.len() as int),
            forall|k: int, i: int|
                0 <= k < points@.len() && 0 <= i < DIMENSIONS ==> b.min@[i] <= #[trigger] points@[k]@[i]
                    <= b.max@[i],
    {
        let mut min = Vector::<DIMENSIONS>::fill(i64::MAX);
        let mut max = Vector::<DIMENSIONS>::fill(i64::MIN);
        let mut n: usize = 0;
        while n < points.len()
            invariant
                n <= points@.len(),
                min@.len() == DIMENSIONS,
                max@.len() == DIMENSIONS,
                forall|i: int| 0 <= i < DIMENSIONS ==> #[trigger] min@[i] == fold_min(points@, i, n as int),
                forall|i: int| 0 <= i < DIMENSIONS ==> #[trigger] max@[i] == fold_max(points@, i, n as int),
                forall|k: int, i: int|
                    0 <= k < n && 0 <= i < DIMENSIONS ==> min@[i] <= #[trigger] points@[k]@[i]
                        <= max@[i],
            decreases points@.len() - n,
        {
            let p = points[n];
            min = min.min(p);
            max = max.max(p);
            n += 1;
        }
        BoundingBox { min, max }
    }

    /// True when `point` lies strictly inside the box on every axis.
    pub fn contains_point(&self, point: Vector<DIMENSIONS>) -> (r: bool)
        ensures
            r == spec_contains_point(self.min@, self.max@, point@),
    {
        point.all_greater_than(self.min) && point.all_less_than(self.max)
    }

    /// True when joining `bounding_box` into `self` leaves `self` unchanged.
    pub fn contains_bounding_box(&self, bounding_box: Self) -> (r: bool)
        ensures
            r == (seq_min(self.min@, bounding_box.min@) == self.min@ && seq_max(
                self.max@,
                bounding_box.max@,
            ) == self.max@),
    {
        let joined = self.join(bounding_box);
        joined.min.equals(self.min) && joined.max.equals(self.max)
    }

    /// Returns the area of a 2D `BoundingBox`, or the volume of a 3D `BoundingBox`.
    pub fn area(&self) -> (a: i64)
        requires
            DIMENSIONS >= 1,
            sub_fits(self.max@, self.min@),
            forall|k: int|
                1 <= k <= DIMENSIONS ==> #[trigger] in_i64(
                    product_prefix(seq_sub(self.max@, self.min@), k),
                ),
        ensures
            a == product_prefix(seq_sub(self.max@, self.min@), DIMENSIONS as int),
    {
        let size = self.max.sub(self.min);
        let ghost s = seq_sub(self.max@, self.min@);
        assert(size@[0] == s[0]);
        assert(in_i64(product_prefix(s, 1)));
        let mut a = size.get(0);
        let mut k: usize = 1;
        while k < DIMENSIONS
            invariant
                1 <= k <= DIMENSIONS,
                size@.len() == DIMENSIONS,
                s == seq_sub(self.max@, self.min@),
                forall|i: int| 0 <= i < DIMENSIONS ==> #[trigger] size@[i] == s[i],
                a == product_prefix(s, k as int),
                forall|j: int| 1 <= j <= DIMENSIONS ==> #[trigger] in_i64(product_prefix(s, j)),
            decreases DIMENSIONS - k,
        {
            assert(product_prefix(s, k + 1) == product_prefix(s, k as int) * s[k as int]);
            assert(in_i64(product_prefix(s, k + 1)));
            a = a * size.get(k);
            k += 1;
        }
        a
    }

    /// Creates a new `BoundingBox` that encompasses `self` and `other`.
    /// Also referred to as a `union` operation.
    pub fn join(self, other: Self) -> (b: Self)
        ensures
            b.min@ == seq_min(self.min@, other.min@),
            b.max@ == seq_max(self.max@, other.max@),
    {
        let b = Self { min: self.min.min(other.min), max: self.max.max(other.max) };
        assert(b.min@ =~= seq_min(self.min@, other.min@));
        assert(b.max@ =~= seq_max(self.max@, other.max@));
        b
    }

    /// The part contained in both boxes; `None` where they do not overlap on
    /// some axis.
    pub fn intersection(self, other: Self) -> (r: Option<Self>)
        ensures
            r is None <==> exists|i: int|
                0 <= i < DIMENSIONS && #[trigger] seq_max(self.min@, other.min@)[i] > seq_min(
                    self.max@,
                    other.max@,
                )[i],
            r matches Some(b) ==> b.min@ == seq_max(self.min@, other.min@) && b.max@ == seq_min(
                self.max@,
                other.max@,
            ),
    {
        let min = self.min.max(other.min);
        let max = self.max.min(other.max);
        assert(max@ =~= seq_min(self.max@, other.max@));
        assert(min@ =~= seq_max(self.min@, other.min@));
        let mut i: usize = 0;
        while i < DIMENSIONS
            invariant
                i <= DIMENSIONS,
                min@ == seq_max(self.min@, other.min@),
                max@ == seq_min(self.max@, other.max@),
                min@.len() == DIMENSIONS,
                max@.len() == DIMENSIONS,
                forall|j: int| 0 <= j < i ==> #[trigger] min@[j] <= max@[j],
            decreases DIMENSIONS - i,
        {
            if min.get(i) > max.get(i) {
                assert(seq_max(self.min@, other.min@)[i as int] > seq_min(self.max@, other.max@)[i as int]);
                return None;
            }
            i += 1;
        }
        assert forall|j: int| 0 <= j < DIMENSIONS implies !(#[trigger] seq_max(self.min@, other.min@)[j]
            > seq_min(self.max@, other.max@)[j]) by {
            assert(min@[j] <= max@[j]);
        }
        Some(Self { min, max })
    }

    /// The middle of the box, rounding toward the minimum corner's side as
    /// integer division does.
    pub fn center(self) -> (c: Vector<DIMENSIONS>)
        requires
            sub_fits(self.max@, self.min@),
            forall|i: int|
                0 <= i < DIMENSIONS ==> #[trigger] in_i64(
                    trunc_div(self.max@[i] - self.min@[i], 2) + self.min@[i],
                ),
        ensures
            c@.len() == DIMENSIONS,
            forall|i: int|
                0 <= i < DIMENSIONS ==> #[trigger] c@[i] == trunc_div(
                    self.max@[i] - self.min@[i],
                    2,
                ) + self.min@[i],
    {
        let size = self.max.sub(self.min);
        let half = size.div_scalar(2);
        assert(add_fits(half@, self.min@)) by {
            assert forall|i: int| 0 <= i < DIMENSIONS implies #[trigger] in_i64(
                half@[i] + self.min@[i],
            ) by {
                assert(in_i64(trunc_div(self.max@[i] - self.min@[i], 2) + self.min@[i]));
            }
        }
        half.add(self.min)
    }
}

/// Joining two boxes gives a box that contains both of them, and joining
/// does not depend on the order of the boxes.
pub proof fn lemma_join_contains_both(a_min: Seq<i64>, a_max: Seq<i64>, b_min: Seq<i64>, b_max: Seq<i64>)
    requires
        a_min.len() == b_min.len(),
        a_max.len() == b_max.len(),
    ensures
        seq_min(seq_min(a_min, b_min), a_min) == seq_min(a_min, b_min),
        seq_max(seq_max(a_max, b_max), a_max) == seq_max(a_max, b_max),
        seq_min(seq_min(a_min, b_min), b_min) == seq_min(a_min, b_min),
        seq_max(seq_max(a_max, b_max), b_max) == seq_max(a_max, b_max),
        seq_min(a_min, b_min) == seq_min(b_min, a_min),
        seq_max(a_max, b_max) == seq_max(b_max, a_max),
{
    assert(seq_min(seq_min(a_min, b_min), a_min) =~= seq_min(a_min, b_min));
    assert(seq_max(seq_max(a_max, b_max), a_max) =~= seq_max(a_max, b_max));
    assert(seq_min(seq_min(a_min, b_min), b_min) =~= seq_min(a_min, b_min));
    assert(seq_max(seq_max(a_max, b_max), b_max) =~= seq_max(a_max, b_max));
    assert(seq_min(a_min, b_min) =~= seq_min(b_min, a_min));
    assert(seq_max(a_max, b_max) =~= seq_max(b_max, a_max));
}

/// Every box contains itself.
pub proof fn lemma_contains_itself(min: Seq<i64>, max: Seq<i64>)
    ensures
        seq_min(min, min) == min,
        seq_max(max, max) == max,
{
    assert(seq_min(min, min) =~= min);
    assert(seq_max(max, max) =~= max);
}

/// A point strictly inside a box is strictly inside any box joined with it.
pub proof fn lemma_join_keeps_points(
    a_min: Seq<i64>,
    a_max: Seq<i64>,
    b_min: Seq<i64>,
    b_max: Seq<i64>,
    p: Seq<i64>,
)
    requires
        a_min.len() == p.len(),
        b_min.len() == p.len(),
        a_max.len() == p.len(),
        b_max.len() == p.len(),
        spec_contains_point(a_min, a_max, p),
    ensures
        spec_contains_point(seq_min(a_min, b_min), seq_max(a_max, b_max), p),
{
}

} // verus!
