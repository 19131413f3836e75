use vstd::prelude::*;

verus! {

/// True when `x` can be held by an `i64`.
pub open spec fn in_i64(x: int) -> bool {
    i64::MIN <= x <= i64::MAX
}

/// Sum of the first `k` products `a[i] * b[i]`.
pub open spec fn dot_prefix(a: Seq<i64>, b: Seq<i64>, k: int) -> int
    decreases k,
{
    if k <= 0 {
        0
    } else {
        dot_prefix(a, b, k - 1) + a[k - 1] * b[k - 1]
    }
}

/// The dot product of two sequences of equal length.
pub open spec fn spec_dot(a: Seq<i64>, b: Seq<i64>) -> int {
    dot_prefix(a, b, a.len() as int)
}

/// The running sum that `dot` computes stays within `i64` at every step.
pub open spec fn dot_fits(a: Seq<i64>, b: Seq<i64>) -> bool {
    forall|k: int|
        1 <= k <= a.len() ==> in_i64(a[k - 1] * b[k - 1]) && in_i64(
            #[trigger] dot_prefix(a, b, k),
        )
}

/// Component `i` of `s`, or zero where `s` has no such component.
pub open spec fn component_or_zero(s: Seq<i64>, i: int) -> i64 {
    if 0 <= i < s.len() {
        s[i]
    } else {
        0
    }
}

/// Every componentwise sum of `a` and `b` fits in an `i64`.
pub open spec fn add_fits(a: Seq<i64>, b: Seq<i64>) -> bool {
    forall|i: int| 0 <= i < a.len() ==> #[trigger] in_i64(a[i] + b[i])
}

/// Every componentwise difference of `a` and `b` fits in an `i64`.
pub open spec fn sub_fits(a: Seq<i64>, b: Seq<i64>) -> bool {
    forall|i: int| 0 <= i < a.len() ==> #[trigger] in_i64(a[i] - b[i])
}

/// Every componentwise product of `a` and `b` fits in an `i64`.
pub open spec fn mul_fits(a: Seq<i64>, b: Seq<i64>) -> bool {
    forall|i: int| 0 <= i < a.len() ==> #[trigger] in_i64(a[i] * b[i])
}

/// Rust's integer division, which rounds toward zero.
pub open spec fn trunc_div(x: int, d: int) -> int {
    if x >= 0 {
        x / d
    } else {
        -((-x) / d)
    }
}

/// Componentwise minimum of two sequences.
pub open spec fn seq_min(a: Seq<i64>, b: Seq<i64>) -> Seq<i64> {
    Seq::new(a.len(), |i: int| if a[i] <= b[i] { a[i] } else { b[i] })
}

/// Componentwise maximum of two sequences.
pub open spec fn seq_max(a: Seq<i64>, b: Seq<i64>) -> Seq<i64> {
    Seq::new(a.len(), |i: int| if a[i] >= b[i] { a[i] } else { b[i] })
}

/// Componentwise difference of two sequences.
pub open spec fn seq_sub(a: Seq<i64>, b: Seq<i64>) -> Seq<int> {
    Seq::new(a.len(), |i: int| a[i] - b[i])
}

/// A column vector of `N` integer components.
#[derive(Clone, Copy, Debug)]
pub struct Vector<const N: usize> {
    pub data: [i64; N],
}

impl<const N: usize> View for Vector<N> {
    type V = Seq<i64>;

    open spec fn view(&self) -> Seq<i64> {
        self.data@
    }
}

/// Two components, as named fields.
#[derive(Clone, Copy, Debug)]
pub struct XY {
    pub x: i64,
    pub y: i64,
}

/// Three components, as named fields.
#[derive(Clone, Copy, Debug)]
pub struct XYZ {
    pub x: i64,
    pub y: i64,
    pub z: i64,
}

/// Four components, as named fields.
#[derive(Clone, Copy, Debug)]
pub struct XYZW {
    pub x: i64,
    pub y: i64,
    pub z: i64,
    pub w: i64,
}

impl<const N: usize> Vector<N> {
    pub fn new_from_slice(values: [i64; N]) -> (v: Self)
        ensures
            v@ == values@,
    {
        Vector { data: values }
    }

    /// The components as an array.
    pub fn as_array(self) -> (a: [i64; N])
        ensures
            a@ == self@,
    {
        self.data
    }

    /// A vector with every component set to `value`.
    pub fn fill(value: i64) -> (v: Self)
        ensures
            v@.len() == N,
            forall|i: int| 0 <= i < N ==> #[trigger] v@[i] == value,
    {
        let mut data = vstd::array::array_fill_for_copy_types::<i64, N>(value);
        Vector { data }
    }

    /// Component `i`.
    pub fn get(&self, i: usize) -> (r: i64)
        requires
            i < N,
        ensures
            r == self@[i as int],
    {
        self.data[i]
    }

    /// Sets component `i` to `value`.
    pub fn set(&mut self, i: usize, value: i64)
        requires
            i < N,
        ensures
            final(self)@ == old(self)@.update(i as int, value),
    {
        self.data[i] = value;
    }

    /// Dot product of `self` and `other`.
    pub fn dot(self, other: Self) -> (r: i64)
        requires
            dot_fits(self@, other@),
        ensures
            r == spec_dot(self@, other@),
    {
        let mut total: i64 = 0;
        let mut i: usize = 0;
        while i < N
            invariant
                i <= N,
                self@.len() == N,
                other@.len() == N,
                total == dot_prefix(self@, other@, i as int),
                dot_fits(self@, other@),
            decreases N - i,
        {
            assert(dot_prefix(self@, other@, i + 1) == dot_prefix(self@, other@, i as int)
                + self@[i as int] * other@[i as int]);
            assert(in_i64(self@[i as int] * other@[i as int]) && in_i64(
                dot_prefix(self@, other@, i + 1),
            ));
            total = total + self.data[i] * other.data[i];
            i += 1;
        }
        total
    }

    /// The squared length: the dot product of `self` with itself.
    pub fn length_squared(self) -> (r: i64)
        requires
            dot_fits(self@, self@),
        ensures
            r == spec_dot(self@, self@),
    {
        self.dot(self)
    }

    /// Returns a `Vector<2>` with x and y components.
    /// If this `Vector` has fewer than 2 components then the extra
    /// components are set to 0.
    pub fn xy(&self) -> (v: Vector<2>)
        requires
            N >= 1,
        ensures
            v@ == seq![self@[0], component_or_zero(self@, 1)],
    {
        Vector::<2>::new(self.data[0], if N > 1 { self.data[1] } else { 0 })
    }

    /// Returns a `Vector<3>` with x, y, and z components.
    /// If this `Vector` has fewer than 3 components then the extra
    /// components are set to 0.
    pub fn xyz(&self) -> (v: Vector<3>)
        requires
            N >= 1,
        ensures
            v@ == seq![self@[0], component_or_zero(self@, 1), component_or_zero(self@, 2)],
    {
        Vector::<3>::new(
            self.data[0],
            if N > 1 { self.data[1] } else { 0 },
            if N > 2 { self.data[2] } else { 0 },
        )
    }

    /// Returns a `Vector<4>` with x, y, z, w components.
    /// If this `Vector` has fewer than 4 components then the extra
    /// components are set to 0.
    pub fn xyzw(&self) -> (v: Vector<4>)
        requires
            N >= 1,
        ensures
            v@ == seq![
                self@[0],
                component_or_zero(self@, 1),
                component_or_zero(self@, 2),
                component_or_zero(self@, 3),
            ],
    {
        Vector::<4>::new(
            self.data[0],
            if N > 1 { self.data[1] } else { 0 },
            if N > 2 { self.data[2] } else { 0 },
            if N > 3 { self.data[3] } else { 0 },
        )
    }

    /// Returns the z, x and y components, in that order.
    pub fn zxy(&self) -> (v: Vector<3>)
        requires
            N >= 1,
        ensures
            v@ == seq![component_or_zero(self@, 2), self@[0], component_or_zero(self@, 1)],
    {
        Vector::<3>::new(
            if N > 2 { self.data[2] } else { 0 },
            self.data[0],
            if N > 1 { self.data[1] } else { 0 },
        )
    }

    /// Componentwise sum.
    pub fn add(self, other: Self) -> (r: Self)
        requires
            add_fits(self@, other@),
        ensures
            r@.len() == N,
            forall|i: int| 0 <= i < N ==> #[trigger] r@[i] == self@[i] + other@[i],
    {
        let mut data = self.data;
        let mut i: usize = 0;
        while i < N
            invariant
                i <= N,
                data@.len() == N,
                self@.len() == N,
                forall|j: int| 0 <= j < i ==> #[trigger] data@[j] == self@[j] + other@[j],
                forall|j: int| i <= j < N ==> #[trigger] data@[j] == self@[j],
                add_fits(self@, other@),
            decreases N - i,
        {
            assert(in_i64(self@[i as int] + other@[i as int]));
            data[i] = data[i] + other.data[i];
            i += 1;
        }
        Vector { data }
    }

    /// Componentwise difference.
    pub fn sub(self, other: Self) -> (r: Self)
        requires
            sub_fits(self@, other@),
        ensures
            r@.len() == N,
            forall|i: int| 0 <= i < N ==> #[trigger] r@[i] == self@[i] - other@[i],
    {
        let mut data = self.data;
        let mut i: usize = 0;
        while i < N
            invariant
                i <= N,
                data@.len() == N,
                self@.len() == N,
                forall|j: int| 0 <= j < i ==> #[trigger] data@[j] == self@[j] - other@[j],
                forall|j: int| i <= j < N ==> #[trigger] data@[j] == self@[j],
                sub_fits(self@, other@),
            decreases N - i,
        {
            assert(in_i64(self@[i as int] - other@[i as int]));
            data[i] = data[i] - other.data[i];
            i += 1;
        }
        Vector { data }
    }

    /// Componentwise product.
    pub fn mul_by_component(self, other: Self) -> (r: Self)
        requires
            mul_fits(self@, other@),
        ensures
            r@.len() == N,
            forall|i: int| 0 <= i < N ==> #[trigger] r@[i] == self@[i] * other@[i],
    {
        let mut data = self.data;
        let mut i: usize = 0;
        while i < N
            invariant
                i <= N,
                data@.len() == N,
                self@.len() == N,
                forall|j: int| 0 <= j < i ==> #[trigger] data@[j] == self@[j] * other@[j],
                forall|j: int| i <= j < N ==> #[trigger] data@[j] == self@[j],
                mul_fits(self@, other@),
            decreases N - i,
        {
            assert(in_i64(self@[i as int] * other@[i as int]));
            data[i] = data[i] * other.data[i];
            i += 1;
        }
        Vector { data }
    }

    /// Every component divided by `divisor`, rounding toward zero.
    pub fn div_scalar(self, divisor: i64) -> (r: Self)
        requires
            divisor > 0,
        ensures
            r@.len() == N,
            forall|i: int| 0 <= i < N ==> #[trigger] r@[i] == trunc_div(self@[i] as int, divisor as int),
    {
        let mut data = self.data;
        let mut i: usize = 0;
        while i < N
            invariant
                i <= N,
                divisor > 0,
                data@.len() == N,
                self@.len() == N,
                forall|j: int| 0 <= j < i ==> #[trigger] data@[j] == trunc_div(self@[j] as int, divisor as int),
                forall|j: int| i <= j < N ==> #[trigger] data@[j] == self@[j],
            decreases N - i,
        {
            data[i] = data[i] / divisor;
            i += 1;
        }
        Vector { data }
    }

    /// Componentwise minimum.
    pub fn min(self, other: Self) -> (r: Self)
        ensures
            r@.len() == N,
            forall|i: int| 0 <= i < N ==> #[trigger] r@[i] == if self@[i] <= other@[i] {
                self@[i]
            } else {
                other@[i]
            },
    {
        let mut data = self.data;
        let mut i: usize = 0;
        while i < N
            invariant
                i <= N,
                data@.len() == N,
                self@.len() == N,
                forall|j: int| 0 <= j < i ==> #[trigger] data@[j] == if self@[j] <= other@[j] {
                    self@[j]
                } else {
                    other@[j]
                },
                forall|j: int| i <= j < N ==> #[trigger] data@[j] == self@[j],
            decreases N - i,
        {
            if other.data[i] < data[i] {
                data[i] = other.data[i];
            }
            i += 1;
        }
        Vector { data }
    }

    /// Componentwise maximum.
    pub fn max(self, other: Self) -> (r: Self)
        ensures
            r@.len() == N,
            forall|i: int| 0 <= i < N ==> #[trigger] r@[i] == if self@[i] >= other@[i] {
                self@[i]
            } else {
                other@[i]
            },
    {
        let mut data = self.data;
        let mut i: usize = 0;
        while i < N
            invariant
                i <= N,
                data@.len() == N,
                self@.len() == N,
                forall|j: int| 0 <= j < i ==> #[trigger] data@[j] == if self@[j] >= other@[j] {
                    self@[j]
                } else {
                    other@[j]
                },
                forall|j: int| i <= j < N ==> #[trigger] data@[j] == self@[j],
            decreases N - i,
        {
            if other.data[i] > data[i] {
                data[i] = other.data[i];
            }
            i += 1;
        }
        Vector { data }
    }

    /// True when every component of `self` is strictly greater than that of `other`.
    pub fn all_greater_than(self, other: Self) -> (r: bool)
        ensures
            r == (forall|i: int| 0 <= i < N ==> #[trigger] self@[i] > other@[i]),
    {
        let mut i: usize = 0;
        while i < N
            invariant
                i <= N,
                self@.len() == N,
                forall|j: int| 0 <= j < i ==> #[trigger] self@[j] > other@[j],
            decreases N - i,
        {
            if self.data[i] <= other.data[i] {
                return false;
            }
            i += 1;
        }
        true
    }

    /// True when every component of `self` is strictly less than that of `other`.
    pub fn all_less_than(self, other: Self) -> (r: bool)
        ensures
            r == (forall|i: int| 0 <= i < N ==> #[trigger] self@[i] < other@[i]),
    {
        let mut i: usize = 0;
        while i < N
            invariant
                i <= N,
                self@.len() == N,
                forall|j: int| 0 <= j < i ==> #[trigger] self@[j] < other@[j],
            decreases N - i,
        {
            if self.data[i] >= other.data[i] {
                return false;
            }
            i += 1;
        }
        true
    }

    /// True when both vectors have the same components.
    pub fn equals(self, other: Self) -> (r: bool)
        ensures
            r == (self@ == other@),
    {
        let mut i: usize = 0;
        while i < N
            invariant
                i <= N,
                self@.len() == N,
                other@.len() == N,
                forall|j: int| 0 <= j < i ==> #[trigger] self@[j] == other@[j],
            decreases N - i,
        {
            if self.data[i] != other.data[i] {
                return false;
            }
            i += 1;
        }
        assert(self@ =~= other@);
        true
    }
}

impl Vector<1> {
    pub fn new(x: i64) -> (v: Self)
        ensures
            v@ == seq![x],
    {
        Vector { data: [x] }
    }

    pub fn x(self) -> (r: i64)
        ensures
            r == self@[0],
    {
        self.data[0]
    }

    pub fn x_mut(&mut self) -> (r: &mut i64)
        ensures
            *r == old(self)@[0],
            final(self)@ == old(self)@.update(0, *final(r)),
    {
        &mut self.data[0]
    }
}

impl Vector<2> {
    pub fn new(x: i64, y: i64) -> (v: Self)
        ensures
            v@ == seq![x, y],
    {
        Vector { data: [x, y] }
    }

    pub fn x(self) -> (r: i64)
        ensures
            r == self@[0],
    {
        self.data[0]
    }

    pub fn y(self) -> (r: i64)
        ensures
            r == self@[1],
    {
        self.data[1]
    }

    pub fn x_mut(&mut self) -> (r: &mut i64)
        ensures
            *r == old(self)@[0],
            final(self)@ == old(self)@.update(0, *final(r)),
    {
        &mut self.data[0]
    }

    pub fn y_mut(&mut self) -> (r: &mut i64)
        ensures
            *r == old(self)@[1],
            final(self)@ == old(self)@.update(1, *final(r)),
    {
        &mut self.data[1]
    }

    /// The components as named fields.
    pub fn to_xy(self) -> (r: XY)
        ensures
            r.x == self@[0] && r.y == self@[1],
    {
        XY { x: self.data[0], y: self.data[1] }
    }
}

impl Vector<3> {
    pub fn new(x: i64, y: i64, z: i64) -> (v: Self)
        ensures
            v@ == seq![x, y, z],
    {
        Vector { data: [x, y, z] }
    }

    pub fn x(self) -> (r: i64)
        ensures
            r == self@[0],
    {
        self.data[0]
    }

    pub fn y(self) -> (r: i64)
        ensures
            r == self@[1],
    {
        self.data[1]
    }

    pub fn z(self) -> (r: i64)
        ensures
            r == self@[2],
    {
        self.data[2]
    }

    pub fn x_mut(&mut self) -> (r: &mut i64)
        ensures
            *r == old(self)@[0],
            final(self)@ == old(self)@.update(0, *final(r)),
    {
        &mut self.data[0]
    }

    pub fn y_mut(&mut self) -> (r: &mut i64)
        ensures
            *r == old(self)@[1],
            final(self)@ == old(self)@.update(1, *final(r)),
    {
        &mut self.data[1]
    }

    pub fn z_mut(&mut self) -> (r: &mut i64)
        ensures
            *r == old(self)@[2],
            final(self)@ == old(self)@.update(2, *final(r)),
    {
        &mut self.data[2]
    }

    /// The components as named fields.
    pub fn to_xyz(self) -> (r: XYZ)
        ensures
            r.x == self@[0] && r.y == self@[1] && r.z == self@[2],
    {
        XYZ { x: self.data[0], y: self.data[1], z: self.data[2] }
    }
}

impl Vector<4> {
    pub fn new(x: i64, y: i64, z: i64, w: i64) -> (v: Self)
        ensures
            v@ == seq![x, y, z, w],
    {
        Vector { data: [x, y, z, w] }
    }

    pub fn x(self) -> (r: i64)
        ensures
            r == self@[0],
    {
        self.data[0]
    }

    pub fn y(self) -> (r: i64)
        ensures
            r == self@[1],
    {
        self.data[1]
    }

    pub fn z(self) -> (r: i64)
        ensures
            r == self@[2],
    {
        self.data[2]
    }

    pub fn w(self) -> (r: i64)
        ensures
            r == self@[3],
    {
        self.data[3]
    }

    pub fn x_mut(&mut self) -> (r: &mut i64)
        ensures
            *r == old(self)@[0],
            final(self)@ == old(self)@.update(0, *final(r)),
    {
        &mut self.data[0]
    }

    pub fn y_mut(&mut self) -> (r: &mut i64)
        ensures
            *r == old(self)@[1],
            final(self)@ == old(self)@.update(1, *final(r)),
    {
        &mut self.data[1]
    }

    pub fn z_mut(&mut self) -> (r: &mut i64)
        ensures
            *r == old(self)@[2],
            final(self)@ == old(self)@.update(2, *final(r)),
    {
        &mut self.data[2]
    }

    pub fn w_mut(&mut self) -> (r: &mut i64)
        ensures
            *r == old(self)@[3],
            final(self)@ == old(self)@.update(3, *final(r)),
    {
        &mut self.data[3]
    }

    /// The components as named fields.
    pub fn to_xyzw(self) -> (r: XYZW)
        ensures
            r.x == self@[0] && r.y == self@[1] && r.z == self@[2] && r.w == self@[3],
    {
        XYZW { x: self.data[0], y: self.data[1], z: self.data[2], w: self.data[3] }
    }
}

/// The cross product of two 3-component sequences.
pub open spec fn spec_cross(a: Seq<i64>, b: Seq<i64>) -> Seq<int> {
    seq![
        a[1] * b[2] - a[2] * b[1],
        a[2] * b[0] - a[0] * b[2],
        a[0] * b[1] - a[1] * b[0],
    ]
}

/// Every product and difference that `cross` computes fits in an `i64`.
pub open spec fn cross_fits(a: Seq<i64>, b: Seq<i64>) -> bool {
    &&& in_i64(a[2] * b[0]) && in_i64(a[0] * b[1]) && in_i64(a[1] * b[2])
    &&& in_i64(a[0] * b[2]) && in_i64(a[1] * b[0]) && in_i64(a[2] * b[1])
    &&& in_i64(a[2] * b[0] - a[0] * b[2])
    &&& in_i64(a[0] * b[1] - a[1] * b[0])
    &&& in_i64(a[1] * b[2] - a[2] * b[1])
}

impl Vector<3> {
    /// Produces a `Vector<3>` perpendicular to `self` and `other`.
    pub fn cross(self, other: Self) -> (r: Self)
        requires
            cross_fits(self@, other@),
        ensures
            r@.len() == 3,
            r@[0] == spec_cross(self@, other@)[0],
            r@[1] == spec_cross(self@, other@)[1],
            r@[2] == spec_cross(self@, other@)[2],
    {
        let a = self.zxy();
        let b = other.zxy();
        assert(mul_fits(a@, other@));
        assert(mul_fits(self@, b@));
        let left = a.mul_by_component(other);
        let right = self.mul_by_component(b);
        assert(sub_fits(left@, right@));
        left.sub(right).zxy()
    }
}

/// Adds one more component to a vector.
pub trait Extend {
    type ExtendTo;

    fn extend(self, value: i64) -> Self::ExtendTo;
}

impl Extend for Vector<1> {
    type ExtendTo = Vector<2>;

    fn extend(self, y: i64) -> (r: Vector<2>)
        ensures
            r@ == seq![self@[0], y],
    {
        Vector::<2>::new(self.data[0], y)
    }
}

impl Extend for Vector<2> {
    type ExtendTo = Vector<3>;

    fn extend(self, z: i64) -> (r: Vector<3>)
        ensures
            r@ == seq![self@[0], self@[1], z],
    {
        Vector::<3>::new(self.data[0], self.data[1], z)
    }
}

impl Extend for Vector<3> {
    type ExtendTo = Vector<4>;

    fn extend(self, w: i64) -> (r: Vector<4>)
        ensures
            r@ == seq![self@[0], self@[1], self@[2], w],
    {
        Vector::<4>::new(self.data[0], self.data[1], self.data[2], w)
    }
}

/// The cross product is perpendicular to both of its arguments.
pub proof fn lemma_cross_perpendicular(a: Seq<i64>, b: Seq<i64>)
    requires
        a.len() == 3,
        b.len() == 3,
    ensures
        a[0] * spec_cross(a, b)[0] + a[1] * spec_cross(a, b)[1] + a[2] * spec_cross(a, b)[2] == 0,
        b[0] * spec_cross(a, b)[0] + b[1] * spec_cross(a, b)[1] + b[2] * spec_cross(a, b)[2] == 0,
{
    let (a0, a1, a2) = (a[0] as int, a[1] as int, a[2] as int);
    let (b0, b1, b2) = (b[0] as int, b[1] as int, b[2] as int);
    assert(a0 * (a1 * b2 - a2 * b1) + a1 * (a2 * b0 - a0 * b2) + a2 * (a0 * b1 - a1 * b0) == 0)
        by (nonlinear_arith);
    assert(b0 * (a1 * b2 - a2 * b1) + b1 * (a2 * b0 - a0 * b2) + b2 * (a0 * b1 - a1 * b0) == 0)
        by (nonlinear_arith);
}

/// Swapping the arguments of the cross product negates it.
pub proof fn lemma_cross_anticommutative(a: Seq<i64>, b: Seq<i64>)
    requires
        a.len() == 3,
        b.len() == 3,
    ensures
        forall|i: int| 0 <= i < 3 ==> #[trigger] spec_cross(a, b)[i] == -spec_cross(b, a)[i],
{
    let (a0, a1, a2) = (a[0] as int, a[1] as int, a[2] as int);
    let (b0, b1, b2) = (b[0] as int, b[1] as int, b[2] as int);
    assert(a1 * b2 - a2 * b1 == -(b1 * a2 - b2 * a1)) by (nonlinear_arith);
    assert(a2 * b0 - a0 * b2 == -(b2 * a0 - b0 * a2)) by (nonlinear_arith);
    assert(a0 * b1 - a1 * b0 == -(b0 * a1 - b1 * a0)) by (nonlinear_arith);
}

/// The dot product does not depend on the order of its arguments.
pub proof fn lemma_dot_commutative(a: Seq<i64>, b: Seq<i64>, k: int)
    requires
        a.len() == b.len(),
    ensures
        dot_prefix(a, b, k) == dot_prefix(b, a, k),
    decreases k,
{
    if k > 0 {
        lemma_dot_commutative(a, b, k - 1);
        assert(a[k - 1] * b[k - 1] == b[k - 1] * a[k - 1]) by (nonlinear_arith);
    }
}

} // verus!
