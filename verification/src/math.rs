//! Vectors of two, three and four whole numbers.

use vstd::prelude::*;

verus! {

/// A point or a direction in the plane.
#[derive(Debug, Clone, Copy, PartialEq, Eq, Hash, Default)]
pub struct Vector2<T> {
    pub x: T,
    pub y: T,
}

/// A point or a direction in space.
#[derive(Debug, Clone, Copy, PartialEq, Eq, Hash, Default)]
pub struct Vector3<T> {
    pub x: T,
    pub y: T,
    pub z: T,
}

/// A point or a direction in four dimensions.
#[derive(Debug, Clone, Copy, PartialEq, Eq, Hash, Default)]
pub struct Vector4<T> {
    pub x: T,
    pub y: T,
    pub z: T,
    pub w: T,
}

impl<T> Vector2<T> {
    pub fn new(x: T, y: T) -> (v: Self)
        ensures
            v.x == x,
            v.y == y,
    {
        Vector2 { x, y }
    }
}

impl<T> Vector3<T> {
    pub fn new(x: T, y: T, z: T) -> (v: Self)
        ensures
            v.x == x,
            v.y == y,
            v.z == z,
    {
        Vector3 { x, y, z }
    }
}

impl<T> Vector4<T> {
    pub fn new(x: T, y: T, z: T, w: T) -> (v: Self)
        ensures
            v.x == x,
            v.y == y,
            v.z == z,
            v.w == w,
    {
        Vector4 { x, y, z, w }
    }
}

impl<T: Copy> Vector2<T> {
    pub fn x(&self) -> (x: T)
        ensures
            x == self.x,
    {
        self.x
    }

    pub fn y(&self) -> (y: T)
        ensures
            y == self.y,
    {
        self.y
    }
}

impl<T: Copy> Vector3<T> {
    pub fn x(&self) -> (x: T)
        ensures
            x == self.x,
    {
        self.x
    }

    pub fn y(&self) -> (y: T)
        ensures
            y == self.y,
    {
        self.y
    }

    pub fn z(&self) -> (z: T)
        ensures
            z == self.z,
    {
        self.z
    }
}

impl<T: Copy> Vector4<T> {
    pub fn x(&self) -> (x: T)
        ensures
            x == self.x,
    {
        self.x
    }

    pub fn y(&self) -> (y: T)
        ensures
            y == self.y,
    {
        self.y
    }

    pub fn z(&self) -> (z: T)
        ensures
            z == self.z,
    {
        self.z
    }

    pub fn w(&self) -> (w: T)
        ensures
            w == self.w,
    {
        self.w
    }
}

/// A number that has a distance from zero.
pub trait Abs: Sized {
    type Output;

    /// Whether the distance from zero fits.
    spec fn abs_fits(self) -> bool;

    /// The distance of `self` from zero.
    spec fn abs_spec(self) -> Self::Output;

    fn abs(self) -> (r: Self::Output)
        requires
            self.abs_fits(),
        ensures
            r == self.abs_spec(),
    ;
}

impl Abs for isize {
    type Output = isize;

    open spec fn abs_fits(self) -> bool {
        self > isize::MIN
    }

    open spec fn abs_spec(self) -> isize {
        if self < 0 {
            (-self) as isize
        } else {
            self
        }
    }

    fn abs(self) -> (r: isize) {
        if self < 0 {
            -self
        } else {
            self
        }
    }
}

/// The distance between `a` and `b`.
pub open spec fn distance(a: int, b: int) -> int {
    if a < b {
        b - a
    } else {
        a - b
    }
}

impl Vector2<isize> {
    /// The sum of the distances along the two axes.
    pub open spec fn manhattan_distance_spec(self, other: Self) -> int {
        distance(self.x as int, other.x as int) + distance(self.y as int, other.y as int)
    }

    /// The sum of the distances along the two axes.
    pub fn manhattan_distance(self, other: Self) -> (d: isize)
        requires
            self.manhattan_distance_spec(other) <= isize::MAX,
        ensures
            d == self.manhattan_distance_spec(other),
    {
        Abs::abs(self.x() - other.x()) + Abs::abs(self.y() - other.y())
    }

    /// The sum of the two vectors, if it fits.
    pub fn checked_add(self, other: Self) -> (sum: Option<Self>)
        ensures
            sum == (match (self.x.checked_add(other.x), self.y.checked_add(other.y)) {
                (Some(x), Some(y)) => Some(Vector2 { x, y }),
                _ => None,
            }),
    {
        match (self.x.checked_add(other.x), self.y.checked_add(other.y)) {
            (Some(x), Some(y)) => Some(Vector2 { x, y }),
            _ => None,
        }
    }

    /// The vector, `factor` times as long, if it fits.
    pub fn checked_mul(self, factor: isize) -> (product: Option<Self>)
        ensures
            product == (match (self.x.checked_mul(factor), self.y.checked_mul(factor)) {
                (Some(x), Some(y)) => Some(Vector2 { x, y }),
                _ => None,
            }),
    {
        match (self.x.checked_mul(factor), self.y.checked_mul(factor)) {
            (Some(x), Some(y)) => Some(Vector2 { x, y }),
            _ => None,
        }
    }
}

impl Vector2<isize> {
    /// The difference of the two vectors, if it fits.
    pub fn checked_sub(self, other: Self) -> (r: Option<Self>)
        ensures
            r == (match (
                self.x.checked_sub(other.x),
                self.y.checked_sub(other.y),
            ) {
                (Some(x), Some(y)) => Some(Vector2 { x, y }),
                _ => None,
            }),
    {
        match (
            self.x.checked_sub(other.x),
            self.y.checked_sub(other.y),
        ) {
            (Some(x), Some(y)) => Some(Vector2 { x, y }),
            _ => None,
        }
    }

    /// The vector turned round, if it fits.
    pub fn checked_neg(self) -> (r: Option<Self>)
        ensures
            r == (match (
                0isize.checked_sub(self.x),
                0isize.checked_sub(self.y),
            ) {
                (Some(x), Some(y)) => Some(Vector2 { x, y }),
                _ => None,
            }),
    {
        match (
            0isize.checked_sub(self.x),
            0isize.checked_sub(self.y),
        ) {
            (Some(x), Some(y)) => Some(Vector2 { x, y }),
            _ => None,
        }
    }
}

impl Vector3<isize> {
    /// The sum of the two vectors, if it fits.
    pub fn checked_add(self, other: Self) -> (r: Option<Self>)
        ensures
            r == (match (
                self.x.checked_add(other.x),
                self.y.checked_add(other.y),
                self.z.checked_add(other.z),
            ) {
                (Some(x), Some(y), Some(z)) => Some(Vector3 { x, y, z }),
                _ => None,
            }),
    {
        match (
            self.x.checked_add(other.x),
            self.y.checked_add(other.y),
            self.z.checked_add(other.z),
        ) {
            (Some(x), Some(y), Some(z)) => Some(Vector3 { x, y, z }),
            _ => None,
        }
    }

    /// The vector, `factor` times as long, if it fits.
    pub fn checked_mul(self, factor: isize) -> (r: Option<Self>)
        ensures
            r == (match (
                self.x.checked_mul(factor),
                self.y.checked_mul(factor),
                self.z.checked_mul(factor),
            ) {
                (Some(x), Some(y), Some(z)) => Some(Vector3 { x, y, z }),
                _ => None,
            }),
    {
        match (
            self.x.checked_mul(factor),
            self.y.checked_mul(factor),
            self.z.checked_mul(factor),
        ) {
            (Some(x), Some(y), Some(z)) => Some(Vector3 { x, y, z }),
            _ => None,
        }
    }

    /// The difference of the two vectors, if it fits.
    pub fn checked_sub(self, other: Self) -> (r: Option<Self>)
        ensures
            r == (match (
                self.x.checked_sub(other.x),
                self.y.checked_sub(other.y),
                self.z.checked_sub(other.z),
            ) {
                (Some(x), Some(y), Some(z)) => Some(Vector3 { x, y, z }),
                _ => None,
            }),
    {
        match (
            self.x.checked_sub(other.x),
            self.y.checked_sub(other.y),
            self.z.checked_sub(other.z),
        ) {
            (Some(x), Some(y), Some(z)) => Some(Vector3 { x, y, z }),
            _ => None,
        }
    }

    /// The vector turned round, if it fits.
    pub fn checked_neg(self) -> (r: Option<Self>)
        ensures
            r == (match (
                0isize.checked_sub(self.x),
                0isize.checked_sub(self.y),
                0isize.checked_sub(self.z),
            ) {
                (Some(x), Some(y), Some(z)) => Some(Vector3 { x, y, z }),
                _ => None,
            }),
    {
        match (
            0isize.checked_sub(self.x),
            0isize.checked_sub(self.y),
            0isize.checked_sub(self.z),
        ) {
            (Some(x), Some(y), Some(z)) => Some(Vector3 { x, y, z }),
            _ => None,
        }
    }
}

impl Vector4<isize> {
    /// The sum of the two vectors, if it fits.
    pub fn checked_add(self, other: Self) -> (r: Option<Self>)
        ensures
            r == (match (
                self.x.checked_add(other.x),
                self.y.checked_add(other.y),
                self.z.checked_add(other.z),
                self.w.checked_add(other.w),
            ) {
                (Some(x), Some(y), Some(z), Some(w)) => Some(Vector4 { x, y, z, w }),
                _ => None,
            }),
    {
        match (
            self.x.checked_add(other.x),
            self.y.checked_add(other.y),
            self.z.checked_add(other.z),
            self.w.checked_add(other.w),
        ) {
            (Some(x), Some(y), Some(z), Some(w)) => Some(Vector4 { x, y, z, w }),
            _ => None,
        }
    }

    /// The vector, `factor` times as long, if it fits.
    pub fn checked_mul(self, factor: isize) -> (r: Option<Self>)
        ensures
            r == (match (
                self.x.checked_mul(factor),
                self.y.checked_mul(factor),
                self.z.checked_mul(factor),
                self.w.checked_mul(factor),
            ) {
                (Some(x), Some(y), Some(z), Some(w)) => Some(Vector4 { x, y, z, w }),
                _ => None,
            }),
    {
        match (
            self.x.checked_mul(factor),
            self.y.checked_mul(factor),
            self.z.checked_mul(factor),
            self.w.checked_mul(factor),
        ) {
            (Some(x), Some(y), Some(z), Some(w)) => Some(Vector4 { x, y, z, w }),
            _ => None,
        }
    }

    /// The difference of the two vectors, if it fits.
    pub fn checked_sub(self, other: Self) -> (r: Option<Self>)
        ensures
            r == (match (
                self.x.checked_sub(other.x),
                self.y.checked_sub(other.y),
                self.z.checked_sub(other.z),
                self.w.checked_sub(other.w),
            ) {
                (Some(x), Some(y), Some(z), Some(w)) => Some(Vector4 { x, y, z, w }),
                _ => None,
            }),
    {
        match (
            self.x.checked_sub(other.x),
            self.y.checked_sub(other.y),
            self.z.checked_sub(other.z),
            self.w.checked_sub(other.w),
        ) {
            (Some(x), Some(y), Some(z), Some(w)) => Some(Vector4 { x, y, z, w }),
            _ => None,
        }
    }

    /// The vector turned round, if it fits.
    pub fn checked_neg(self) -> (r: Option<Self>)
        ensures
            r == (match (
                0isize.checked_sub(self.x),
                0isize.checked_sub(self.y),
                0isize.checked_sub(self.z),
                0isize.checked_sub(self.w),
            ) {
                (Some(x), Some(y), Some(z), Some(w)) => Some(Vector4 { x, y, z, w }),
                _ => None,
            }),
    {
        match (
            0isize.checked_sub(self.x),
            0isize.checked_sub(self.y),
            0isize.checked_sub(self.z),
            0isize.checked_sub(self.w),
        ) {
            (Some(x), Some(y), Some(z), Some(w)) => Some(Vector4 { x, y, z, w }),
            _ => None,
        }
    }
}

} // verus!
