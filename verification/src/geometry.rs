//! Grid coordinates, axis-aligned planes and the 24 quarter-turn rotations of the cube.

use vstd::prelude::*;

verus! {

/// Whether an integer fits in an `i32`.
pub open spec fn fits_i32(v: int) -> bool {
    i32::MIN <= v <= i32::MAX
}

/// Whether an integer fits in an `i8`.
pub open spec fn fits_i8(v: int) -> bool {
    i8::MIN <= v <= i8::MAX
}

pub open spec fn abs(v: int) -> int {
    if v < 0 {
        -v
    } else {
        v
    }
}

/// A cell of the bead grid.
#[derive(Clone, Copy, Debug, PartialEq, Eq, Structural, PartialOrd, Ord, Hash)]
pub struct GridPosition {
    pub x: i32,
    pub y: i32,
    pub z: i32,
}

/// The key under which a bead at a position is stored; keys order as positions do
/// (lexicographically by `x`, then `y`, then `z`).
pub type BeadKey = (i32, i32, i32);

pub open spec fn key_position(key: BeadKey) -> GridPosition {
    GridPosition { x: key.0, y: key.1, z: key.2 }
}

impl GridPosition {
    pub fn new(x: i32, y: i32, z: i32) -> (r: GridPosition)
        ensures
            r == (GridPosition { x, y, z }),
    {
        GridPosition { x, y, z }
    }

    /// The origin of the grid.
    pub fn zero() -> (r: GridPosition)
        ensures
            r == (GridPosition { x: 0, y: 0, z: 0 }),
    {
        GridPosition { x: 0, y: 0, z: 0 }
    }

    pub open spec fn spec_key(self) -> BeadKey {
        (self.x, self.y, self.z)
    }

    /// The map key of this position.
    #[verifier::when_used_as_spec(spec_key)]
    pub fn key(self) -> (r: BeadKey)
        ensures
            r == self.spec_key(),
    {
        (self.x, self.y, self.z)
    }

    /// The position stored under a map key.
    pub fn from_key(key: BeadKey) -> (r: GridPosition)
        ensures
            r == key_position(key),
            r.spec_key() == key,
    {
        GridPosition { x: key.0, y: key.1, z: key.2 }
    }
}

/// Strict lexicographic order on bead keys (the order of `GridPosition`).
pub open spec fn key_lt(a: BeadKey, b: BeadKey) -> bool {
    a.0 < b.0 || (a.0 == b.0 && a.1 < b.1) || (a.0 == b.0 && a.1 == b.1 && a.2 < b.2)
}

pub fn key_less(a: BeadKey, b: BeadKey) -> (r: bool)
    ensures
        r == key_lt(a, b),
{
    a.0 < b.0 || (a.0 == b.0 && a.1 < b.1) || (a.0 == b.0 && a.1 == b.1 && a.2 < b.2)
}

#[derive(Clone, Copy, Debug, PartialEq, Eq, Structural, PartialOrd, Ord, Hash)]
pub struct GridSize {
    pub width: u32,
    pub height: u32,
    pub depth: u32,
}

#[derive(Clone, Copy, Debug, PartialEq, Eq, Structural, PartialOrd, Ord, Hash)]
pub enum OrthogonalOrientation {
    Xy,
    Xz,
    Yz,
}

#[derive(Clone, Copy, Debug, PartialEq, Eq, Structural, PartialOrd, Ord, Hash)]
pub enum GridAxis {
    X,
    Y,
    Z,
}

/// An integer 3x3 matrix acting on grid positions. Valid values are the rotations of
/// the cube: signed permutation matrices with determinant 1.
#[derive(Clone, Copy, Debug, PartialEq, Eq, Structural, PartialOrd, Ord, Hash)]
pub struct GridRotation {
    m00: i8,
    m01: i8,
    m02: i8,
    m10: i8,
    m11: i8,
    m12: i8,
    m20: i8,
    m21: i8,
    m22: i8,
}

pub closed spec fn matrix_of(
    a: int,
    b: int,
    c: int,
    d: int,
    e: int,
    f: int,
    g: int,
    h: int,
    i: int,
) -> GridRotation {
    GridRotation {
        m00: a as i8,
        m01: b as i8,
        m02: c as i8,
        m10: d as i8,
        m11: e as i8,
        m12: f as i8,
        m20: g as i8,
        m21: h as i8,
        m22: i as i8,
    }
}

/// The identity rotation.
pub closed spec fn identity_rotation() -> GridRotation {
    GridRotation { m00: 1, m01: 0, m02: 0, m10: 0, m11: 1, m12: 0, m20: 0, m21: 0, m22: 1 }
}

/// One positive quarter turn about an axis.
pub closed spec fn quarter_turn(axis: GridAxis) -> GridRotation {
    match axis {
        GridAxis::X => GridRotation {
            m00: 1,
            m01: 0,
            m02: 0,
            m10: 0,
            m11: 0,
            m12: -1i8,
            m20: 0,
            m21: 1,
            m22: 0,
        },
        GridAxis::Y => GridRotation {
            m00: 0,
            m01: 0,
            m02: 1,
            m10: 0,
            m11: 1,
            m12: 0,
            m20: -1i8,
            m21: 0,
            m22: 0,
        },
        GridAxis::Z => GridRotation {
            m00: 0,
            m01: -1i8,
            m02: 0,
            m10: 1,
            m11: 0,
            m12: 0,
            m20: 0,
            m21: 0,
            m22: 1,
        },
    }
}

impl GridRotation {
    /// The entry in row `r` and column `c`.
    pub closed spec fn at(self, r: int, c: int) -> int {
        if r == 0 {
            if c == 0 {
                self.m00 as int
            } else if c == 1 {
                self.m01 as int
            } else {
                self.m02 as int
            }
        } else if r == 1 {
            if c == 0 {
                self.m10 as int
            } else if c == 1 {
                self.m11 as int
            } else {
                self.m12 as int
            }
        } else {
            if c == 0 {
                self.m20 as int
            } else if c == 1 {
                self.m21 as int
            } else {
                self.m22 as int
            }
        }
    }

    pub fn identity() -> (r: GridRotation)
        ensures
            r == identity_rotation(),
    {
        GridRotation { m00: 1, m01: 0, m02: 0, m10: 0, m11: 1, m12: 0, m20: 0, m21: 0, m22: 1 }
    }

    /// A rotation with the given rows; nothing checks that it is valid.
    pub fn from_matrix(matrix: [[i8; 3]; 3]) -> (r: GridRotation)
        ensures
            forall|i: int, j: int| 0 <= i < 3 && 0 <= j < 3 ==> r.at(i, j) == matrix[i][j],
    {
        let row0 = matrix[0];
        let row1 = matrix[1];
        let row2 = matrix[2];
        GridRotation {
            m00: row0[0],
            m01: row0[1],
            m02: row0[2],
            m10: row1[0],
            m11: row1[1],
            m12: row1[2],
            m20: row2[0],
            m21: row2[1],
            m22: row2[2],
        }
    }

    /// The rows of the matrix.
    pub fn to_matrix(self) -> (r: [[i8; 3]; 3])
        ensures
            forall|i: int, j: int| 0 <= i < 3 && 0 <= j < 3 ==> r[i][j] == self.at(i, j),
    {
        [
            [self.m00, self.m01, self.m02],
            [self.m10, self.m11, self.m12],
            [self.m20, self.m21, self.m22],
        ]
    }

    // ---------------------------------------------------------------- apply

    /// Row `r` of the matrix times the position, as computed from left to right.
    pub open spec fn row_dot(self, r: int, p: GridPosition) -> int {
        self.at(r, 0) * p.x + self.at(r, 1) * p.y + self.at(r, 2) * p.z
    }

    /// No product and no partial sum of row `r` times `p` leaves the `i32` range.
    pub open spec fn row_fits(self, r: int, p: GridPosition) -> bool {
        &&& fits_i32(self.at(r, 0) * p.x)
        &&& fits_i32(self.at(r, 1) * p.y)
        &&& fits_i32(self.at(r, 2) * p.z)
        &&& fits_i32(self.at(r, 0) * p.x + self.at(r, 1) * p.y)
        &&& fits_i32(self.row_dot(r, p))
    }

    /// Applying the matrix to `p` stays within `i32` at every step.
    pub open spec fn apply_fits(self, p: GridPosition) -> bool {
        self.row_fits(0, p) && self.row_fits(1, p) && self.row_fits(2, p)
    }

    pub open spec fn spec_apply(self, p: GridPosition) -> GridPosition {
        GridPosition {
            x: self.row_dot(0, p) as i32,
            y: self.row_dot(1, p) as i32,
            z: self.row_dot(2, p) as i32,
        }
    }

    /// The matrix times the position.
    pub fn apply(self, position: GridPosition) -> (r: GridPosition)
        requires
            self.apply_fits(position),
        ensures
            r == self.spec_apply(position),
            r.x == self.row_dot(0, position),
            r.y == self.row_dot(1, position),
            r.z == self.row_dot(2, position),
    {
        let x = position.x;
        let y = position.y;
        let z = position.z;
        GridPosition::new(
            self.m00 as i32 * x + self.m01 as i32 * y + self.m02 as i32 * z,
            self.m10 as i32 * x + self.m11 as i32 * y + self.m12 as i32 * z,
            self.m20 as i32 * x + self.m21 as i32 * y + self.m22 as i32 * z,
        )
    }

    // ---------------------------------------------------------------- compose

    /// Entry `(r, c)` of `self * right`.
    pub open spec fn product(self, right: GridRotation, r: int, c: int) -> int {
        self.at(r, 0) * right.at(0, c) + self.at(r, 1) * right.at(1, c) + self.at(r, 2) * right.at(
            2,
            c,
        )
    }

    /// Entry `(r, c)` of `self * right` is computed without leaving the `i8` range.
    pub open spec fn product_fits(self, right: GridRotation, r: int, c: int) -> bool {
        &&& fits_i8(self.at(r, 0) * right.at(0, c))
        &&& fits_i8(self.at(r, 1) * right.at(1, c))
        &&& fits_i8(self.at(r, 2) * right.at(2, c))
        &&& fits_i8(self.at(r, 0) * right.at(0, c) + self.at(r, 1) * right.at(1, c))
        &&& fits_i8(self.product(right, r, c))
    }

    pub open spec fn compose_fits(self, right: GridRotation) -> bool {
        forall|r: int, c: int| 0 <= r < 3 && 0 <= c < 3 ==> #[trigger] self.product_fits(right, r, c)
    }

    pub open spec fn spec_compose(self, right: GridRotation) -> GridRotation {
        matrix_of(
            self.product(right, 0, 0),
            self.product(right, 0, 1),
            self.product(right, 0, 2),
            self.product(right, 1, 0),
            self.product(right, 1, 1),
            self.product(right, 1, 2),
            self.product(right, 2, 0),
            self.product(right, 2, 1),
            self.product(right, 2, 2),
        )
    }

    /// The matrix product `self * right`: apply `right` first, then `self`.
    pub fn compose(self, right: GridRotation) -> (r: GridRotation)
        requires
            self.compose_fits(right),
        ensures
            r == self.spec_compose(right),
            forall|i: int, j: int| 0 <= i < 3 && 0 <= j < 3 ==> #[trigger] r.at(i, j) == self.product(right, i, j),
    {
        proof {
            assert(self.product_fits(right, 0, 0));
            assert(self.product_fits(right, 0, 1));
            assert(self.product_fits(right, 0, 2));
            assert(self.product_fits(right, 1, 0));
            assert(self.product_fits(right, 1, 1));
            assert(self.product_fits(right, 1, 2));
            assert(self.product_fits(right, 2, 0));
            assert(self.product_fits(right, 2, 1));
            assert(self.product_fits(right, 2, 2));
        }
        let a = self;
        let b = right;
        GridRotation {
            m00: a.m00 * b.m00 + a.m01 * b.m10 + a.m02 * b.m20,
            m01: a.m00 * b.m01 + a.m01 * b.m11 + a.m02 * b.m21,
            m02: a.m00 * b.m02 + a.m01 * b.m12 + a.m02 * b.m22,
            m10: a.m10 * b.m00 + a.m11 * b.m10 + a.m12 * b.m20,
            m11: a.m10 * b.m01 + a.m11 * b.m11 + a.m12 * b.m21,
            m12: a.m10 * b.m02 + a.m11 * b.m12 + a.m12 * b.m22,
            m20: a.m20 * b.m00 + a.m21 * b.m10 + a.m22 * b.m20,
            m21: a.m20 * b.m01 + a.m21 * b.m11 + a.m22 * b.m21,
            m22: a.m20 * b.m02 + a.m21 * b.m12 + a.m22 * b.m22,
        }
    }

    // ---------------------------------------------------------------- inverse

    pub closed spec fn spec_inverse(self) -> GridRotation {
        GridRotation {
            m00: self.m00,
            m01: self.m10,
            m02: self.m20,
            m10: self.m01,
            m11: self.m11,
            m12: self.m21,
            m20: self.m02,
            m21: self.m12,
            m22: self.m22,
        }
    }

    /// The transpose, which undoes a valid rotation.
    pub fn inverse(self) -> (r: GridRotation)
        ensures
            r == self.spec_inverse(),
            forall|i: int, j: int| 0 <= i < 3 && 0 <= j < 3 ==> #[trigger] r.at(i, j) == self.at(j, i),
    {
        GridRotation {
            m00: self.m00,
            m01: self.m10,
            m02: self.m20,
            m10: self.m01,
            m11: self.m11,
            m12: self.m21,
            m20: self.m02,
            m21: self.m12,
            m22: self.m22,
        }
    }

    // ---------------------------------------------------------------- quarter turns

    /// `n` quarter turns about `axis` applied after `self`.
    pub open spec fn rotated(self, axis: GridAxis, n: nat) -> GridRotation
        decreases n,
    {
        if n == 0 {
            self
        } else {
            quarter_turn(axis).spec_compose(self.rotated(axis, (n - 1) as nat))
        }
    }

    /// Every one of the `n` compositions stays within `i8`.
    pub open spec fn rotation_fits(self, axis: GridAxis, n: nat) -> bool
        decreases n,
    {
        n == 0 || (self.rotation_fits(axis, (n - 1) as nat) && quarter_turn(axis).compose_fits(
            self.rotated(axis, (n - 1) as nat),
        ))
    }

    /// Quarter turns about `axis` after this rotation; the count is taken modulo four.
    pub fn rotate_quarter(self, axis: GridAxis, quarter_turns: i8) -> (r: GridRotation)
        requires
            self.rotation_fits(axis, (quarter_turns % 4) as nat),
        ensures
            r == self.rotated(axis, (quarter_turns % 4) as nat),
    {
        let turn = match axis {
            GridAxis::X => GridRotation {
                m00: 1,
                m01: 0,
                m02: 0,
                m10: 0,
                m11: 0,
                m12: -1,
                m20: 0,
                m21: 1,
                m22: 0,
            },
            GridAxis::Y => GridRotation {
                m00: 0,
                m01: 0,
                m02: 1,
                m10: 0,
                m11: 1,
                m12: 0,
                m20: -1,
                m21: 0,
                m22: 0,
            },
            GridAxis::Z => GridRotation {
                m00: 0,
                m01: -1,
                m02: 0,
                m10: 1,
                m11: 0,
                m12: 0,
                m20: 0,
                m21: 0,
                m22: 1,
            },
        };
        let turns: i8 = match quarter_turns.checked_rem_euclid(4) {
            Some(t) => t,
            None => 0,
        };
        let ghost n: nat = (quarter_turns % 4) as nat;
        assert(turns == n);
        let mut result = self;
        let mut done: i8 = 0;
        while done < turns
            invariant
                0 <= done <= turns,
                turns == n,
                turn == quarter_turn(axis),
                self.rotation_fits(axis, n),
                result == self.rotated(axis, done as nat),
            decreases turns - done,
        {
            proof {
                lemma_rotation_fits_prefix(self, axis, (done + 1) as nat, n);
            }
            result = turn.compose(result);
            done = done + 1;
        }
        result
    }

    // ---------------------------------------------------------------- validity

    pub open spec fn row_abs_sum(self, r: int) -> int {
        abs(self.at(r, 0)) + abs(self.at(r, 1)) + abs(self.at(r, 2))
    }

    pub open spec fn column_abs_sum(self, c: int) -> int {
        abs(self.at(0, c)) + abs(self.at(1, c)) + abs(self.at(2, c))
    }

    pub open spec fn spec_determinant(self) -> int {
        self.at(0, 0) * (self.at(1, 1) * self.at(2, 2) - self.at(1, 2) * self.at(2, 1)) - self.at(
            0,
            1,
        ) * (self.at(1, 0) * self.at(2, 2) - self.at(1, 2) * self.at(2, 0)) + self.at(0, 2) * (
        self.at(1, 0) * self.at(2, 1) - self.at(1, 1) * self.at(2, 0))
    }

    pub open spec fn rows_are_unit(self) -> bool {
        self.row_abs_sum(0) == 1 && self.row_abs_sum(1) == 1 && self.row_abs_sum(2) == 1
    }

    pub open spec fn columns_are_unit(self) -> bool {
        self.column_abs_sum(0) == 1 && self.column_abs_sum(1) == 1 && self.column_abs_sum(2) == 1
    }

    /// A rotation of the cube: a signed permutation matrix with determinant 1.
    pub open spec fn spec_is_valid(self) -> bool {
        self.rows_are_unit() && self.columns_are_unit() && self.spec_determinant() == 1
    }

    /// The `u8` sums of absolute values that `is_valid` computes do not overflow: each row
    /// (and each column) is summed only while the ones before it summed to 1.
    pub open spec fn abs_sums_fit(self) -> bool {
        &&& self.row_abs_sum(0) <= 255
        &&& self.row_abs_sum(0) == 1 ==> self.row_abs_sum(1) <= 255
        &&& self.row_abs_sum(0) == 1 && self.row_abs_sum(1) == 1 ==> self.row_abs_sum(2) <= 255
        &&& self.column_abs_sum(0) <= 255
        &&& self.column_abs_sum(0) == 1 ==> self.column_abs_sum(1) <= 255
        &&& self.column_abs_sum(0) == 1 && self.column_abs_sum(1) == 1 ==> self.column_abs_sum(2)
            <= 255
    }

    /// Whether this is one of the 24 rotations of the cube.
    pub fn is_valid(self) -> (r: bool)
        requires
            self.abs_sums_fit(),
        ensures
            r == self.spec_is_valid(),
    {
        let rows_are_unit = abs_sum(self.m00, self.m01, self.m02) == 1 && abs_sum(
            self.m10,
            self.m11,
            self.m12,
        ) == 1 && abs_sum(self.m20, self.m21, self.m22) == 1;
        let columns_are_unit = abs_sum(self.m00, self.m10, self.m20) == 1 && abs_sum(
            self.m01,
            self.m11,
            self.m21,
        ) == 1 && abs_sum(self.m02, self.m12, self.m22) == 1;
        rows_are_unit && columns_are_unit && self.determinant() == 1
    }

    fn determinant(self) -> (r: i8)
        requires
            self.rows_are_unit(),
            self.columns_are_unit(),
        ensures
            r == self.spec_determinant(),
    {
        let m = self;
        proof {
            lemma_unit_entries(self);
            assert(self.at(0, 0) == m.m00 && self.at(1, 1) == m.m11);
            lemma_small_product(m.m11 as int, m.m22 as int, 1);
            lemma_small_product(m.m12 as int, m.m21 as int, 1);
            lemma_small_product(m.m10 as int, m.m22 as int, 1);
            lemma_small_product(m.m12 as int, m.m20 as int, 1);
            lemma_small_product(m.m10 as int, m.m21 as int, 1);
            lemma_small_product(m.m11 as int, m.m20 as int, 1);
            lemma_small_product(m.m00 as int, m.m11 * m.m22 - m.m12 * m.m21, 2);
            lemma_small_product(m.m01 as int, m.m10 * m.m22 - m.m12 * m.m20, 2);
            lemma_small_product(m.m02 as int, m.m10 * m.m21 - m.m11 * m.m20, 2);
        }
        m.m00 * (m.m11 * m.m22 - m.m12 * m.m21) - m.m01 * (m.m10 * m.m22 - m.m12 * m.m20) + m.m02 * (
        m.m10 * m.m21 - m.m11 * m.m20)
    }
}

impl Default for GridRotation {
    fn default() -> (r: GridRotation)
        ensures
            r == identity_rotation(),
    {
        GridRotation::identity()
    }
}

/// `|v|` as an unsigned byte.
pub fn unsigned_abs(v: i8) -> (r: u8)
    ensures
        r == abs(v as int),
{
    if v < 0 {
        let w: i16 = v as i16;
        (-w) as u8
    } else {
        v as u8
    }
}

fn abs_sum(a: i8, b: i8, c: i8) -> (r: u8)
    requires
        abs(a as int) + abs(b as int) + abs(c as int) <= 255,
    ensures
        r == abs(a as int) + abs(b as int) + abs(c as int),
{
    unsigned_abs(a) + unsigned_abs(b) + unsigned_abs(c)
}

/// The sum of the absolute values of three entries, computed without overflow.
fn wide_abs_sum(a: i8, b: i8, c: i8) -> (r: i32)
    ensures
        r == abs(a as int) + abs(b as int) + abs(c as int),
{
    let x: i32 = if a < 0 {
        -(a as i32)
    } else {
        a as i32
    };
    let y: i32 = if b < 0 {
        -(b as i32)
    } else {
        b as i32
    };
    let z: i32 = if c < 0 {
        -(c as i32)
    } else {
        c as i32
    };
    x + y + z
}

impl GridRotation {
    /// Whether `is_valid` can check this matrix without overflow.
    pub fn abs_sums_in_range(self) -> (r: bool)
        ensures
            r == self.abs_sums_fit(),
    {
        let r0 = wide_abs_sum(self.m00, self.m01, self.m02);
        let r1 = wide_abs_sum(self.m10, self.m11, self.m12);
        let r2 = wide_abs_sum(self.m20, self.m21, self.m22);
        let c0 = wide_abs_sum(self.m00, self.m10, self.m20);
        let c1 = wide_abs_sum(self.m01, self.m11, self.m21);
        let c2 = wide_abs_sum(self.m02, self.m12, self.m22);
        let rows = r0 <= 255 && (r0 != 1 || r1 <= 255) && (r0 != 1 || r1 != 1 || r2 <= 255);
        let columns = c0 <= 255 && (c0 != 1 || c1 <= 255) && (c0 != 1 || c1 != 1 || c2 <= 255);
        rows && columns
    }
}

/// Entries of a matrix whose rows have unit absolute sums lie in `{-1, 0, 1}`.
proof fn lemma_unit_entries(m: GridRotation)
    requires
        m.rows_are_unit(),
    ensures
        forall|r: int, c: int| 0 <= r < 3 && 0 <= c < 3 ==> -1 <= #[trigger] m.at(r, c) <= 1,
{
}

proof fn lemma_small_product(a: int, b: int, bound: int)
    requires
        -1 <= a <= 1,
        -bound <= b <= bound,
    ensures
        -bound <= a * b <= bound,
{
    assert(-bound <= a * b <= bound) by (nonlinear_arith)
        requires
            -1 <= a <= 1,
            -bound <= b <= bound,
    ;
}

proof fn lemma_rotation_fits_prefix(g: GridRotation, axis: GridAxis, k: nat, n: nat)
    requires
        k <= n,
        g.rotation_fits(axis, n),
    ensures
        g.rotation_fits(axis, k),
    decreases n - k,
{
    if k < n {
        lemma_rotation_fits_prefix(g, axis, k + 1, n);
    }
}

/// An axis-aligned plane of the grid.
#[derive(Clone, Copy, Debug, PartialEq, Eq, Structural, PartialOrd, Ord, Hash)]
pub enum Plane {
    Xy { z: i32 },
    Xz { y: i32 },
    Yz { x: i32 },
}

impl Plane {
    pub open spec fn spec_contains(self, position: GridPosition) -> bool {
        match self {
            Plane::Xy { z } => position.z == z,
            Plane::Xz { y } => position.y == y,
            Plane::Yz { x } => position.x == x,
        }
    }

    /// Whether the position lies on the plane.
    #[verifier::when_used_as_spec(spec_contains)]
    pub fn contains(self, position: GridPosition) -> (r: bool)
        ensures
            r == self.spec_contains(position),
    {
        match self {
            Plane::Xy { z } => position.z == z,
            Plane::Xz { y } => position.y == y,
            Plane::Yz { x } => position.x == x,
        }
    }

    pub open spec fn spec_orientation(self) -> OrthogonalOrientation {
        match self {
            Plane::Xy { .. } => OrthogonalOrientation::Xy,
            Plane::Xz { .. } => OrthogonalOrientation::Xz,
            Plane::Yz { .. } => OrthogonalOrientation::Yz,
        }
    }

    /// The orientation of the plane.
    #[verifier::when_used_as_spec(spec_orientation)]
    pub fn orientation(self) -> (r: OrthogonalOrientation)
        ensures
            r == self.spec_orientation(),
    {
        match self {
            Plane::Xy { .. } => OrthogonalOrientation::Xy,
            Plane::Xz { .. } => OrthogonalOrientation::Xz,
            Plane::Yz { .. } => OrthogonalOrientation::Yz,
        }
    }
}

/// Where an object sits: a translation, an orientation and a cube rotation.
#[derive(Clone, Copy, Debug, PartialEq, Eq, Structural, PartialOrd, Ord, Hash)]
pub struct Placement {
    pub translation: GridPosition,
    pub orientation: OrthogonalOrientation,
    pub rotation: GridRotation,
}

/// At the origin, in the XY orientation, unrotated.
pub open spec fn default_placement() -> Placement {
    Placement {
        translation: GridPosition { x: 0, y: 0, z: 0 },
        orientation: OrthogonalOrientation::Xy,
        rotation: identity_rotation(),
    }
}

impl Default for Placement {
    fn default() -> (r: Placement)
        ensures
            r == default_placement(),
    {
        Placement {
            translation: GridPosition::zero(),
            orientation: OrthogonalOrientation::Xy,
            rotation: GridRotation::identity(),
        }
    }
}

} // verus!

verus! {

pub open spec fn det3(
    a00: int,
    a01: int,
    a02: int,
    a10: int,
    a11: int,
    a12: int,
    a20: int,
    a21: int,
    a22: int,
) -> int {
    a00 * (a11 * a22 - a12 * a21) - a01 * (a10 * a22 - a12 * a20) + a02 * (a10 * a21 - a11 * a20)
}

/// The product of two signed permutation matrices with determinant 1 has determinant 1.
#[verifier::rlimit(100)]
proof fn bv_det_of_product(
    a00: i8,
    a01: i8,
    a02: i8,
    a10: i8,
    a11: i8,
    a12: i8,
    a20: i8,
    a21: i8,
    a22: i8,
    b00: i8,
    b01: i8,
    b02: i8,
    b10: i8,
    b11: i8,
    b12: i8,
    b20: i8,
    b21: i8,
    b22: i8,
) by (bit_vector)
    requires
        -1 <= a00 <= 1,
        -1 <= a01 <= 1,
        -1 <= a02 <= 1,
        -1 <= a10 <= 1,
        -1 <= a11 <= 1,
        -1 <= a12 <= 1,
        -1 <= a20 <= 1,
        -1 <= a21 <= 1,
        -1 <= a22 <= 1,
        -1 <= b00 <= 1,
        -1 <= b01 <= 1,
        -1 <= b02 <= 1,
        -1 <= b10 <= 1,
        -1 <= b11 <= 1,
        -1 <= b12 <= 1,
        -1 <= b20 <= 1,
        -1 <= b21 <= 1,
        -1 <= b22 <= 1,
        a00 * a00 + a01 * a01 + a02 * a02 == 1,
        a10 * a10 + a11 * a11 + a12 * a12 == 1,
        a20 * a20 + a21 * a21 + a22 * a22 == 1,
        a00 * a00 + a10 * a10 + a20 * a20 == 1,
        a01 * a01 + a11 * a11 + a21 * a21 == 1,
        a02 * a02 + a12 * a12 + a22 * a22 == 1,
        b00 * b00 + b01 * b01 + b02 * b02 == 1,
        b10 * b10 + b11 * b11 + b12 * b12 == 1,
        b20 * b20 + b21 * b21 + b22 * b22 == 1,
        b00 * b00 + b10 * b10 + b20 * b20 == 1,
        b01 * b01 + b11 * b11 + b21 * b21 == 1,
        b02 * b02 + b12 * b12 + b22 * b22 == 1,
        a00 * (a11 * a22 - a12 * a21) - a01 * (a10 * a22 - a12 * a20) + a02 * (a10 * a21 - a11
            * a20) == 1,
        b00 * (b11 * b22 - b12 * b21) - b01 * (b10 * b22 - b12 * b20) + b02 * (b10 * b21 - b11
            * b20) == 1,
    ensures
        ({
            let c00 = a00 * b00 + a01 * b10 + a02 * b20;
            let c01 = a00 * b01 + a01 * b11 + a02 * b21;
            let c02 = a00 * b02 + a01 * b12 + a02 * b22;
            let c10 = a10 * b00 + a11 * b10 + a12 * b20;
            let c11 = a10 * b01 + a11 * b11 + a12 * b21;
            let c12 = a10 * b02 + a11 * b12 + a12 * b22;
            let c20 = a20 * b00 + a21 * b10 + a22 * b20;
            let c21 = a20 * b01 + a21 * b11 + a22 * b21;
            let c22 = a20 * b02 + a21 * b12 + a22 * b22;
            c00 * (c11 * c22 - c12 * c21) - c01 * (c10 * c22 - c12 * c20) + c02 * (c10 * c21 - c11
                * c20) == 1
        }),
{
}

/// A unit row times a matrix with unit rows is a unit row (entries in `{-1, 0, 1}`).
proof fn bv_unit_row_times(
    a0: i8,
    a1: i8,
    a2: i8,
    b00: i8,
    b01: i8,
    b02: i8,
    b10: i8,
    b11: i8,
    b12: i8,
    b20: i8,
    b21: i8,
    b22: i8,
) by (bit_vector)
    requires
        -1 <= a0 <= 1,
        -1 <= a1 <= 1,
        -1 <= a2 <= 1,
        -1 <= b00 <= 1,
        -1 <= b01 <= 1,
        -1 <= b02 <= 1,
        -1 <= b10 <= 1,
        -1 <= b11 <= 1,
        -1 <= b12 <= 1,
        -1 <= b20 <= 1,
        -1 <= b21 <= 1,
        -1 <= b22 <= 1,
        a0 * a0 + a1 * a1 + a2 * a2 == 1,
        b00 * b00 + b01 * b01 + b02 * b02 == 1,
        b10 * b10 + b11 * b11 + b12 * b12 == 1,
        b20 * b20 + b21 * b21 + b22 * b22 == 1,
    ensures
        -1 <= a0 * b00 + a1 * b10 + a2 * b20 <= 1,
        -1 <= a0 * b01 + a1 * b11 + a2 * b21 <= 1,
        -1 <= a0 * b02 + a1 * b12 + a2 * b22 <= 1,
        (a0 * b00 + a1 * b10 + a2 * b20) * (a0 * b00 + a1 * b10 + a2 * b20) + (a0 * b01 + a1 * b11
            + a2 * b21) * (a0 * b01 + a1 * b11 + a2 * b21) + (a0 * b02 + a1 * b12 + a2 * b22) * (a0
            * b02 + a1 * b12 + a2 * b22) == 1,
{
}

/// The transpose of a signed permutation matrix is its left inverse.
proof fn bv_transpose_left_inverse(
    a00: i8,
    a01: i8,
    a02: i8,
    a10: i8,
    a11: i8,
    a12: i8,
    a20: i8,
    a21: i8,
    a22: i8,
) by (bit_vector)
    requires
        -1 <= a00 <= 1,
        -1 <= a01 <= 1,
        -1 <= a02 <= 1,
        -1 <= a10 <= 1,
        -1 <= a11 <= 1,
        -1 <= a12 <= 1,
        -1 <= a20 <= 1,
        -1 <= a21 <= 1,
        -1 <= a22 <= 1,
        a00 * a00 + a01 * a01 + a02 * a02 == 1,
        a10 * a10 + a11 * a11 + a12 * a12 == 1,
        a20 * a20 + a21 * a21 + a22 * a22 == 1,
        a00 * a00 + a10 * a10 + a20 * a20 == 1,
        a01 * a01 + a11 * a11 + a21 * a21 == 1,
        a02 * a02 + a12 * a12 + a22 * a22 == 1,
    ensures
        a00 * a01 + a10 * a11 + a20 * a21 == 0,
        a00 * a02 + a10 * a12 + a20 * a22 == 0,
        a01 * a02 + a11 * a12 + a21 * a22 == 0,
        a00 * a10 + a01 * a11 + a02 * a12 == 0,
        a00 * a20 + a01 * a21 + a02 * a22 == 0,
        a10 * a20 + a11 * a21 + a12 * a22 == 0,
{
}

proof fn lemma_unit_square(v: int)
    requires
        -1 <= v <= 1,
    ensures
        v * v == abs(v),
{
    assert(v * v == abs(v)) by (nonlinear_arith)
        requires
            -1 <= v <= 1,
    ;
}

/// A valid rotation has entries in `{-1, 0, 1}` whose squares sum to one along every row
/// and every column.
proof fn lemma_valid_entries(g: GridRotation)
    requires
        g.spec_is_valid(),
    ensures
        -1 <= g.m00 <= 1,
        -1 <= g.m01 <= 1,
        -1 <= g.m02 <= 1,
        -1 <= g.m10 <= 1,
        -1 <= g.m11 <= 1,
        -1 <= g.m12 <= 1,
        -1 <= g.m20 <= 1,
        -1 <= g.m21 <= 1,
        -1 <= g.m22 <= 1,
        g.m00 * g.m00 + g.m01 * g.m01 + g.m02 * g.m02 == 1,
        g.m10 * g.m10 + g.m11 * g.m11 + g.m12 * g.m12 == 1,
        g.m20 * g.m20 + g.m21 * g.m21 + g.m22 * g.m22 == 1,
        g.m00 * g.m00 + g.m10 * g.m10 + g.m20 * g.m20 == 1,
        g.m01 * g.m01 + g.m11 * g.m11 + g.m21 * g.m21 == 1,
        g.m02 * g.m02 + g.m12 * g.m12 + g.m22 * g.m22 == 1,
        g.m00 * (g.m11 * g.m22 - g.m12 * g.m21) - g.m01 * (g.m10 * g.m22 - g.m12 * g.m20) + g.m02
            * (g.m10 * g.m21 - g.m11 * g.m20) == 1,
{
    lemma_unit_entries(g);
    assert(g.at(0, 0) == g.m00 && g.at(0, 1) == g.m01 && g.at(0, 2) == g.m02);
    assert(g.at(1, 0) == g.m10 && g.at(1, 1) == g.m11 && g.at(1, 2) == g.m12);
    assert(g.at(2, 0) == g.m20 && g.at(2, 1) == g.m21 && g.at(2, 2) == g.m22);
    lemma_unit_square(g.m00 as int);
    lemma_unit_square(g.m01 as int);
    lemma_unit_square(g.m02 as int);
    lemma_unit_square(g.m10 as int);
    lemma_unit_square(g.m11 as int);
    lemma_unit_square(g.m12 as int);
    lemma_unit_square(g.m20 as int);
    lemma_unit_square(g.m21 as int);
    lemma_unit_square(g.m22 as int);
}

/// A matrix given by unit entries with unit rows, unit columns and determinant 1 is valid.
proof fn lemma_entries_valid(g: GridRotation)
    requires
        -1 <= g.m00 <= 1,
        -1 <= g.m01 <= 1,
        -1 <= g.m02 <= 1,
        -1 <= g.m10 <= 1,
        -1 <= g.m11 <= 1,
        -1 <= g.m12 <= 1,
        -1 <= g.m20 <= 1,
        -1 <= g.m21 <= 1,
        -1 <= g.m22 <= 1,
        g.m00 * g.m00 + g.m01 * g.m01 + g.m02 * g.m02 == 1,
        g.m10 * g.m10 + g.m11 * g.m11 + g.m12 * g.m12 == 1,
        g.m20 * g.m20 + g.m21 * g.m21 + g.m22 * g.m22 == 1,
        g.m00 * g.m00 + g.m10 * g.m10 + g.m20 * g.m20 == 1,
        g.m01 * g.m01 + g.m11 * g.m11 + g.m21 * g.m21 == 1,
        g.m02 * g.m02 + g.m12 * g.m12 + g.m22 * g.m22 == 1,
        g.m00 * (g.m11 * g.m22 - g.m12 * g.m21) - g.m01 * (g.m10 * g.m22 - g.m12 * g.m20) + g.m02
            * (g.m10 * g.m21 - g.m11 * g.m20) == 1,
    ensures
        g.spec_is_valid(),
{
    lemma_unit_square(g.m00 as int);
    lemma_unit_square(g.m01 as int);
    lemma_unit_square(g.m02 as int);
    lemma_unit_square(g.m10 as int);
    lemma_unit_square(g.m11 as int);
    lemma_unit_square(g.m12 as int);
    lemma_unit_square(g.m20 as int);
    lemma_unit_square(g.m21 as int);
    lemma_unit_square(g.m22 as int);
}

/// The identity is a valid rotation.
pub proof fn lemma_identity_valid()
    ensures
        identity_rotation().spec_is_valid(),
        identity_rotation().abs_sums_fit(),
{
}

/// A valid rotation passes the overflow precondition of `is_valid`.
pub proof fn lemma_valid_sums_fit(g: GridRotation)
    requires
        g.spec_is_valid(),
    ensures
        g.abs_sums_fit(),
{
}

/// The product of two rotations of the cube is again one, and computing it never overflows.
#[verifier::spinoff_prover]
#[verifier::rlimit(100)]
pub proof fn lemma_compose_valid(a: GridRotation, b: GridRotation)
    requires
        a.spec_is_valid(),
        b.spec_is_valid(),
    ensures
        a.compose_fits(b),
        a.spec_compose(b).spec_is_valid(),
{
    lemma_valid_entries(a);
    lemma_valid_entries(b);
    bv_unit_row_times(a.m00, a.m01, a.m02, b.m00, b.m01, b.m02, b.m10, b.m11, b.m12, b.m20, b.m21, b.m22);
    bv_unit_row_times(a.m10, a.m11, a.m12, b.m00, b.m01, b.m02, b.m10, b.m11, b.m12, b.m20, b.m21, b.m22);
    bv_unit_row_times(a.m20, a.m21, a.m22, b.m00, b.m01, b.m02, b.m10, b.m11, b.m12, b.m20, b.m21, b.m22);
    bv_unit_row_times(b.m00, b.m10, b.m20, a.m00, a.m10, a.m20, a.m01, a.m11, a.m21, a.m02, a.m12, a.m22);
    bv_unit_row_times(b.m01, b.m11, b.m21, a.m00, a.m10, a.m20, a.m01, a.m11, a.m21, a.m02, a.m12, a.m22);
    bv_unit_row_times(b.m02, b.m12, b.m22, a.m00, a.m10, a.m20, a.m01, a.m11, a.m21, a.m02, a.m12, a.m22);
    bv_det_of_product(
        a.m00, a.m01, a.m02, a.m10, a.m11, a.m12, a.m20, a.m21, a.m22,
        b.m00, b.m01, b.m02, b.m10, b.m11, b.m12, b.m20, b.m21, b.m22,
    );
    lemma_small_products(a, b);
    let c = a.spec_compose(b);
    assert(c.m00 == a.product(b, 0, 0));
    assert(c.m01 == a.product(b, 0, 1));
    assert(c.m02 == a.product(b, 0, 2));
    assert(c.m10 == a.product(b, 1, 0));
    assert(c.m11 == a.product(b, 1, 1));
    assert(c.m12 == a.product(b, 1, 2));
    assert(c.m20 == a.product(b, 2, 0));
    assert(c.m21 == a.product(b, 2, 1));
    assert(c.m22 == a.product(b, 2, 2));
    lemma_entries_valid(c);
}

/// Products of entries in `{-1, 0, 1}` stay in `{-1, 0, 1}`, so every step of composing
/// two such matrices fits in `i8`.
proof fn lemma_small_products(a: GridRotation, b: GridRotation)
    requires
        forall|r: int, c: int| 0 <= r < 3 && 0 <= c < 3 ==> -1 <= #[trigger] a.at(r, c) <= 1,
        forall|r: int, c: int| 0 <= r < 3 && 0 <= c < 3 ==> -1 <= #[trigger] b.at(r, c) <= 1,
    ensures
        a.compose_fits(b),
{
    assert forall|r: int, c: int| 0 <= r < 3 && 0 <= c < 3 implies #[trigger] a.product_fits(b, r, c) by {
        lemma_small_product(a.at(r, 0), b.at(0, c), 1);
        lemma_small_product(a.at(r, 1), b.at(1, c), 1);
        lemma_small_product(a.at(r, 2), b.at(2, c), 1);
    }
}

proof fn lemma_unit_times(a: int, v: int)
    requires
        -1 <= a <= 1,
    ensures
        a * v == if a == 1 {
            v
        } else if a == -1 {
            -v
        } else {
            0
        },
{
    assert(a * v == if a == 1 {
        v
    } else if a == -1 {
        -v
    } else {
        0
    }) by (nonlinear_arith)
        requires
            -1 <= a <= 1,
    ;
}

/// Multiplying row `r` by `p` only involves entries in `{-1, 0, 1}`.
proof fn lemma_row_dot_cases(g: GridRotation, r: int, p: GridPosition)
    requires
        0 <= r < 3,
        -1 <= g.at(r, 0) <= 1,
        -1 <= g.at(r, 1) <= 1,
        -1 <= g.at(r, 2) <= 1,
    ensures
        g.at(r, 0) * p.x == if g.at(r, 0) == 1 {
            p.x as int
        } else if g.at(r, 0) == -1 {
            -p.x
        } else {
            0
        },
        g.at(r, 1) * p.y == if g.at(r, 1) == 1 {
            p.y as int
        } else if g.at(r, 1) == -1 {
            -p.y
        } else {
            0
        },
        g.at(r, 2) * p.z == if g.at(r, 2) == 1 {
            p.z as int
        } else if g.at(r, 2) == -1 {
            -p.z
        } else {
            0
        },
{
    lemma_unit_times(g.at(r, 0), p.x as int);
    lemma_unit_times(g.at(r, 1), p.y as int);
    lemma_unit_times(g.at(r, 2), p.z as int);
}

/// Applying a rotation of the cube and then its inverse gives back the position; the second
/// application cannot overflow when the first did not.
pub proof fn lemma_inverse_apply(g: GridRotation, p: GridPosition)
    requires
        g.spec_is_valid(),
        g.apply_fits(p),
    ensures
        g.spec_inverse().apply_fits(g.spec_apply(p)),
        g.spec_inverse().spec_apply(g.spec_apply(p)) == p,
{
    lemma_unit_entries(g);
    let q = g.spec_apply(p);
    let h = g.spec_inverse();
    assert(h.at(0, 0) == g.at(0, 0) && h.at(0, 1) == g.at(1, 0) && h.at(0, 2) == g.at(2, 0));
    assert(h.at(1, 0) == g.at(0, 1) && h.at(1, 1) == g.at(1, 1) && h.at(1, 2) == g.at(2, 1));
    assert(h.at(2, 0) == g.at(0, 2) && h.at(2, 1) == g.at(1, 2) && h.at(2, 2) == g.at(2, 2));
    lemma_row_dot_cases(g, 0, p);
    lemma_row_dot_cases(g, 1, p);
    lemma_row_dot_cases(g, 2, p);
    assert(q.x == g.row_dot(0, p) && q.y == g.row_dot(1, p) && q.z == g.row_dot(2, p));
    lemma_row_dot_cases(h, 0, q);
    lemma_row_dot_cases(h, 1, q);
    lemma_row_dot_cases(h, 2, q);
}

#[verifier::rlimit(100)]
proof fn bv_transpose_det(
    a00: i8,
    a01: i8,
    a02: i8,
    a10: i8,
    a11: i8,
    a12: i8,
    a20: i8,
    a21: i8,
    a22: i8,
) by (bit_vector)
    requires
        -1 <= a00 <= 1,
        -1 <= a01 <= 1,
        -1 <= a02 <= 1,
        -1 <= a10 <= 1,
        -1 <= a11 <= 1,
        -1 <= a12 <= 1,
        -1 <= a20 <= 1,
        -1 <= a21 <= 1,
        -1 <= a22 <= 1,
        a00 * (a11 * a22 - a12 * a21) - a01 * (a10 * a22 - a12 * a20) + a02 * (a10 * a21 - a11
            * a20) == 1,
    ensures
        a00 * (a11 * a22 - a21 * a12) - a10 * (a01 * a22 - a21 * a02) + a20 * (a01 * a12 - a11
            * a02) == 1,
{
}

/// The inverse of a rotation of the cube is one too.
pub proof fn lemma_inverse_valid(g: GridRotation)
    requires
        g.spec_is_valid(),
    ensures
        g.spec_inverse().spec_is_valid(),
{
    lemma_valid_entries(g);
    bv_transpose_det(g.m00, g.m01, g.m02, g.m10, g.m11, g.m12, g.m20, g.m21, g.m22);
    lemma_entries_valid(g.spec_inverse());
}

/// A rotation composed with its inverse, on either side, is the identity.
#[verifier::rlimit(100)]
pub proof fn lemma_inverse_compose(g: GridRotation)
    requires
        g.spec_is_valid(),
    ensures
        g.spec_inverse().compose_fits(g),
        g.spec_inverse().spec_compose(g) == identity_rotation(),
        g.compose_fits(g.spec_inverse()),
        g.spec_compose(g.spec_inverse()) == identity_rotation(),
{
    lemma_valid_entries(g);
    lemma_inverse_valid(g);
    lemma_compose_valid(g.spec_inverse(), g);
    lemma_compose_valid(g, g.spec_inverse());
    bv_transpose_left_inverse(g.m00, g.m01, g.m02, g.m10, g.m11, g.m12, g.m20, g.m21, g.m22);
    let h = g.spec_inverse();
    assert(h.product(g, 0, 0) == 1 && h.product(g, 1, 1) == 1 && h.product(g, 2, 2) == 1);
    assert(h.product(g, 0, 1) == 0 && h.product(g, 0, 2) == 0 && h.product(g, 1, 2) == 0);
    assert(h.product(g, 1, 0) == 0 && h.product(g, 2, 0) == 0 && h.product(g, 2, 1) == 0);
    assert(g.product(h, 0, 0) == 1 && g.product(h, 1, 1) == 1 && g.product(h, 2, 2) == 1);
    assert(g.product(h, 0, 1) == 0 && g.product(h, 0, 2) == 0 && g.product(h, 1, 2) == 0);
    assert(g.product(h, 1, 0) == 0 && g.product(h, 2, 0) == 0 && g.product(h, 2, 1) == 0);
}

/// Each quarter turn is a rotation of the cube.
pub proof fn lemma_quarter_turn_valid(axis: GridAxis)
    ensures
        quarter_turn(axis).spec_is_valid(),
{
    match axis {
        GridAxis::X => assert(quarter_turn(axis).spec_is_valid()),
        GridAxis::Y => assert(quarter_turn(axis).spec_is_valid()),
        GridAxis::Z => assert(quarter_turn(axis).spec_is_valid()),
    }
}

/// Quarter turns keep a rotation of the cube one, and computing them never overflows.
pub proof fn lemma_rotated_valid(g: GridRotation, axis: GridAxis, n: nat)
    requires
        g.spec_is_valid(),
    ensures
        g.rotation_fits(axis, n),
        g.rotated(axis, n).spec_is_valid(),
    decreases n,
{
    if n > 0 {
        lemma_rotated_valid(g, axis, (n - 1) as nat);
        lemma_quarter_turn_valid(axis);
        lemma_compose_valid(quarter_turn(axis), g.rotated(axis, (n - 1) as nat));
    }
}

/// One quarter turn applied after a rotation of the cube moves its rows: about X the rows
/// become `(r0, -r2, r1)`, about Y `(r2, r1, -r0)`, about Z `(-r1, r0, r2)`.
proof fn lemma_quarter_turn_rows(axis: GridAxis, h: GridRotation)
    requires
        h.spec_is_valid(),
    ensures
        ({
            let q = quarter_turn(axis).spec_compose(h);
            &&& axis == GridAxis::X ==> {
                &&& q.m00 == h.m00 && q.m01 == h.m01 && q.m02 == h.m02
                &&& q.m10 == -h.m20 && q.m11 == -h.m21 && q.m12 == -h.m22
                &&& q.m20 == h.m10 && q.m21 == h.m11 && q.m22 == h.m12
            }
            &&& axis == GridAxis::Y ==> {
                &&& q.m00 == h.m20 && q.m01 == h.m21 && q.m02 == h.m22
                &&& q.m10 == h.m10 && q.m11 == h.m11 && q.m12 == h.m12
                &&& q.m20 == -h.m00 && q.m21 == -h.m01 && q.m22 == -h.m02
            }
            &&& axis == GridAxis::Z ==> {
                &&& q.m00 == -h.m10 && q.m01 == -h.m11 && q.m02 == -h.m12
                &&& q.m10 == h.m00 && q.m11 == h.m01 && q.m12 == h.m02
                &&& q.m20 == h.m20 && q.m21 == h.m21 && q.m22 == h.m22
            }
        }),
{
    lemma_valid_entries(h);
    let t = quarter_turn(axis);
    let q = t.spec_compose(h);
    lemma_unit_entries(t);
    assert forall|r: int, k: int, c: int| 0 <= r < 3 && 0 <= k < 3 && 0 <= c < 3 implies #[trigger] t.at(r, k)
        * #[trigger] h.at(k, c) == if t.at(r, k) == 0 {
        0
    } else if t.at(r, k) == 1 {
        h.at(k, c)
    } else {
        -h.at(k, c)
    } by {
        lemma_unit_times(t.at(r, k), h.at(k, c));
    }
    match axis {
        GridAxis::X => {
            assert(t.product(h, 0, 0) == h.m00 && t.product(h, 0, 1) == h.m01 && t.product(h, 0, 2) == h.m02);
            assert(t.product(h, 1, 0) == -h.m20 && t.product(h, 1, 1) == -h.m21 && t.product(h, 1, 2) == -h.m22);
            assert(t.product(h, 2, 0) == h.m10 && t.product(h, 2, 1) == h.m11 && t.product(h, 2, 2) == h.m12);
        },
        GridAxis::Y => {
            assert(t.product(h, 0, 0) == h.m20 && t.product(h, 0, 1) == h.m21 && t.product(h, 0, 2) == h.m22);
            assert(t.product(h, 1, 0) == h.m10 && t.product(h, 1, 1) == h.m11 && t.product(h, 1, 2) == h.m12);
            assert(t.product(h, 2, 0) == -h.m00 && t.product(h, 2, 1) == -h.m01 && t.product(h, 2, 2) == -h.m02);
        },
        GridAxis::Z => {
            assert(t.product(h, 0, 0) == -h.m10 && t.product(h, 0, 1) == -h.m11 && t.product(h, 0, 2) == -h.m12);
            assert(t.product(h, 1, 0) == h.m00 && t.product(h, 1, 1) == h.m01 && t.product(h, 1, 2) == h.m02);
            assert(t.product(h, 2, 0) == h.m20 && t.product(h, 2, 1) == h.m21 && t.product(h, 2, 2) == h.m22);
        },
    }
}

/// Four quarter turns about one axis give back the rotation they started from.
proof fn lemma_four_quarter_turns(g: GridRotation, axis: GridAxis)
    requires
        g.spec_is_valid(),
    ensures
        g.rotated(axis, 4) == g,
{
    lemma_rotated_valid(g, axis, 3);
    lemma_rotated_valid(g, axis, 2);
    lemma_rotated_valid(g, axis, 1);
    let h1 = g.rotated(axis, 1);
    let h2 = g.rotated(axis, 2);
    let h3 = g.rotated(axis, 3);
    let h4 = g.rotated(axis, 4);
    assert(g.rotated(axis, 0) == g);
    let t = quarter_turn(axis);
    assert(h1 == t.spec_compose(g));
    assert(h2 == t.spec_compose(h1));
    assert(h3 == t.spec_compose(h2));
    assert(h4 == t.spec_compose(h3));
    lemma_quarter_turn_rows(axis, g);
    lemma_quarter_turn_rows(axis, h1);
    lemma_quarter_turn_rows(axis, h2);
    lemma_quarter_turn_rows(axis, h3);
    assert(h4.m00 == g.m00 && h4.m01 == g.m01 && h4.m02 == g.m02);
    assert(h4.m10 == g.m10 && h4.m11 == g.m11 && h4.m12 == g.m12);
    assert(h4.m20 == g.m20 && h4.m21 == g.m21 && h4.m22 == g.m22);
}

/// Turning `a + b` times is turning `b` times and then `a` times.
proof fn lemma_rotated_add(g: GridRotation, axis: GridAxis, a: nat, b: nat)
    ensures
        g.rotated(axis, a + b) == g.rotated(axis, b).rotated(axis, a),
    decreases a,
{
    if a > 0 {
        lemma_rotated_add(g, axis, (a - 1) as nat, b);
        assert((a + b) as nat - 1 == (a - 1) as nat + b);
    }
}

/// Quarter turns about an axis repeat after four: turning a rotation of the cube `n` times is
/// turning it `n % 4` times, which is what `rotate_quarter` does for any count.
pub proof fn lemma_quarter_turns_repeat(g: GridRotation, axis: GridAxis, n: nat)
    requires
        g.spec_is_valid(),
    ensures
        g.rotated(axis, n) == g.rotated(axis, n % 4),
    decreases n,
{
    if n >= 4 {
        let m = (n - 4) as nat;
        lemma_quarter_turns_repeat(g, axis, m);
        lemma_rotated_add(g, axis, m, 4);
        lemma_four_quarter_turns(g, axis);
        assert(m + 4 == n);
        assert(m % 4 == n % 4);
    }
}

/// One more quarter turn of a rotation of the cube moves the rows of the last one.
proof fn lemma_turn_step(h: GridRotation, axis: GridAxis, n: nat)
    requires
        h.spec_is_valid(),
    ensures
        h.rotated(axis, n).spec_is_valid(),
        h.rotated(axis, n + 1) == quarter_turn(axis).spec_compose(h.rotated(axis, n)),
        ({
            let p = h.rotated(axis, n);
            let q = h.rotated(axis, n + 1);
            &&& axis == GridAxis::X ==> {
                &&& q.m00 == p.m00 && q.m01 == p.m01 && q.m02 == p.m02
                &&& q.m10 == -p.m20 && q.m11 == -p.m21 && q.m12 == -p.m22
                &&& q.m20 == p.m10 && q.m21 == p.m11 && q.m22 == p.m12
            }
            &&& axis == GridAxis::Y ==> {
                &&& q.m00 == p.m20 && q.m01 == p.m21 && q.m02 == p.m22
                &&& q.m10 == p.m10 && q.m11 == p.m11 && q.m12 == p.m12
                &&& q.m20 == -p.m00 && q.m21 == -p.m01 && q.m22 == -p.m02
            }
            &&& axis == GridAxis::Z ==> {
                &&& q.m00 == -p.m10 && q.m01 == -p.m11 && q.m02 == -p.m12
                &&& q.m10 == p.m00 && q.m11 == p.m01 && q.m12 == p.m02
                &&& q.m20 == p.m20 && q.m21 == p.m21 && q.m22 == p.m22
            }
        }),
{
    lemma_rotated_valid(h, axis, n);
    lemma_quarter_turn_rows(axis, h.rotated(axis, n));
    assert(h.rotated(axis, n + 1) == quarter_turn(axis).spec_compose(h.rotated(axis, n)));
}

/// The entries of a rotation of the cube form one of the twenty-four signed permutation
/// matrices with determinant one.
proof fn bv_cube_rotation_entries(
    a00: i8,
    a01: i8,
    a02: i8,
    a10: i8,
    a11: i8,
    a12: i8,
    a20: i8,
    a21: i8,
    a22: i8,
) by (bit_vector)
    requires
        -1 <= a00 <= 1,
        -1 <= a01 <= 1,
        -1 <= a02 <= 1,
        -1 <= a10 <= 1,
        -1 <= a11 <= 1,
        -1 <= a12 <= 1,
        -1 <= a20 <= 1,
        -1 <= a21 <= 1,
        -1 <= a22 <= 1,
        a00 * a00 + a01 * a01 + a02 * a02 == 1,
        a10 * a10 + a11 * a11 + a12 * a12 == 1,
        a20 * a20 + a21 * a21 + a22 * a22 == 1,
        a00 * a00 + a10 * a10 + a20 * a20 == 1,
        a01 * a01 + a11 * a11 + a21 * a21 == 1,
        a02 * a02 + a12 * a12 + a22 * a22 == 1,
        a00 * (a11 * a22 - a12 * a21) - a01 * (a10 * a22 - a12 * a20) + a02 * (a10 * a21 - a11
            * a20) == 1,
    ensures
        (a00 == 1 && a01 == 0 && a02 == 0
            && a10 == 0 && a11 == 1 && a12 == 0
            && a20 == 0 && a21 == 0 && a22 == 1)
            || (a00 == 1 && a01 == 0 && a02 == 0
                && a10 == 0 && a11 == -1 && a12 == 0
                && a20 == 0 && a21 == 0 && a22 == -1)
            || (a00 == -1 && a01 == 0 && a02 == 0
                && a10 == 0 && a11 == 1 && a12 == 0
                && a20 == 0 && a21 == 0 && a22 == -1)
            || (a00 == -1 && a01 == 0 && a02 == 0
                && a10 == 0 && a11 == -1 && a12 == 0
                && a20 == 0 && a21 == 0 && a22 == 1)
            || (a00 == 1 && a01 == 0 && a02 == 0
                && a10 == 0 && a11 == 0 && a12 == 1
                && a20 == 0 && a21 == -1 && a22 == 0)
            || (a00 == 1 && a01 == 0 && a02 == 0
                && a10 == 0 && a11 == 0 && a12 == -1
                && a20 == 0 && a21 == 1 && a22 == 0)
            || (a00 == -1 && a01 == 0 && a02 == 0
                && a10 == 0 && a11 == 0 && a12 == 1
                && a20 == 0 && a21 == 1 && a22 == 0)
            || (a00 == -1 && a01 == 0 && a02 == 0
                && a10 == 0 && a11 == 0 && a12 == -1
                && a20 == 0 && a21 == -1 && a22 == 0)
            || (a00 == 0 && a01 == 1 && a02 == 0
                && a10 == 1 && a11 == 0 && a12 == 0
                && a20 == 0 && a21 == 0 && a22 == -1)
            || (a00 == 0 && a01 == 1 && a02 == 0
                && a10 == -1 && a11 == 0 && a12 == 0
                && a20 == 0 && a21 == 0 && a22 == 1)
            || (a00 == 0 && a01 == -1 && a02 == 0
                && a10 == 1 && a11 == 0 && a12 == 0
                && a20 == 0 && a21 == 0 && a22 == 1)
            || (a00 == 0 && a01 == -1 && a02 == 0
                && a10 == -1 && a11 == 0 && a12 == 0
                && a20 == 0 && a21 == 0 && a22 == -1)
            || (a00 == 0 && a01 == 1 && a02 == 0
                && a10 == 0 && a11 == 0 && a12 == 1
                && a20 == 1 && a21 == 0 && a22 == 0)
            || (a00 == 0 && a01 == 1 && a02 == 0
                && a10 == 0 && a11 == 0 && a12 == -1
                && a20 == -1 && a21 == 0 && a22 == 0)
            || (a00 == 0 && a01 == -1 && a02 == 0
                && a10 == 0 && a11 == 0 && a12 == 1
                && a20 == -1 && a21 == 0 && a22 == 0)
            || (a00 == 0 && a01 == -1 && a02 == 0
                && a10 == 0 && a11 == 0 && a12 == -1
                && a20 == 1 && a21 == 0 && a22 == 0)
            || (a00 == 0 && a01 == 0 && a02 == 1
                && a10 == 1 && a11 == 0 && a12 == 0
                && a20 == 0 && a21 == 1 && a22 == 0)
            || (a00 == 0 && a01 == 0 && a02 == 1
                && a10 == -1 && a11 == 0 && a12 == 0
                && a20 == 0 && a21 == -1 && a22 == 0)
            || (a00 == 0 && a01 == 0 && a02 == -1
                && a10 == 1 && a11 == 0 && a12 == 0
                && a20 == 0 && a21 == -1 && a22 == 0)
            || (a00 == 0 && a01 == 0 && a02 == -1
                && a10 == -1 && a11 == 0 && a12 == 0
                && a20 == 0 && a21 == 1 && a22 == 0)
            || (a00 == 0 && a01 == 0 && a02 == 1
                && a10 == 0 && a11 == 1 && a12 == 0
                && a20 == -1 && a21 == 0 && a22 == 0)
            || (a00 == 0 && a01 == 0 && a02 == 1
                && a10 == 0 && a11 == -1 && a12 == 0
                && a20 == 1 && a21 == 0 && a22 == 0)
            || (a00 == 0 && a01 == 0 && a02 == -1
                && a10 == 0 && a11 == 1 && a12 == 0
                && a20 == 1 && a21 == 0 && a22 == 0)
            || (a00 == 0 && a01 == 0 && a02 == -1
                && a10 == 0 && a11 == -1 && a12 == 0
                && a20 == -1 && a21 == 0 && a22 == 0),
{
}

/// Quarter turns about X, then about Y, then about Z, starting from the identity.
pub open spec fn turned(x: nat, y: nat, z: nat) -> GridRotation {
    identity_rotation().rotated(GridAxis::X, x).rotated(GridAxis::Y, y).rotated(GridAxis::Z, z)
}

/// Every product of quarter turns is a rotation of the cube.
proof fn lemma_turned_valid(x: nat, y: nat, z: nat)
    ensures
        turned(x, y, z).spec_is_valid(),
{
    lemma_identity_valid();
    let i = identity_rotation();
    lemma_rotated_valid(i, GridAxis::X, x);
    let a = i.rotated(GridAxis::X, x);
    lemma_rotated_valid(a, GridAxis::Y, y);
    let b = a.rotated(GridAxis::Y, y);
    lemma_rotated_valid(b, GridAxis::Z, z);
}

/// The rotations of the cube are exactly the products of at most three quarter turns about
/// X, then at most three about Y, then at most three about Z.
pub proof fn lemma_rotations_are_quarter_turns(g: GridRotation)
    ensures
        g.spec_is_valid() <==> exists|x: nat, y: nat, z: nat|
            x < 4 && y < 4 && z < 4 && g == #[trigger] turned(x, y, z),
{
    if exists|x: nat, y: nat, z: nat| x < 4 && y < 4 && z < 4 && g == #[trigger] turned(x, y, z) {
        let (x, y, z) = choose|x: nat, y: nat, z: nat|
            x < 4 && y < 4 && z < 4 && g == #[trigger] turned(x, y, z);
        lemma_turned_valid(x, y, z);
    }
    if g.spec_is_valid() {
        lemma_rotation_is_turned(g);
    }
}

/// Each rotation of the cube is a product of quarter turns, found by its entries.
#[verifier::spinoff_prover]
#[verifier::rlimit(100)]
proof fn lemma_rotation_is_turned(g: GridRotation)
    requires
        g.spec_is_valid(),
    ensures
        exists|x: nat, y: nat, z: nat| x < 4 && y < 4 && z < 4 && g == #[trigger] turned(x, y, z),
{
    lemma_valid_entries(g);
    bv_cube_rotation_entries(g.m00, g.m01, g.m02, g.m10, g.m11, g.m12, g.m20, g.m21, g.m22);
    lemma_identity_valid();
    let i = identity_rotation();
    if g.m00 == 1 && g.m01 == 0 && g.m02 == 0
        && g.m10 == 0 && g.m11 == 1 && g.m12 == 0
        && g.m20 == 0 && g.m21 == 0 && g.m22 == 1 {
        assert(g == turned(0, 0, 0)) by {
            let a = i.rotated(GridAxis::X, 0);
            lemma_rotated_valid(i, GridAxis::X, 0);
            let b = a.rotated(GridAxis::Y, 0);
            lemma_rotated_valid(a, GridAxis::Y, 0);
            assert(i.rotated(GridAxis::X, 0) == i);
            assert(a.rotated(GridAxis::Y, 0) == a);
            assert(b.rotated(GridAxis::Z, 0) == b);
        }
    } else if g.m00 == 1 && g.m01 == 0 && g.m02 == 0
        && g.m10 == 0 && g.m11 == -1 && g.m12 == 0
        && g.m20 == 0 && g.m21 == 0 && g.m22 == -1 {
        assert(g == turned(0, 2, 2)) by {
            let a = i.rotated(GridAxis::X, 0);
            lemma_rotated_valid(i, GridAxis::X, 0);
            lemma_turn_step(a, GridAxis::Y, 0);
            lemma_turn_step(a, GridAxis::Y, 1);
            let b = a.rotated(GridAxis::Y, 2);
            lemma_rotated_valid(a, GridAxis::Y, 2);
            lemma_turn_step(b, GridAxis::Z, 0);
            lemma_turn_step(b, GridAxis::Z, 1);
            assert(i.rotated(GridAxis::X, 0) == i);
            assert(a.rotated(GridAxis::Y, 0) == a);
            assert(b.rotated(GridAxis::Z, 0) == b);
        }
    } else if g.m00 == -1 && g.m01 == 0 && g.m02 == 0
        && g.m10 == 0 && g.m11 == 1 && g.m12 == 0
        && g.m20 == 0 && g.m21 == 0 && g.m22 == -1 {
        assert(g == turned(0, 2, 0)) by {
            let a = i.rotated(GridAxis::X, 0);
            lemma_rotated_valid(i, GridAxis::X, 0);
            lemma_turn_step(a, GridAxis::Y, 0);
            lemma_turn_step(a, GridAxis::Y, 1);
            let b = a.rotated(GridAxis::Y, 2);
            lemma_rotated_valid(a, GridAxis::Y, 2);
            assert(i.rotated(GridAxis::X, 0) == i);
            assert(a.rotated(GridAxis::Y, 0) == a);
            assert(b.rotated(GridAxis::Z, 0) == b);
        }
    } else if g.m00 == -1 && g.m01 == 0 && g.m02 == 0
        && g.m10 == 0 && g.m11 == -1 && g.m12 == 0
        && g.m20 == 0 && g.m21 == 0 && g.m22 == 1 {
        assert(g == turned(0, 0, 2)) by {
            let a = i.rotated(GridAxis::X, 0);
            lemma_rotated_valid(i, GridAxis::X, 0);
            let b = a.rotated(GridAxis::Y, 0);
            lemma_rotated_valid(a, GridAxis::Y, 0);
            lemma_turn_step(b, GridAxis::Z, 0);
            lemma_turn_step(b, GridAxis::Z, 1);
            assert(i.rotated(GridAxis::X, 0) == i);
            assert(a.rotated(GridAxis::Y, 0) == a);
            assert(b.rotated(GridAxis::Z, 0) == b);
        }
    } else if g.m00 == 1 && g.m01 == 0 && g.m02 == 0
        && g.m10 == 0 && g.m11 == 0 && g.m12 == 1
        && g.m20 == 0 && g.m21 == -1 && g.m22 == 0 {
        assert(g == turned(1, 2, 2)) by {
            lemma_turn_step(i, GridAxis::X, 0);
            let a = i.rotated(GridAxis::X, 1);
            lemma_rotated_valid(i, GridAxis::X, 1);
            lemma_turn_step(a, GridAxis::Y, 0);
            lemma_turn_step(a, GridAxis::Y, 1);
            let b = a.rotated(GridAxis::Y, 2);
            lemma_rotated_valid(a, GridAxis::Y, 2);
            lemma_turn_step(b, GridAxis::Z, 0);
            lemma_turn_step(b, GridAxis::Z, 1);
            assert(i.rotated(GridAxis::X, 0) == i);
            assert(a.rotated(GridAxis::Y, 0) == a);
            assert(b.rotated(GridAxis::Z, 0) == b);
        }
    } else if g.m00 == 1 && g.m01 == 0 && g.m02 == 0
        && g.m10 == 0 && g.m11 == 0 && g.m12 == -1
        && g.m20 == 0 && g.m21 == 1 && g.m22 == 0 {
        assert(g == turned(1, 0, 0)) by {
            lemma_turn_step(i, GridAxis::X, 0);
            let a = i.rotated(GridAxis::X, 1);
            lemma_rotated_valid(i, GridAxis::X, 1);
            let b = a.rotated(GridAxis::Y, 0);
            lemma_rotated_valid(a, GridAxis::Y, 0);
            assert(i.rotated(GridAxis::X, 0) == i);
            assert(a.rotated(GridAxis::Y, 0) == a);
            assert(b.rotated(GridAxis::Z, 0) == b);
        }
    } else if g.m00 == -1 && g.m01 == 0 && g.m02 == 0
        && g.m10 == 0 && g.m11 == 0 && g.m12 == 1
        && g.m20 == 0 && g.m21 == 1 && g.m22 == 0 {
        assert(g == turned(1, 0, 2)) by {
            lemma_turn_step(i, GridAxis::X, 0);
            let a = i.rotated(GridAxis::X, 1);
            lemma_rotated_valid(i, GridAxis::X, 1);
            let b = a.rotated(GridAxis::Y, 0);
            lemma_rotated_valid(a, GridAxis::Y, 0);
            lemma_turn_step(b, GridAxis::Z, 0);
            lemma_turn_step(b, GridAxis::Z, 1);
            assert(i.rotated(GridAxis::X, 0) == i);
            assert(a.rotated(GridAxis::Y, 0) == a);
            assert(b.rotated(GridAxis::Z, 0) == b);
        }
    } else if g.m00 == -1 && g.m01 == 0 && g.m02 == 0
        && g.m10 == 0 && g.m11 == 0 && g.m12 == -1
        && g.m20 == 0 && g.m21 == -1 && g.m22 == 0 {
        assert(g == turned(1, 2, 0)) by {
            lemma_turn_step(i, GridAxis::X, 0);
            let a = i.rotated(GridAxis::X, 1);
            lemma_rotated_valid(i, GridAxis::X, 1);
            lemma_turn_step(a, GridAxis::Y, 0);
            lemma_turn_step(a, GridAxis::Y, 1);
            let b = a.rotated(GridAxis::Y, 2);
            lemma_rotated_valid(a, GridAxis::Y, 2);
            assert(i.rotated(GridAxis::X, 0) == i);
            assert(a.rotated(GridAxis::Y, 0) == a);
            assert(b.rotated(GridAxis::Z, 0) == b);
        }
    } else if g.m00 == 0 && g.m01 == 1 && g.m02 == 0
        && g.m10 == 1 && g.m11 == 0 && g.m12 == 0
        && g.m20 == 0 && g.m21 == 0 && g.m22 == -1 {
        assert(g == turned(0, 2, 3)) by {
            let a = i.rotated(GridAxis::X, 0);
            lemma_rotated_valid(i, GridAxis::X, 0);
            lemma_turn_step(a, GridAxis::Y, 0);
            lemma_turn_step(a, GridAxis::Y, 1);
            let b = a.rotated(GridAxis::Y, 2);
            lemma_rotated_valid(a, GridAxis::Y, 2);
            lemma_turn_step(b, GridAxis::Z, 0);
            lemma_turn_step(b, GridAxis::Z, 1);
            lemma_turn_step(b, GridAxis::Z, 2);
            assert(i.rotated(GridAxis::X, 0) == i);
            assert(a.rotated(GridAxis::Y, 0) == a);
            assert(b.rotated(GridAxis::Z, 0) == b);
        }
    } else if g.m00 == 0 && g.m01 == 1 && g.m02 == 0
        && g.m10 == -1 && g.m11 == 0 && g.m12 == 0
        && g.m20 == 0 && g.m21 == 0 && g.m22 == 1 {
        assert(g == turned(0, 0, 3)) by {
            let a = i.rotated(GridAxis::X, 0);
            lemma_rotated_valid(i, GridAxis::X, 0);
            let b = a.rotated(GridAxis::Y, 0);
            lemma_rotated_valid(a, GridAxis::Y, 0);
            lemma_turn_step(b, GridAxis::Z, 0);
            lemma_turn_step(b, GridAxis::Z, 1);
            lemma_turn_step(b, GridAxis::Z, 2);
            assert(i.rotated(GridAxis::X, 0) == i);
            assert(a.rotated(GridAxis::Y, 0) == a);
            assert(b.rotated(GridAxis::Z, 0) == b);
        }
    } else if g.m00 == 0 && g.m01 == -1 && g.m02 == 0
        && g.m10 == 1 && g.m11 == 0 && g.m12 == 0
        && g.m20 == 0 && g.m21 == 0 && g.m22 == 1 {
        assert(g == turned(0, 0, 1)) by {
            let a = i.rotated(GridAxis::X, 0);
            lemma_rotated_valid(i, GridAxis::X, 0);
            let b = a.rotated(GridAxis::Y, 0);
            lemma_rotated_valid(a, GridAxis::Y, 0);
            lemma_turn_step(b, GridAxis::Z, 0);
            assert(i.rotated(GridAxis::X, 0) == i);
            assert(a.rotated(GridAxis::Y, 0) == a);
            assert(b.rotated(GridAxis::Z, 0) == b);
        }
    } else if g.m00 == 0 && g.m01 == -1 && g.m02 == 0
        && g.m10 == -1 && g.m11 == 0 && g.m12 == 0
        && g.m20 == 0 && g.m21 == 0 && g.m22 == -1 {
        assert(g == turned(0, 2, 1)) by {
            let a = i.rotated(GridAxis::X, 0);
            lemma_rotated_valid(i, GridAxis::X, 0);
            lemma_turn_step(a, GridAxis::Y, 0);
            lemma_turn_step(a, GridAxis::Y, 1);
            let b = a.rotated(GridAxis::Y, 2);
            lemma_rotated_valid(a, GridAxis::Y, 2);
            lemma_turn_step(b, GridAxis::Z, 0);
            assert(i.rotated(GridAxis::X, 0) == i);
            assert(a.rotated(GridAxis::Y, 0) == a);
            assert(b.rotated(GridAxis::Z, 0) == b);
        }
    } else if g.m00 == 0 && g.m01 == 1 && g.m02 == 0
        && g.m10 == 0 && g.m11 == 0 && g.m12 == 1
        && g.m20 == 1 && g.m21 == 0 && g.m22 == 0 {
        assert(g == turned(0, 3, 3)) by {
            let a = i.rotated(GridAxis::X, 0);
            lemma_rotated_valid(i, GridAxis::X, 0);
            lemma_turn_step(a, GridAxis::Y, 0);
            lemma_turn_step(a, GridAxis::Y, 1);
            lemma_turn_step(a, GridAxis::Y, 2);
            let b = a.rotated(GridAxis::Y, 3);
            lemma_rotated_valid(a, GridAxis::Y, 3);
            lemma_turn_step(b, GridAxis::Z, 0);
            lemma_turn_step(b, GridAxis::Z, 1);
            lemma_turn_step(b, GridAxis::Z, 2);
            assert(i.rotated(GridAxis::X, 0) == i);
            assert(a.rotated(GridAxis::Y, 0) == a);
            assert(b.rotated(GridAxis::Z, 0) == b);
        }
    } else if g.m00 == 0 && g.m01 == 1 && g.m02 == 0
        && g.m10 == 0 && g.m11 == 0 && g.m12 == -1
        && g.m20 == -1 && g.m21 == 0 && g.m22 == 0 {
        assert(g == turned(0, 1, 3)) by {
            let a = i.rotated(GridAxis::X, 0);
            lemma_rotated_valid(i, GridAxis::X, 0);
            lemma_turn_step(a, GridAxis::Y, 0);
            let b = a.rotated(GridAxis::Y, 1);
            lemma_rotated_valid(a, GridAxis::Y, 1);
            lemma_turn_step(b, GridAxis::Z, 0);
            lemma_turn_step(b, GridAxis::Z, 1);
            lemma_turn_step(b, GridAxis::Z, 2);
            assert(i.rotated(GridAxis::X, 0) == i);
            assert(a.rotated(GridAxis::Y, 0) == a);
            assert(b.rotated(GridAxis::Z, 0) == b);
        }
    } else if g.m00 == 0 && g.m01 == -1 && g.m02 == 0
        && g.m10 == 0 && g.m11 == 0 && g.m12 == 1
        && g.m20 == -1 && g.m21 == 0 && g.m22 == 0 {
        assert(g == turned(0, 1, 1)) by {
            let a = i.rotated(GridAxis::X, 0);
            lemma_rotated_valid(i, GridAxis::X, 0);
            lemma_turn_step(a, GridAxis::Y, 0);
            let b = a.rotated(GridAxis::Y, 1);
            lemma_rotated_valid(a, GridAxis::Y, 1);
            lemma_turn_step(b, GridAxis::Z, 0);
            assert(i.rotated(GridAxis::X, 0) == i);
            assert(a.rotated(GridAxis::Y, 0) == a);
            assert(b.rotated(GridAxis::Z, 0) == b);
        }
    } else if g.m00 == 0 && g.m01 == -1 && g.m02 == 0
        && g.m10 == 0 && g.m11 == 0 && g.m12 == -1
        && g.m20 == 1 && g.m21 == 0 && g.m22 == 0 {
        assert(g == turned(0, 3, 1)) by {
            let a = i.rotated(GridAxis::X, 0);
            lemma_rotated_valid(i, GridAxis::X, 0);
            lemma_turn_step(a, GridAxis::Y, 0);
            lemma_turn_step(a, GridAxis::Y, 1);
            lemma_turn_step(a, GridAxis::Y, 2);
            let b = a.rotated(GridAxis::Y, 3);
            lemma_rotated_valid(a, GridAxis::Y, 3);
            lemma_turn_step(b, GridAxis::Z, 0);
            assert(i.rotated(GridAxis::X, 0) == i);
            assert(a.rotated(GridAxis::Y, 0) == a);
            assert(b.rotated(GridAxis::Z, 0) == b);
        }
    } else if g.m00 == 0 && g.m01 == 0 && g.m02 == 1
        && g.m10 == 1 && g.m11 == 0 && g.m12 == 0
        && g.m20 == 0 && g.m21 == 1 && g.m22 == 0 {
        assert(g == turned(1, 0, 1)) by {
            lemma_turn_step(i, GridAxis::X, 0);
            let a = i.rotated(GridAxis::X, 1);
            lemma_rotated_valid(i, GridAxis::X, 1);
            let b = a.rotated(GridAxis::Y, 0);
            lemma_rotated_valid(a, GridAxis::Y, 0);
            lemma_turn_step(b, GridAxis::Z, 0);
            assert(i.rotated(GridAxis::X, 0) == i);
            assert(a.rotated(GridAxis::Y, 0) == a);
            assert(b.rotated(GridAxis::Z, 0) == b);
        }
    } else if g.m00 == 0 && g.m01 == 0 && g.m02 == 1
        && g.m10 == -1 && g.m11 == 0 && g.m12 == 0
        && g.m20 == 0 && g.m21 == -1 && g.m22 == 0 {
        assert(g == turned(1, 2, 1)) by {
            lemma_turn_step(i, GridAxis::X, 0);
            let a = i.rotated(GridAxis::X, 1);
            lemma_rotated_valid(i, GridAxis::X, 1);
            lemma_turn_step(a, GridAxis::Y, 0);
            lemma_turn_step(a, GridAxis::Y, 1);
            let b = a.rotated(GridAxis::Y, 2);
            lemma_rotated_valid(a, GridAxis::Y, 2);
            lemma_turn_step(b, GridAxis::Z, 0);
            assert(i.rotated(GridAxis::X, 0) == i);
            assert(a.rotated(GridAxis::Y, 0) == a);
            assert(b.rotated(GridAxis::Z, 0) == b);
        }
    } else if g.m00 == 0 && g.m01 == 0 && g.m02 == -1
        && g.m10 == 1 && g.m11 == 0 && g.m12 == 0
        && g.m20 == 0 && g.m21 == -1 && g.m22 == 0 {
        assert(g == turned(1, 2, 3)) by {
            lemma_turn_step(i, GridAxis::X, 0);
            let a = i.rotated(GridAxis::X, 1);
            lemma_rotated_valid(i, GridAxis::X, 1);
            lemma_turn_step(a, GridAxis::Y, 0);
            lemma_turn_step(a, GridAxis::Y, 1);
            let b = a.rotated(GridAxis::Y, 2);
            lemma_rotated_valid(a, GridAxis::Y, 2);
            lemma_turn_step(b, GridAxis::Z, 0);
            lemma_turn_step(b, GridAxis::Z, 1);
            lemma_turn_step(b, GridAxis::Z, 2);
            assert(i.rotated(GridAxis::X, 0) == i);
            assert(a.rotated(GridAxis::Y, 0) == a);
            assert(b.rotated(GridAxis::Z, 0) == b);
        }
    } else if g.m00 == 0 && g.m01 == 0 && g.m02 == -1
        && g.m10 == -1 && g.m11 == 0 && g.m12 == 0
        && g.m20 == 0 && g.m21 == 1 && g.m22 == 0 {
        assert(g == turned(1, 0, 3)) by {
            lemma_turn_step(i, GridAxis::X, 0);
            let a = i.rotated(GridAxis::X, 1);
            lemma_rotated_valid(i, GridAxis::X, 1);
            let b = a.rotated(GridAxis::Y, 0);
            lemma_rotated_valid(a, GridAxis::Y, 0);
            lemma_turn_step(b, GridAxis::Z, 0);
            lemma_turn_step(b, GridAxis::Z, 1);
            lemma_turn_step(b, GridAxis::Z, 2);
            assert(i.rotated(GridAxis::X, 0) == i);
            assert(a.rotated(GridAxis::Y, 0) == a);
            assert(b.rotated(GridAxis::Z, 0) == b);
        }
    } else if g.m00 == 0 && g.m01 == 0 && g.m02 == 1
        && g.m10 == 0 && g.m11 == 1 && g.m12 == 0
        && g.m20 == -1 && g.m21 == 0 && g.m22 == 0 {
        assert(g == turned(0, 1, 0)) by {
            let a = i.rotated(GridAxis::X, 0);
            lemma_rotated_valid(i, GridAxis::X, 0);
            lemma_turn_step(a, GridAxis::Y, 0);
            let b = a.rotated(GridAxis::Y, 1);
            lemma_rotated_valid(a, GridAxis::Y, 1);
            assert(i.rotated(GridAxis::X, 0) == i);
            assert(a.rotated(GridAxis::Y, 0) == a);
            assert(b.rotated(GridAxis::Z, 0) == b);
        }
    } else if g.m00 == 0 && g.m01 == 0 && g.m02 == 1
        && g.m10 == 0 && g.m11 == -1 && g.m12 == 0
        && g.m20 == 1 && g.m21 == 0 && g.m22 == 0 {
        assert(g == turned(0, 3, 2)) by {
            let a = i.rotated(GridAxis::X, 0);
            lemma_rotated_valid(i, GridAxis::X, 0);
            lemma_turn_step(a, GridAxis::Y, 0);
            lemma_turn_step(a, GridAxis::Y, 1);
            lemma_turn_step(a, GridAxis::Y, 2);
            let b = a.rotated(GridAxis::Y, 3);
            lemma_rotated_valid(a, GridAxis::Y, 3);
            lemma_turn_step(b, GridAxis::Z, 0);
            lemma_turn_step(b, GridAxis::Z, 1);
            assert(i.rotated(GridAxis::X, 0) == i);
            assert(a.rotated(GridAxis::Y, 0) == a);
            assert(b.rotated(GridAxis::Z, 0) == b);
        }
    } else if g.m00 == 0 && g.m01 == 0 && g.m02 == -1
        && g.m10 == 0 && g.m11 == 1 && g.m12 == 0
        && g.m20 == 1 && g.m21 == 0 && g.m22 == 0 {
        assert(g == turned(0, 3, 0)) by {
            let a = i.rotated(GridAxis::X, 0);
            lemma_rotated_valid(i, GridAxis::X, 0);
            lemma_turn_step(a, GridAxis::Y, 0);
            lemma_turn_step(a, GridAxis::Y, 1);
            lemma_turn_step(a, GridAxis::Y, 2);
            let b = a.rotated(GridAxis::Y, 3);
            lemma_rotated_valid(a, GridAxis::Y, 3);
            assert(i.rotated(GridAxis::X, 0) == i);
            assert(a.rotated(GridAxis::Y, 0) == a);
            assert(b.rotated(GridAxis::Z, 0) == b);
        }
    } else if g.m00 == 0 && g.m01 == 0 && g.m02 == -1
        && g.m10 == 0 && g.m11 == -1 && g.m12 == 0
        && g.m20 == -1 && g.m21 == 0 && g.m22 == 0 {
        assert(g == turned(0, 1, 2)) by {
            let a = i.rotated(GridAxis::X, 0);
            lemma_rotated_valid(i, GridAxis::X, 0);
            lemma_turn_step(a, GridAxis::Y, 0);
            let b = a.rotated(GridAxis::Y, 1);
            lemma_rotated_valid(a, GridAxis::Y, 1);
            lemma_turn_step(b, GridAxis::Z, 0);
            lemma_turn_step(b, GridAxis::Z, 1);
            assert(i.rotated(GridAxis::X, 0) == i);
            assert(a.rotated(GridAxis::Y, 0) == a);
            assert(b.rotated(GridAxis::Z, 0) == b);
        }
    }
}

/// The twenty-four rotations of the cube, one by one.
pub closed spec fn cube_rotations() -> Set<GridRotation> {
    Set::empty()
        .insert(GridRotation {
            m00: 1, m01: 0, m02: 0,
            m10: 0, m11: 1, m12: 0,
            m20: 0, m21: 0, m22: 1,
        })
        .insert(GridRotation {
            m00: 1, m01: 0, m02: 0,
            m10: 0, m11: -1i8, m12: 0,
            m20: 0, m21: 0, m22: -1i8,
        })
        .insert(GridRotation {
            m00: -1i8, m01: 0, m02: 0,
            m10: 0, m11: 1, m12: 0,
            m20: 0, m21: 0, m22: -1i8,
        })
        .insert(GridRotation {
            m00: -1i8, m01: 0, m02: 0,
            m10: 0, m11: -1i8, m12: 0,
            m20: 0, m21: 0, m22: 1,
        })
        .insert(GridRotation {
            m00: 1, m01: 0, m02: 0,
            m10: 0, m11: 0, m12: 1,
            m20: 0, m21: -1i8, m22: 0,
        })
        .insert(GridRotation {
            m00: 1, m01: 0, m02: 0,
            m10: 0, m11: 0, m12: -1i8,
            m20: 0, m21: 1, m22: 0,
        })
        .insert(GridRotation {
            m00: -1i8, m01: 0, m02: 0,
            m10: 0, m11: 0, m12: 1,
            m20: 0, m21: 1, m22: 0,
        })
        .insert(GridRotation {
            m00: -1i8, m01: 0, m02: 0,
            m10: 0, m11: 0, m12: -1i8,
            m20: 0, m21: -1i8, m22: 0,
        })
        .insert(GridRotation {
            m00: 0, m01: 1, m02: 0,
            m10: 1, m11: 0, m12: 0,
            m20: 0, m21: 0, m22: -1i8,
        })
        .insert(GridRotation {
            m00: 0, m01: 1, m02: 0,
            m10: -1i8, m11: 0, m12: 0,
            m20: 0, m21: 0, m22: 1,
        })
        .insert(GridRotation {
            m00: 0, m01: -1i8, m02: 0,
            m10: 1, m11: 0, m12: 0,
            m20: 0, m21: 0, m22: 1,
        })
        .insert(GridRotation {
            m00: 0, m01: -1i8, m02: 0,
            m10: -1i8, m11: 0, m12: 0,
            m20: 0, m21: 0, m22: -1i8,
        })
        .insert(GridRotation {
            m00: 0, m01: 1, m02: 0,
            m10: 0, m11: 0, m12: 1,
            m20: 1, m21: 0, m22: 0,
        })
        .insert(GridRotation {
            m00: 0, m01: 1, m02: 0,
            m10: 0, m11: 0, m12: -1i8,
            m20: -1i8, m21: 0, m22: 0,
        })
        .insert(GridRotation {
            m00: 0, m01: -1i8, m02: 0,
            m10: 0, m11: 0, m12: 1,
            m20: -1i8, m21: 0, m22: 0,
        })
        .insert(GridRotation {
            m00: 0, m01: -1i8, m02: 0,
            m10: 0, m11: 0, m12: -1i8,
            m20: 1, m21: 0, m22: 0,
        })
        .insert(GridRotation {
            m00: 0, m01: 0, m02: 1,
            m10: 1, m11: 0, m12: 0,
            m20: 0, m21: 1, m22: 0,
        })
        .insert(GridRotation {
            m00: 0, m01: 0, m02: 1,
            m10: -1i8, m11: 0, m12: 0,
            m20: 0, m21: -1i8, m22: 0,
        })
        .insert(GridRotation {
            m00: 0, m01: 0, m02: -1i8,
            m10: 1, m11: 0, m12: 0,
            m20: 0, m21: -1i8, m22: 0,
        })
        .insert(GridRotation {
            m00: 0, m01: 0, m02: -1i8,
            m10: -1i8, m11: 0, m12: 0,
            m20: 0, m21: 1, m22: 0,
        })
        .insert(GridRotation {
            m00: 0, m01: 0, m02: 1,
            m10: 0, m11: 1, m12: 0,
            m20: -1i8, m21: 0, m22: 0,
        })
        .insert(GridRotation {
            m00: 0, m01: 0, m02: 1,
            m10: 0, m11: -1i8, m12: 0,
            m20: 1, m21: 0, m22: 0,
        })
        .insert(GridRotation {
            m00: 0, m01: 0, m02: -1i8,
            m10: 0, m11: 1, m12: 0,
            m20: 1, m21: 0, m22: 0,
        })
        .insert(GridRotation {
            m00: 0, m01: 0, m02: -1i8,
            m10: 0, m11: -1i8, m12: 0,
            m20: -1i8, m21: 0, m22: 0,
        })
}

/// There are exactly twenty-four rotations of the cube: the valid rotations are the
/// twenty-four listed ones, and no two of those are equal.
pub proof fn lemma_twenty_four_rotations()
    ensures
        Set::new(|g: GridRotation| g.spec_is_valid()) == cube_rotations(),
        Set::new(|g: GridRotation| g.spec_is_valid()).finite(),
        Set::new(|g: GridRotation| g.spec_is_valid()).len() == 24,
{
    assert forall|g: GridRotation| #[trigger] g.spec_is_valid() implies cube_rotations().contains(g) by {
        lemma_valid_entries(g);
        bv_cube_rotation_entries(g.m00, g.m01, g.m02, g.m10, g.m11, g.m12, g.m20, g.m21, g.m22);
    }
    assert forall|g: GridRotation| #[trigger] cube_rotations().contains(g) implies g.spec_is_valid() by {
        assert(GridRotation {
            m00: 1, m01: 0, m02: 0,
            m10: 0, m11: 1, m12: 0,
            m20: 0, m21: 0, m22: 1,
        }.spec_is_valid());
        assert(GridRotation {
            m00: 1, m01: 0, m02: 0,
            m10: 0, m11: -1i8, m12: 0,
            m20: 0, m21: 0, m22: -1i8,
        }.spec_is_valid());
        assert(GridRotation {
            m00: -1i8, m01: 0, m02: 0,
            m10: 0, m11: 1, m12: 0,
            m20: 0, m21: 0, m22: -1i8,
        }.spec_is_valid());
        assert(GridRotation {
            m00: -1i8, m01: 0, m02: 0,
            m10: 0, m11: -1i8, m12: 0,
            m20: 0, m21: 0, m22: 1,
        }.spec_is_valid());
        assert(GridRotation {
            m00: 1, m01: 0, m02: 0,
            m10: 0, m11: 0, m12: 1,
            m20: 0, m21: -1i8, m22: 0,
        }.spec_is_valid());
        assert(GridRotation {
            m00: 1, m01: 0, m02: 0,
            m10: 0, m11: 0, m12: -1i8,
            m20: 0, m21: 1, m22: 0,
        }.spec_is_valid());
        assert(GridRotation {
            m00: -1i8, m01: 0, m02: 0,
            m10: 0, m11: 0, m12: 1,
            m20: 0, m21: 1, m22: 0,
        }.spec_is_valid());
        assert(GridRotation {
            m00: -1i8, m01: 0, m02: 0,
            m10: 0, m11: 0, m12: -1i8,
            m20: 0, m21: -1i8, m22: 0,
        }.spec_is_valid());
        assert(GridRotation {
            m00: 0, m01: 1, m02: 0,
            m10: 1, m11: 0, m12: 0,
            m20: 0, m21: 0, m22: -1i8,
        }.spec_is_valid());
        assert(GridRotation {
            m00: 0, m01: 1, m02: 0,
            m10: -1i8, m11: 0, m12: 0,
            m20: 0, m21: 0, m22: 1,
        }.spec_is_valid());
        assert(GridRotation {
            m00: 0, m01: -1i8, m02: 0,
            m10: 1, m11: 0, m12: 0,
            m20: 0, m21: 0, m22: 1,
        }.spec_is_valid());
        assert(GridRotation {
            m00: 0, m01: -1i8, m02: 0,
            m10: -1i8, m11: 0, m12: 0,
            m20: 0, m21: 0, m22: -1i8,
        }.spec_is_valid());
        assert(GridRotation {
            m00: 0, m01: 1, m02: 0,
            m10: 0, m11: 0, m12: 1,
            m20: 1, m21: 0, m22: 0,
        }.spec_is_valid());
        assert(GridRotation {
            m00: 0, m01: 1, m02: 0,
            m10: 0, m11: 0, m12: -1i8,
            m20: -1i8, m21: 0, m22: 0,
        }.spec_is_valid());
        assert(GridRotation {
            m00: 0, m01: -1i8, m02: 0,
            m10: 0, m11: 0, m12: 1,
            m20: -1i8, m21: 0, m22: 0,
        }.spec_is_valid());
        assert(GridRotation {
            m00: 0, m01: -1i8, m02: 0,
            m10: 0, m11: 0, m12: -1i8,
            m20: 1, m21: 0, m22: 0,
        }.spec_is_valid());
        assert(GridRotation {
            m00: 0, m01: 0, m02: 1,
            m10: 1, m11: 0, m12: 0,
            m20: 0, m21: 1, m22: 0,
        }.spec_is_valid());
        assert(GridRotation {
            m00: 0, m01: 0, m02: 1,
            m10: -1i8, m11: 0, m12: 0,
            m20: 0, m21: -1i8, m22: 0,
        }.spec_is_valid());
        assert(GridRotation {
            m00: 0, m01: 0, m02: -1i8,
            m10: 1, m11: 0, m12: 0,
            m20: 0, m21: -1i8, m22: 0,
        }.spec_is_valid());
        assert(GridRotation {
            m00: 0, m01: 0, m02: -1i8,
            m10: -1i8, m11: 0, m12: 0,
            m20: 0, m21: 1, m22: 0,
        }.spec_is_valid());
        assert(GridRotation {
            m00: 0, m01: 0, m02: 1,
            m10: 0, m11: 1, m12: 0,
            m20: -1i8, m21: 0, m22: 0,
        }.spec_is_valid());
        assert(GridRotation {
            m00: 0, m01: 0, m02: 1,
            m10: 0, m11: -1i8, m12: 0,
            m20: 1, m21: 0, m22: 0,
        }.spec_is_valid());
        assert(GridRotation {
            m00: 0, m01: 0, m02: -1i8,
            m10: 0, m11: 1, m12: 0,
            m20: 1, m21: 0, m22: 0,
        }.spec_is_valid());
        assert(GridRotation {
            m00: 0, m01: 0, m02: -1i8,
            m10: 0, m11: -1i8, m12: 0,
            m20: -1i8, m21: 0, m22: 0,
        }.spec_is_valid());
    }
    assert(Set::new(|g: GridRotation| g.spec_is_valid()) =~= cube_rotations());
    let s0 = Set::<GridRotation>::empty();
    let s1 = s0.insert(GridRotation {
        m00: 1, m01: 0, m02: 0,
        m10: 0, m11: 1, m12: 0,
        m20: 0, m21: 0, m22: 1,
    });
    assert(s1.len() == 1);
    let s2 = s1.insert(GridRotation {
        m00: 1, m01: 0, m02: 0,
        m10: 0, m11: -1i8, m12: 0,
        m20: 0, m21: 0, m22: -1i8,
    });
    assert(s2.len() == 2);
    let s3 = s2.insert(GridRotation {
        m00: -1i8, m01: 0, m02: 0,
        m10: 0, m11: 1, m12: 0,
        m20: 0, m21: 0, m22: -1i8,
    });
    assert(s3.len() == 3);
    let s4 = s3.insert(GridRotation {
        m00: -1i8, m01: 0, m02: 0,
        m10: 0, m11: -1i8, m12: 0,
        m20: 0, m21: 0, m22: 1,
    });
    assert(s4.len() == 4);
    let s5 = s4.insert(GridRotation {
        m00: 1, m01: 0, m02: 0,
        m10: 0, m11: 0, m12: 1,
        m20: 0, m21: -1i8, m22: 0,
    });
    assert(s5.len() == 5);
    let s6 = s5.insert(GridRotation {
        m00: 1, m01: 0, m02: 0,
        m10: 0, m11: 0, m12: -1i8,
        m20: 0, m21: 1, m22: 0,
    });
    assert(s6.len() == 6);
    let s7 = s6.insert(GridRotation {
        m00: -1i8, m01: 0, m02: 0,
        m10: 0, m11: 0, m12: 1,
        m20: 0, m21: 1, m22: 0,
    });
    assert(s7.len() == 7);
    let s8 = s7.insert(GridRotation {
        m00: -1i8, m01: 0, m02: 0,
        m10: 0, m11: 0, m12: -1i8,
        m20: 0, m21: -1i8, m22: 0,
    });
    assert(s8.len() == 8);
    let s9 = s8.insert(GridRotation {
        m00: 0, m01: 1, m02: 0,
        m10: 1, m11: 0, m12: 0,
        m20: 0, m21: 0, m22: -1i8,
    });
    assert(s9.len() == 9);
    let s10 = s9.insert(GridRotation {
        m00: 0, m01: 1, m02: 0,
        m10: -1i8, m11: 0, m12: 0,
        m20: 0, m21: 0, m22: 1,
    });
    assert(s10.len() == 10);
    let s11 = s10.insert(GridRotation {
        m00: 0, m01: -1i8, m02: 0,
        m10: 1, m11: 0, m12: 0,
        m20: 0, m21: 0, m22: 1,
    });
    assert(s11.len() == 11);
    let s12 = s11.insert(GridRotation {
        m00: 0, m01: -1i8, m02: 0,
        m10: -1i8, m11: 0, m12: 0,
        m20: 0, m21: 0, m22: -1i8,
    });
    assert(s12.len() == 12);
    let s13 = s12.insert(GridRotation {
        m00: 0, m01: 1, m02: 0,
        m10: 0, m11: 0, m12: 1,
        m20: 1, m21: 0, m22: 0,
    });
    assert(s13.len() == 13);
    let s14 = s13.insert(GridRotation {
        m00: 0, m01: 1, m02: 0,
        m10: 0, m11: 0, m12: -1i8,
        m20: -1i8, m21: 0, m22: 0,
    });
    assert(s14.len() == 14);
    let s15 = s14.insert(GridRotation {
        m00: 0, m01: -1i8, m02: 0,
        m10: 0, m11: 0, m12: 1,
        m20: -1i8, m21: 0, m22: 0,
    });
    assert(s15.len() == 15);
    let s16 = s15.insert(GridRotation {
        m00: 0, m01: -1i8, m02: 0,
        m10: 0, m11: 0, m12: -1i8,
        m20: 1, m21: 0, m22: 0,
    });
    assert(s16.len() == 16);
    let s17 = s16.insert(GridRotation {
        m00: 0, m01: 0, m02: 1,
        m10: 1, m11: 0, m12: 0,
        m20: 0, m21: 1, m22: 0,
    });
    assert(s17.len() == 17);
    let s18 = s17.insert(GridRotation {
        m00: 0, m01: 0, m02: 1,
        m10: -1i8, m11: 0, m12: 0,
        m20: 0, m21: -1i8, m22: 0,
    });
    assert(s18.len() == 18);
    let s19 = s18.insert(GridRotation {
        m00: 0, m01: 0, m02: -1i8,
        m10: 1, m11: 0, m12: 0,
        m20: 0, m21: -1i8, m22: 0,
    });
    assert(s19.len() == 19);
    let s20 = s19.insert(GridRotation {
        m00: 0, m01: 0, m02: -1i8,
        m10: -1i8, m11: 0, m12: 0,
        m20: 0, m21: 1, m22: 0,
    });
    assert(s20.len() == 20);
    let s21 = s20.insert(GridRotation {
        m00: 0, m01: 0, m02: 1,
        m10: 0, m11: 1, m12: 0,
        m20: -1i8, m21: 0, m22: 0,
    });
    assert(s21.len() == 21);
    let s22 = s21.insert(GridRotation {
        m00: 0, m01: 0, m02: 1,
        m10: 0, m11: -1i8, m12: 0,
        m20: 1, m21: 0, m22: 0,
    });
    assert(s22.len() == 22);
    let s23 = s22.insert(GridRotation {
        m00: 0, m01: 0, m02: -1i8,
        m10: 0, m11: 1, m12: 0,
        m20: 1, m21: 0, m22: 0,
    });
    assert(s23.len() == 23);
    let s24 = s23.insert(GridRotation {
        m00: 0, m01: 0, m02: -1i8,
        m10: 0, m11: -1i8, m12: 0,
        m20: -1i8, m21: 0, m22: 0,
    });
    assert(s24.len() == 24);
    assert(s24 == cube_rotations());
}

/// Entry `(r, c)` of the quarter turn about `axis`.
pub open spec fn quarter_entry(axis: GridAxis, r: int, c: int) -> int {
    match axis {
        GridAxis::X => if r == 0 && c == 0 {
            1
        } else if r == 1 && c == 2 {
            -1
        } else if r == 2 && c == 1 {
            1
        } else {
            0
        },
        GridAxis::Y => if r == 0 && c == 2 {
            1
        } else if r == 1 && c == 1 {
            1
        } else if r == 2 && c == 0 {
            -1
        } else {
            0
        },
        GridAxis::Z => if r == 0 && c == 1 {
            -1
        } else if r == 1 && c == 0 {
            1
        } else if r == 2 && c == 2 {
            1
        } else {
            0
        },
    }
}

/// The entries of the identity and of the three quarter turns: about X the rows are
/// `[1,0,0],[0,0,-1],[0,1,0]`, about Y `[0,0,1],[0,1,0],[-1,0,0]`, about Z
/// `[0,-1,0],[1,0,0],[0,0,1]`.
pub proof fn lemma_rotation_entries()
    ensures
        forall|r: int, c: int|
            0 <= r < 3 && 0 <= c < 3 ==> #[trigger] identity_rotation().at(r, c) == if r == c {
                1int
            } else {
                0int
            },
        forall|axis: GridAxis, r: int, c: int|
            0 <= r < 3 && 0 <= c < 3 ==> #[trigger] quarter_turn(axis).at(r, c) == quarter_entry(
                axis,
                r,
                c,
            ),
{
    assert forall|axis: GridAxis, r: int, c: int|
        0 <= r < 3 && 0 <= c < 3 implies #[trigger] quarter_turn(axis).at(r, c) == quarter_entry(
        axis,
        r,
        c,
    ) by {
        match axis {
            GridAxis::X => {},
            GridAxis::Y => {},
            GridAxis::Z => {},
        }
    }
}

/// A matrix built from entries within `i8` holds those entries.
pub proof fn lemma_matrix_of_entries(
    a: int,
    b: int,
    c: int,
    d: int,
    e: int,
    f: int,
    g: int,
    h: int,
    i: int,
)
    requires
        fits_i8(a) && fits_i8(b) && fits_i8(c),
        fits_i8(d) && fits_i8(e) && fits_i8(f),
        fits_i8(g) && fits_i8(h) && fits_i8(i),
    ensures
        ({
            let m = matrix_of(a, b, c, d, e, f, g, h, i);
            &&& m.at(0, 0) == a && m.at(0, 1) == b && m.at(0, 2) == c
            &&& m.at(1, 0) == d && m.at(1, 1) == e && m.at(1, 2) == f
            &&& m.at(2, 0) == g && m.at(2, 1) == h && m.at(2, 2) == i
        }),
{
}

/// Two rotations with the same entries are equal.
pub proof fn lemma_entries_equal(a: GridRotation, b: GridRotation)
    requires
        forall|r: int, c: int| 0 <= r < 3 && 0 <= c < 3 ==> #[trigger] a.at(r, c) == b.at(r, c),
    ensures
        a == b,
{
    assert(a.at(0, 0) == b.at(0, 0) && a.at(0, 1) == b.at(0, 1) && a.at(0, 2) == b.at(0, 2));
    assert(a.at(1, 0) == b.at(1, 0) && a.at(1, 1) == b.at(1, 1) && a.at(1, 2) == b.at(1, 2));
    assert(a.at(2, 0) == b.at(2, 0) && a.at(2, 1) == b.at(2, 1) && a.at(2, 2) == b.at(2, 2));
}

/// The entries of a product of rotations of the cube are the entries of the matrix product.
pub proof fn lemma_compose_entries(a: GridRotation, b: GridRotation)
    requires
        a.spec_is_valid(),
        b.spec_is_valid(),
    ensures
        a.compose_fits(b),
        a.spec_compose(b).spec_is_valid(),
        forall|r: int, c: int|
            0 <= r < 3 && 0 <= c < 3 ==> #[trigger] a.spec_compose(b).at(r, c) == a.product(b, r, c),
{
    lemma_compose_valid(a, b);
    assert(a.product_fits(b, 0, 0) && a.product_fits(b, 0, 1) && a.product_fits(b, 0, 2));
    assert(a.product_fits(b, 1, 0) && a.product_fits(b, 1, 1) && a.product_fits(b, 1, 2));
    assert(a.product_fits(b, 2, 0) && a.product_fits(b, 2, 1) && a.product_fits(b, 2, 2));
    lemma_matrix_of_entries(
        a.product(b, 0, 0),
        a.product(b, 0, 1),
        a.product(b, 0, 2),
        a.product(b, 1, 0),
        a.product(b, 1, 1),
        a.product(b, 1, 2),
        a.product(b, 2, 0),
        a.product(b, 2, 1),
        a.product(b, 2, 2),
    );
}

/// The identity leaves a rotation of the cube unchanged, on either side of a product.
pub proof fn lemma_identity_compose(a: GridRotation)
    requires
        a.spec_is_valid(),
    ensures
        identity_rotation().compose_fits(a),
        identity_rotation().spec_compose(a) == a,
        a.compose_fits(identity_rotation()),
        a.spec_compose(identity_rotation()) == a,
{
    let i = identity_rotation();
    lemma_identity_valid();
    lemma_compose_entries(i, a);
    lemma_compose_entries(a, i);
    lemma_unit_entries(a);
    assert forall|r: int, c: int| 0 <= r < 3 && 0 <= c < 3 implies #[trigger] i.spec_compose(a).at(
        r,
        c,
    ) == a.at(r, c) by {
        lemma_unit_times(a.at(0, c), 1);
        lemma_unit_times(a.at(1, c), 1);
        lemma_unit_times(a.at(2, c), 1);
        lemma_unit_times(a.at(0, c), 0);
        lemma_unit_times(a.at(1, c), 0);
        lemma_unit_times(a.at(2, c), 0);
        assert(i.product(a, r, c) == i.at(r, 0) * a.at(0, c) + i.at(r, 1) * a.at(1, c) + i.at(
            r,
            2,
        ) * a.at(2, c));
        assert(i.at(r, 0) * a.at(0, c) == a.at(0, c) * i.at(r, 0)) by (nonlinear_arith);
        assert(i.at(r, 1) * a.at(1, c) == a.at(1, c) * i.at(r, 1)) by (nonlinear_arith);
        assert(i.at(r, 2) * a.at(2, c) == a.at(2, c) * i.at(r, 2)) by (nonlinear_arith);
    }
    assert forall|r: int, c: int| 0 <= r < 3 && 0 <= c < 3 implies #[trigger] a.spec_compose(i).at(
        r,
        c,
    ) == a.at(r, c) by {
        lemma_unit_times(a.at(r, 0), i.at(0, c));
        lemma_unit_times(a.at(r, 1), i.at(1, c));
        lemma_unit_times(a.at(r, 2), i.at(2, c));
    }
    lemma_entries_equal(i.spec_compose(a), a);
    lemma_entries_equal(a.spec_compose(i), a);
}

/// Summing a row against the columns of a second matrix and then against a vector gives
/// the row against the second matrix times the vector.
proof fn lemma_dot_assoc(
    a0: int,
    a1: int,
    a2: int,
    b00: int,
    b01: int,
    b02: int,
    b10: int,
    b11: int,
    b12: int,
    b20: int,
    b21: int,
    b22: int,
    x: int,
    y: int,
    z: int,
)
    ensures
        (a0 * b00 + a1 * b10 + a2 * b20) * x + (a0 * b01 + a1 * b11 + a2 * b21) * y + (a0 * b02
            + a1 * b12 + a2 * b22) * z == a0 * (b00 * x + b01 * y + b02 * z) + a1 * (b10 * x + b11
            * y + b12 * z) + a2 * (b20 * x + b21 * y + b22 * z),
{
    lemma_sum3_times(a0 * b00, a1 * b10, a2 * b20, x);
    lemma_sum3_times(a0 * b01, a1 * b11, a2 * b21, y);
    lemma_sum3_times(a0 * b02, a1 * b12, a2 * b22, z);
    lemma_times_sum3(a0, b00 * x, b01 * y, b02 * z);
    lemma_times_sum3(a1, b10 * x, b11 * y, b12 * z);
    lemma_times_sum3(a2, b20 * x, b21 * y, b22 * z);
    lemma_times_assoc(a0, b00, x);
    lemma_times_assoc(a0, b01, y);
    lemma_times_assoc(a0, b02, z);
    lemma_times_assoc(a1, b10, x);
    lemma_times_assoc(a1, b11, y);
    lemma_times_assoc(a1, b12, z);
    lemma_times_assoc(a2, b20, x);
    lemma_times_assoc(a2, b21, y);
    lemma_times_assoc(a2, b22, z);
}

proof fn lemma_sum3_times(u: int, v: int, w: int, x: int) by (nonlinear_arith)
    ensures
        (u + v + w) * x == u * x + v * x + w * x,
{
}

proof fn lemma_times_sum3(a: int, u: int, v: int, w: int) by (nonlinear_arith)
    ensures
        a * (u + v + w) == a * u + a * v + a * w,
{
}

proof fn lemma_times_assoc(a: int, b: int, x: int) by (nonlinear_arith)
    ensures
        (a * b) * x == a * (b * x),
{
}

/// A rotation of the cube applies to every position with no coordinate at `i32::MIN`, and
/// the result has none either.
pub proof fn lemma_valid_apply_fits(g: GridRotation, p: GridPosition)
    requires
        g.spec_is_valid(),
        p.x != i32::MIN && p.y != i32::MIN && p.z != i32::MIN,
    ensures
        g.apply_fits(p),
        g.spec_apply(p).x != i32::MIN,
        g.spec_apply(p).y != i32::MIN,
        g.spec_apply(p).z != i32::MIN,
        g.spec_apply(p).x == g.row_dot(0, p),
        g.spec_apply(p).y == g.row_dot(1, p),
        g.spec_apply(p).z == g.row_dot(2, p),
{
    lemma_unit_entries(g);
    lemma_row_dot_cases(g, 0, p);
    lemma_row_dot_cases(g, 1, p);
    lemma_row_dot_cases(g, 2, p);
}

/// Applying a product of rotations is applying the right one and then the left one.
pub proof fn lemma_compose_apply(a: GridRotation, b: GridRotation, p: GridPosition)
    requires
        a.spec_is_valid(),
        b.spec_is_valid(),
        p.x != i32::MIN && p.y != i32::MIN && p.z != i32::MIN,
    ensures
        a.compose_fits(b),
        b.apply_fits(p),
        a.apply_fits(b.spec_apply(p)),
        a.spec_compose(b).apply_fits(p),
        a.spec_compose(b).spec_apply(p) == a.spec_apply(b.spec_apply(p)),
{
    lemma_compose_entries(a, b);
    let ab = a.spec_compose(b);
    lemma_valid_apply_fits(b, p);
    let q = b.spec_apply(p);
    lemma_valid_apply_fits(a, q);
    lemma_valid_apply_fits(ab, p);
    assert forall|r: int| 0 <= r < 3 implies #[trigger] ab.row_dot(r, p) == a.row_dot(r, q) by {
        lemma_dot_assoc(
            a.at(r, 0),
            a.at(r, 1),
            a.at(r, 2),
            b.at(0, 0),
            b.at(0, 1),
            b.at(0, 2),
            b.at(1, 0),
            b.at(1, 1),
            b.at(1, 2),
            b.at(2, 0),
            b.at(2, 1),
            b.at(2, 2),
            p.x as int,
            p.y as int,
            p.z as int,
        );
    }
    assert(ab.row_dot(0, p) == a.row_dot(0, q));
    assert(ab.row_dot(1, p) == a.row_dot(1, q));
    assert(ab.row_dot(2, p) == a.row_dot(2, q));
}

/// Products of rotations of the cube are associative.
pub proof fn lemma_compose_assoc(a: GridRotation, b: GridRotation, c: GridRotation)
    requires
        a.spec_is_valid(),
        b.spec_is_valid(),
        c.spec_is_valid(),
    ensures
        a.spec_compose(b).compose_fits(c),
        b.spec_compose(c).spec_is_valid(),
        a.compose_fits(b.spec_compose(c)),
        a.spec_compose(b).spec_compose(c) == a.spec_compose(b.spec_compose(c)),
{
    lemma_compose_entries(a, b);
    lemma_compose_entries(b, c);
    let ab = a.spec_compose(b);
    let bc = b.spec_compose(c);
    lemma_compose_entries(ab, c);
    lemma_compose_entries(a, bc);
    assert forall|r: int, k: int| 0 <= r < 3 && 0 <= k < 3 implies #[trigger] ab.spec_compose(c).at(
        r,
        k,
    ) == a.spec_compose(bc).at(r, k) by {
        lemma_dot_assoc(
            a.at(r, 0),
            a.at(r, 1),
            a.at(r, 2),
            b.at(0, 0),
            b.at(0, 1),
            b.at(0, 2),
            b.at(1, 0),
            b.at(1, 1),
            b.at(1, 2),
            b.at(2, 0),
            b.at(2, 1),
            b.at(2, 2),
            c.at(0, k),
            c.at(1, k),
            c.at(2, k),
        );
    }
    lemma_entries_equal(ab.spec_compose(c), a.spec_compose(bc));
}

/// The inverse of the inverse is the rotation itself, and a rotation of the cube undoes its
/// inverse: applying the inverse and then the rotation gives back the position.
pub proof fn lemma_inverse_inverse(g: GridRotation, p: GridPosition)
    requires
        g.spec_is_valid(),
        p.x != i32::MIN && p.y != i32::MIN && p.z != i32::MIN,
    ensures
        g.spec_inverse().spec_inverse() == g,
        g.spec_inverse().apply_fits(p),
        g.apply_fits(g.spec_inverse().spec_apply(p)),
        g.spec_apply(g.spec_inverse().spec_apply(p)) == p,
        g.apply_fits(p),
        g.spec_inverse().apply_fits(g.spec_apply(p)),
        g.spec_inverse().spec_apply(g.spec_apply(p)) == p,
{
    lemma_inverse_valid(g);
    let h = g.spec_inverse();
    assert(h.spec_inverse() == g);
    lemma_valid_apply_fits(h, p);
    lemma_valid_apply_fits(g, p);
    lemma_inverse_apply(h, p);
    lemma_inverse_apply(g, p);
}

/// Turning `n` quarter turns about an axis and then `-n` gives back the rotation.
pub proof fn lemma_quarter_turns_undone(g: GridRotation, axis: GridAxis, n: i8, m: i8)
    requires
        g.spec_is_valid(),
        m == -n,
    ensures
        g.rotated(axis, (n % 4) as nat).rotated(axis, (m % 4) as nat) == g,
{
    let a = (n % 4) as nat;
    let b = (m % 4) as nat;
    lemma_rotated_add(g, axis, b, a);
    assert(a + b == 0 || a + b == 4);
    if a + b == 4 {
        lemma_four_quarter_turns(g, axis);
    }
}

} // verus!
