//! The flat editing view of a piece: projecting cells onto the piece's plane, and the layout
//! of square plates that covers the piece.

use vstd::prelude::*;

use crate::geometry::{abs, fits_i32, key_position, BeadKey, GridPosition, Plane};
use crate::model::Piece;
use crate::ordered::bead_keys;

verus! {

broadcast use vstd::std_specs::btree::group_btree_axioms, vstd::laws_cmp::group_laws_cmp;

/// The number of cells along each side of a plate.
pub const PLATE_SIZE: i32 = 29;

/// A cell of a plane, in the plane's own two coordinates.
#[derive(Clone, Copy, Debug, PartialEq, Eq, Structural)]
pub struct GridPoint2d {
    pub u: i32,
    pub v: i32,
}

impl GridPoint2d {
    pub fn new(u: i32, v: i32) -> (r: GridPoint2d)
        ensures
            r == (GridPoint2d { u, v }),
    {
        GridPoint2d { u, v }
    }
}

/// The two in-plane coordinates of a position: `x, y` on an XY plane, `x, z` on an XZ
/// plane, `y, z` on a YZ plane.
pub open spec fn projected(plane: Plane, position: GridPosition) -> GridPoint2d {
    match plane {
        Plane::Xy { .. } => GridPoint2d { u: position.x, v: position.y },
        Plane::Xz { .. } => GridPoint2d { u: position.x, v: position.z },
        Plane::Yz { .. } => GridPoint2d { u: position.y, v: position.z },
    }
}

/// The position on the plane with the given in-plane coordinates.
pub open spec fn unprojected(plane: Plane, point: GridPoint2d) -> GridPosition {
    match plane {
        Plane::Xy { z } => GridPosition { x: point.u, y: point.v, z },
        Plane::Xz { y } => GridPosition { x: point.u, y, z: point.v },
        Plane::Yz { x } => GridPosition { x, y: point.u, z: point.v },
    }
}

/// The in-plane coordinates of a position.
#[verifier::when_used_as_spec(projected)]
pub fn project_position(plane: Plane, position: GridPosition) -> (r: GridPoint2d)
    ensures
        r == projected(plane, position),
{
    match plane {
        Plane::Xy { .. } => GridPoint2d::new(position.x, position.y),
        Plane::Xz { .. } => GridPoint2d::new(position.x, position.z),
        Plane::Yz { .. } => GridPoint2d::new(position.y, position.z),
    }
}

/// The position on the plane with the given in-plane coordinates.
#[verifier::when_used_as_spec(unprojected)]
pub fn unproject_position(plane: Plane, point: GridPoint2d) -> (r: GridPosition)
    ensures
        r == unprojected(plane, point),
{
    match plane {
        Plane::Xy { z } => GridPosition::new(point.u, point.v, z),
        Plane::Xz { y } => GridPosition::new(point.u, y, point.v),
        Plane::Yz { x } => GridPosition::new(x, point.u, point.v),
    }
}

/// Projecting a position of the plane and placing the result back on the plane gives the
/// position again.
pub proof fn lemma_unproject_after_project(plane: Plane, position: GridPosition)
    requires
        plane.spec_contains(position),
    ensures
        unprojected(plane, projected(plane, position)) == position,
{
}

/// A point placed on the plane lies on it and projects back to the same point.
pub proof fn lemma_project_after_unproject(plane: Plane, point: GridPoint2d)
    ensures
        plane.spec_contains(unprojected(plane, point)),
        projected(plane, unprojected(plane, point)) == point,
{
}

/// `v` limited to the range of `i32`.
pub open spec fn saturate_i32(v: int) -> i32 {
    if v < i32::MIN {
        i32::MIN
    } else if v > i32::MAX {
        i32::MAX
    } else {
        v as i32
    }
}

/// `v` limited to the range of `u32`.
pub open spec fn saturate_u32(v: int) -> u32 {
    if v < 0 {
        0
    } else if v > u32::MAX {
        u32::MAX
    } else {
        v as u32
    }
}

/// `a - b`, saturating at the bounds of `i32`.
pub fn saturating_sub_i32(a: i32, b: i32) -> (r: i32)
    ensures
        r == saturate_i32(a - b),
{
    let d: i64 = a as i64 - b as i64;
    if d < i32::MIN as i64 {
        i32::MIN
    } else if d > i32::MAX as i64 {
        i32::MAX
    } else {
        d as i32
    }
}

/// `a * b`, saturating at the bounds of `i32`.
pub fn saturating_mul_i32(a: i32, b: i32) -> (r: i32)
    ensures
        r == saturate_i32(a * b),
{
    proof {
        assert(-2147483648 * 2147483647 <= a * b <= 2147483648 * 2147483648) by (nonlinear_arith)
            requires
                i32::MIN <= a <= i32::MAX,
                i32::MIN <= b <= i32::MAX,
        ;
    }
    let p: i64 = a as i64 * b as i64;
    if p < i32::MIN as i64 {
        i32::MIN
    } else if p > i32::MAX as i64 {
        i32::MAX
    } else {
        p as i32
    }
}

/// The quotient of `value` by `divisor` truncated toward zero, plus one when the division
/// leaves a remainder: for positive operands, the quotient rounded up.
pub open spec fn ceil_quotient(value: int, divisor: int) -> int {
    let q = abs(value) / abs(divisor);
    let truncated = if (value < 0) != (divisor < 0) {
        -q
    } else {
        q
    };
    truncated + if abs(value) % abs(divisor) != 0 {
        1int
    } else {
        0int
    }
}

/// The quotient of `value` by `divisor` rounded up when both are positive.
pub fn div_ceil_positive(value: i32, divisor: i32) -> (r: i32)
    requires
        divisor != 0,
        !(value == i32::MIN && divisor == -1),
    ensures
        r == ceil_quotient(value as int, divisor as int),
{
    let a: u64 = if value < 0 {
        (-(value as i64)) as u64
    } else {
        value as u64
    };
    let b: u64 = if divisor < 0 {
        (-(divisor as i64)) as u64
    } else {
        divisor as u64
    };
    let q: u64 = a / b;
    let rem: u64 = a % b;
    proof {
        vstd::arithmetic::div_mod::lemma_div_basics(a as int);
        vstd::arithmetic::div_mod::lemma_div_is_ordered_by_denominator(a as int, 1, b as int);
        assert(q <= a);
        if rem != 0 {
            assert(b != 1) by {
                if b == 1 {
                    vstd::arithmetic::div_mod::lemma_div_basics(a as int);
                    vstd::arithmetic::div_mod::lemma_fundamental_div_mod(a as int, 1);
                }
            }
            vstd::arithmetic::div_mod::lemma_div_is_ordered_by_denominator(a as int, 2, b as int);
        }
        if b == 1 {
            vstd::arithmetic::div_mod::lemma_div_basics(a as int);
        }
    }
    let truncated: i64 = if (value < 0) != (divisor < 0) {
        -(q as i64)
    } else {
        q as i64
    };
    let result: i64 = if rem != 0 {
        truncated + 1
    } else {
        truncated
    };
    proof {
        assert(a == abs(value as int));
        assert(b == abs(divisor as int));
        if (value < 0) == (divisor < 0) {
            if b == 1 {
                assert(a <= i32::MAX);
                assert(rem == 0);
            } else {
                vstd::arithmetic::div_mod::lemma_div_is_ordered_by_denominator(a as int, 2, b as int);
                assert(q <= a / 2);
            }
        }
        assert(i32::MIN <= result <= i32::MAX);
    }
    result as i32
}

/// A count limited to the range of `i32`.
pub open spec fn count_as_i32(n: u32) -> int {
    if n <= i32::MAX {
        n as int
    } else {
        i32::MAX as int
    }
}

/// The number of plates needed along one axis to cover the cells from `minimum` to
/// `maximum`: at least one, and for `minimum <= maximum` the span divided by the plate
/// size, rounded up.
pub open spec fn plates_covering(minimum: int, maximum: int) -> u32 {
    let n = maximum - minimum + 1 + 28;
    if n <= -29 {
        u32::MAX
    } else if n < 29 {
        1
    } else {
        (n / 29) as u32
    }
}

/// The number of plates needed along one axis to cover the cells from `minimum` to
/// `maximum`.
pub fn plate_count(minimum: i32, maximum: i32) -> (r: u32)
    ensures
        r == plates_covering(minimum as int, maximum as int),
{
    let span: i64 = maximum as i64 - minimum as i64 + 1;
    let n: i64 = span + 28;
    if n <= -29 {
        u32::MAX
    } else if n < 29 {
        1
    } else {
        let q: i64 = n / 29;
        q as u32
    }
}

/// The first in-plane coordinate of a stored cell.
pub open spec fn cell_u(plane: Plane, key: BeadKey) -> int {
    projected(plane, key_position(key)).u as int
}

/// The second in-plane coordinate of a stored cell.
pub open spec fn cell_v(plane: Plane, key: BeadKey) -> int {
    projected(plane, key_position(key)).v as int
}

/// `m` is the smallest first coordinate of the cells.
pub open spec fn least_u(plane: Plane, cells: Set<BeadKey>, m: int) -> bool {
    &&& exists|k: BeadKey| cells.contains(k) && cell_u(plane, k) == m
    &&& forall|k: BeadKey| #[trigger] cells.contains(k) ==> cell_u(plane, k) >= m
}

/// `m` is the largest first coordinate of the cells.
pub open spec fn greatest_u(plane: Plane, cells: Set<BeadKey>, m: int) -> bool {
    &&& exists|k: BeadKey| cells.contains(k) && cell_u(plane, k) == m
    &&& forall|k: BeadKey| #[trigger] cells.contains(k) ==> cell_u(plane, k) <= m
}

/// `m` is the smallest second coordinate of the cells.
pub open spec fn least_v(plane: Plane, cells: Set<BeadKey>, m: int) -> bool {
    &&& exists|k: BeadKey| cells.contains(k) && cell_v(plane, k) == m
    &&& forall|k: BeadKey| #[trigger] cells.contains(k) ==> cell_v(plane, k) >= m
}

/// `m` is the largest second coordinate of the cells.
pub open spec fn greatest_v(plane: Plane, cells: Set<BeadKey>, m: int) -> bool {
    &&& exists|k: BeadKey| cells.contains(k) && cell_v(plane, k) == m
    &&& forall|k: BeadKey| #[trigger] cells.contains(k) ==> cell_v(plane, k) <= m
}

/// A grid of whole plates: its lower corner and how many plates it has along each axis.
#[derive(Clone, Copy, Debug, PartialEq, Eq, Structural)]
pub struct PlateLayout {
    pub min_u: i32,
    pub min_v: i32,
    pub columns: u32,
    pub rows: u32,
}

/// `layout` is the layout of a piece on `plane` whose beads lie at `cells`: one plate centred
/// on the origin for no beads, otherwise the fewest plates from the smallest coordinates that
/// reach the largest ones.
pub open spec fn fits_cells(layout: PlateLayout, plane: Plane, cells: Set<BeadKey>) -> bool {
    if cells.is_empty() {
        layout == PlateLayout::spec_empty_piece()
    } else {
        exists|hi_u: int, hi_v: int|
            {
                &&& least_u(plane, cells, layout.min_u as int)
                &&& greatest_u(plane, cells, hi_u)
                &&& least_v(plane, cells, layout.min_v as int)
                &&& greatest_v(plane, cells, hi_v)
                &&& layout.columns == plates_covering(layout.min_u as int, hi_u)
                &&& layout.rows == plates_covering(layout.min_v as int, hi_v)
            }
    }
}

/// The plates added below a lower edge `min` so that `p` is covered.
pub open spec fn plates_below(min: i32, p: i32) -> int {
    ceil_quotient(saturate_i32(min - p) as int, 29)
}

/// The plates added above a last cell `last` so that `p` is covered.
pub open spec fn plates_above(last: int, p: i32) -> int {
    ceil_quotient(saturate_i32(p - last) as int, 29)
}

impl PlateLayout {
    pub open spec fn spec_empty_piece() -> PlateLayout {
        PlateLayout { min_u: -14i32, min_v: -14i32, columns: 1u32, rows: 1u32 }
    }

    /// One plate centred on the origin.
    pub fn empty_piece() -> (r: PlateLayout)
        ensures
            r == Self::spec_empty_piece(),
    {
        PlateLayout { min_u: -14, min_v: -14, columns: 1, rows: 1 }
    }

    /// The last covered first coordinate.
    pub open spec fn last_u(self) -> int {
        self.min_u + count_as_i32(self.columns) * 29 - 1
    }

    /// The last covered second coordinate.
    pub open spec fn last_v(self) -> int {
        self.min_v + count_as_i32(self.rows) * 29 - 1
    }

    /// `max_u` computes without overflow.
    pub open spec fn u_end_fits(self) -> bool {
        &&& count_as_i32(self.columns) * 29 <= i32::MAX
        &&& self.min_u + count_as_i32(self.columns) * 29 <= i32::MAX
        &&& fits_i32(self.last_u())
    }

    /// `max_v` computes without overflow.
    pub open spec fn v_end_fits(self) -> bool {
        &&& count_as_i32(self.rows) * 29 <= i32::MAX
        &&& self.min_v + count_as_i32(self.rows) * 29 <= i32::MAX
        &&& fits_i32(self.last_v())
    }

    /// The last covered first coordinate.
    pub fn max_u(self) -> (r: i32)
        requires
            self.u_end_fits(),
        ensures
            r == self.last_u(),
    {
        let columns: i32 = if self.columns <= 2147483647u32 {
            self.columns as i32
        } else {
            i32::MAX
        };
        self.min_u + columns * PLATE_SIZE - 1
    }

    /// The last covered second coordinate.
    pub fn max_v(self) -> (r: i32)
        requires
            self.v_end_fits(),
        ensures
            r == self.last_v(),
    {
        let rows: i32 = if self.rows <= 2147483647u32 {
            self.rows as i32
        } else {
            i32::MAX
        };
        self.min_v + rows * PLATE_SIZE - 1
    }

    /// The layout after growing by whole plates towards `point` on each axis where it lies
    /// outside; counts and the lower edge saturate at the bounds of their types.
    pub open spec fn spec_expanded(self, point: GridPoint2d) -> PlateLayout {
        let (min_u, columns) = if point.u < self.min_u {
            let added = plates_below(self.min_u, point.u);
            (saturate_i32(self.min_u - saturate_i32(added * 29)), saturate_u32(self.columns + added))
        } else if point.u > self.last_u() {
            (self.min_u, saturate_u32(self.columns + plates_above(self.last_u(), point.u)))
        } else {
            (self.min_u, self.columns)
        };
        let (min_v, rows) = if point.v < self.min_v {
            let added = plates_below(self.min_v, point.v);
            (saturate_i32(self.min_v - saturate_i32(added * 29)), saturate_u32(self.rows + added))
        } else if point.v > self.last_v() {
            (self.min_v, saturate_u32(self.rows + plates_above(self.last_v(), point.v)))
        } else {
            (self.min_v, self.rows)
        };
        PlateLayout { min_u, min_v, columns, rows }
    }

    /// The fewest plates that cover the beads of a piece, projected onto its plane; one plate
    /// centred on the origin for a piece without beads.
    pub fn for_piece(piece: &Piece) -> (r: PlateLayout)
        ensures
            fits_cells(r, piece.plane, piece.beads@.dom()),
    {
        let plane = piece.plane;
        let keys = bead_keys(&piece.beads);
        if keys.len() == 0 {
            proof {
                assert(piece.beads@.dom() =~= Set::<BeadKey>::empty());
            }
            return Self::empty_piece();
        }
        let first = project_position(plane, GridPosition::from_key(keys[0]));
        let mut lo_u = first.u;
        let mut hi_u = first.u;
        let mut lo_v = first.v;
        let mut hi_v = first.v;
        let ghost mut at_lo_u: int = 0;
        let ghost mut at_hi_u: int = 0;
        let ghost mut at_lo_v: int = 0;
        let ghost mut at_hi_v: int = 0;
        let mut i: usize = 1;
        while i < keys.len()
            invariant
                1 <= i <= keys.len(),
                0 <= at_lo_u < i && cell_u(plane, keys@[at_lo_u]) == lo_u,
                0 <= at_hi_u < i && cell_u(plane, keys@[at_hi_u]) == hi_u,
                0 <= at_lo_v < i && cell_v(plane, keys@[at_lo_v]) == lo_v,
                0 <= at_hi_v < i && cell_v(plane, keys@[at_hi_v]) == hi_v,
                forall|j: int|
                    0 <= j < i ==> lo_u <= #[trigger] cell_u(plane, keys@[j]) <= hi_u,
                forall|j: int|
                    0 <= j < i ==> lo_v <= #[trigger] cell_v(plane, keys@[j]) <= hi_v,
            decreases keys.len() - i,
        {
            let point = project_position(plane, GridPosition::from_key(keys[i]));
            if point.u < lo_u {
                lo_u = point.u;
                proof {
                    at_lo_u = i as int;
                }
            }
            if point.u > hi_u {
                hi_u = point.u;
                proof {
                    at_hi_u = i as int;
                }
            }
            if point.v < lo_v {
                lo_v = point.v;
                proof {
                    at_lo_v = i as int;
                }
            }
            if point.v > hi_v {
                hi_v = point.v;
                proof {
                    at_hi_v = i as int;
                }
            }
            proof {
                assert(cell_u(plane, keys@[i as int]) == point.u);
                assert(cell_v(plane, keys@[i as int]) == point.v);
            }
            i = i + 1;
        }
        let layout = PlateLayout {
            min_u: lo_u,
            min_v: lo_v,
            columns: plate_count(lo_u, hi_u),
            rows: plate_count(lo_v, hi_v),
        };
        proof {
            let cells = piece.beads@.dom();
            assert(cells.contains(keys@[at_lo_u]));
            assert(cells.contains(keys@[at_hi_u]));
            assert(cells.contains(keys@[at_lo_v]));
            assert(cells.contains(keys@[at_hi_v]));
            assert forall|k: BeadKey| #[trigger] cells.contains(k) implies lo_u <= cell_u(plane, k)
                <= hi_u && lo_v <= cell_v(plane, k) <= hi_v by {
                assert(keys@.to_set().contains(k));
                let j = choose|j: int| 0 <= j < keys@.len() && keys@[j] == k;
                assert(lo_u <= cell_u(plane, keys@[j]) <= hi_u);
                assert(lo_v <= cell_v(plane, keys@[j]) <= hi_v);
            }
            assert(!cells.is_empty());
            assert(least_u(plane, cells, lo_u as int));
            assert(greatest_u(plane, cells, hi_u as int));
            assert(least_v(plane, cells, lo_v as int));
            assert(greatest_v(plane, cells, hi_v as int));
        }
        layout
    }

    /// Grows the layout by whole plates until it covers `point`, and returns how far the
    /// lower corner moved.
    pub fn expand_to_include(&mut self, point: GridPoint2d) -> (r: GridPoint2d)
        requires
            point.u >= old(self).min_u ==> old(self).u_end_fits(),
            point.v >= old(self).min_v ==> old(self).v_end_fits(),
        ensures
            *final(self) == old(self).spec_expanded(point),
            r.u == final(self).min_u - old(self).min_u,
            r.v == final(self).min_v - old(self).min_v,
    {
        let old_min_u = self.min_u;
        let old_min_v = self.min_v;
        if point.u < self.min_u {
            let added = div_ceil_positive(saturating_sub_i32(self.min_u, point.u), PLATE_SIZE);
            self.min_u = saturating_sub_i32(self.min_u, saturating_mul_i32(added, PLATE_SIZE));
            self.columns = self.columns.saturating_add(added as u32);
        } else if point.u > self.max_u() {
            let added = div_ceil_positive(saturating_sub_i32(point.u, self.max_u()), PLATE_SIZE);
            self.columns = self.columns.saturating_add(added as u32);
        }
        if point.v < self.min_v {
            let added = div_ceil_positive(saturating_sub_i32(self.min_v, point.v), PLATE_SIZE);
            self.min_v = saturating_sub_i32(self.min_v, saturating_mul_i32(added, PLATE_SIZE));
            self.rows = self.rows.saturating_add(added as u32);
        } else if point.v > self.max_v() {
            let added = div_ceil_positive(saturating_sub_i32(point.v, self.max_v()), PLATE_SIZE);
            self.rows = self.rows.saturating_add(added as u32);
        }
        GridPoint2d::new(self.min_u - old_min_u, self.min_v - old_min_v)
    }
}

/// For a positive `d`, the plates of 29 cells rounded up just reach `d` cells.
pub proof fn lemma_ceil_quotient_plates(d: int)
    requires
        d > 0,
    ensures
        ceil_quotient(d, 29) >= 1,
        ceil_quotient(d, 29) * 29 >= d,
        ceil_quotient(d, 29) * 29 < d + 29,
{
    vstd::arithmetic::div_mod::lemma_fundamental_div_mod(d, 29);
    vstd::arithmetic::div_mod::lemma_mod_bound(d, 29);
    assert(abs(d) == d);
    let q = d / 29;
    assert(d == 29 * q + d % 29);
    if d % 29 == 0 {
        assert(q >= 1);
        assert(ceil_quotient(d, 29) == q);
    } else {
        assert(ceil_quotient(d, 29) == q + 1);
    }
}

/// The layout of a piece covers every bead, and one plate fewer along either axis would not
/// reach the farthest bead.
pub proof fn lemma_layout_covers_cells(layout: PlateLayout, plane: Plane, cells: Set<BeadKey>)
    requires
        fits_cells(layout, plane, cells),
    ensures
        layout.columns >= 1,
        layout.rows >= 1,
        forall|k: BeadKey| #[trigger]
            cells.contains(k) ==> layout.min_u <= cell_u(plane, k) <= layout.last_u()
                && layout.min_v <= cell_v(plane, k) <= layout.last_v(),
        !cells.is_empty() ==> exists|k: BeadKey|
            cells.contains(k) && layout.last_u() - 29 < cell_u(plane, k),
        !cells.is_empty() ==> exists|k: BeadKey|
            cells.contains(k) && layout.last_v() - 29 < cell_v(plane, k),
{
    if !cells.is_empty() {
        let (hi_u, hi_v) = choose|hi_u: int, hi_v: int|
            {
                &&& least_u(plane, cells, layout.min_u as int)
                &&& greatest_u(plane, cells, hi_u)
                &&& least_v(plane, cells, layout.min_v as int)
                &&& greatest_v(plane, cells, hi_v)
                &&& layout.columns == plates_covering(layout.min_u as int, hi_u)
                &&& layout.rows == plates_covering(layout.min_v as int, hi_v)
            };
        let ku = choose|k: BeadKey| cells.contains(k) && cell_u(plane, k) == hi_u;
        let kv = choose|k: BeadKey| cells.contains(k) && cell_v(plane, k) == hi_v;
        let lu = choose|k: BeadKey| cells.contains(k) && cell_u(plane, k) == layout.min_u;
        let lv = choose|k: BeadKey| cells.contains(k) && cell_v(plane, k) == layout.min_v;
        assert(layout.min_u <= hi_u);
        assert(layout.min_v <= hi_v);
        let nu = hi_u - layout.min_u + 1 + 28;
        let nv = hi_v - layout.min_v + 1 + 28;
        vstd::arithmetic::div_mod::lemma_fundamental_div_mod(nu, 29);
        vstd::arithmetic::div_mod::lemma_mod_bound(nu, 29);
        vstd::arithmetic::div_mod::lemma_fundamental_div_mod(nv, 29);
        vstd::arithmetic::div_mod::lemma_mod_bound(nv, 29);
        assert(layout.columns as int == nu / 29);
        assert(layout.rows as int == nv / 29);
        assert(count_as_i32(layout.columns) == layout.columns);
        assert(count_as_i32(layout.rows) == layout.rows);
        assert(layout.last_u() - 29 < hi_u);
        assert(layout.last_v() - 29 < hi_v);
    }
}

/// Growing towards a point covers it with the fewest whole plates: below the layout the
/// lower edge moves down to within one plate of the point and the far edge stays; above it
/// the far edge moves up to within one plate of the point; inside it nothing changes. The
/// lower corner moves by whole plates. (Stated for coordinates and counts far from the
/// bounds of their types, where nothing saturates.)
pub proof fn lemma_expansion_covers_point(layout: PlateLayout, point: GridPoint2d)
    requires
        -0x2000_0000 <= layout.min_u <= 0x2000_0000,
        -0x2000_0000 <= layout.min_v <= 0x2000_0000,
        -0x2000_0000 <= point.u <= 0x2000_0000,
        -0x2000_0000 <= point.v <= 0x2000_0000,
        layout.columns <= 0x10_0000,
        layout.rows <= 0x10_0000,
    ensures
        ({
            let e = layout.spec_expanded(point);
            &&& e.min_u <= point.u <= e.last_u()
            &&& e.min_v <= point.v <= e.last_v()
            &&& (layout.min_u - e.min_u) % 29 == 0
            &&& (layout.min_v - e.min_v) % 29 == 0
            &&& if point.u < layout.min_u {
                point.u - 29 < e.min_u && e.last_u() == layout.last_u()
            } else if point.u > layout.last_u() {
                e.min_u == layout.min_u && e.last_u() - 29 < point.u
            } else {
                e.min_u == layout.min_u && e.columns == layout.columns
            }
            &&& if point.v < layout.min_v {
                point.v - 29 < e.min_v && e.last_v() == layout.last_v()
            } else if point.v > layout.last_v() {
                e.min_v == layout.min_v && e.last_v() - 29 < point.v
            } else {
                e.min_v == layout.min_v && e.rows == layout.rows
            }
        }),
{
    let e = layout.spec_expanded(point);
    assert(count_as_i32(layout.columns) == layout.columns);
    assert(count_as_i32(layout.rows) == layout.rows);
    if point.u < layout.min_u {
        let d = layout.min_u - point.u;
        assert(saturate_i32(d) == d);
        lemma_ceil_quotient_plates(d);
        let added = plates_below(layout.min_u, point.u);
        assert(saturate_i32(added * 29) == added * 29);
        assert(e.min_u == layout.min_u - added * 29);
        assert(e.columns == layout.columns + added);
        assert(count_as_i32(e.columns) == e.columns);
        assert((layout.min_u - e.min_u) % 29 == 0) by {
            vstd::arithmetic::div_mod::lemma_mod_multiples_basic(added, 29);
        }
    } else if point.u > layout.last_u() {
        let d = point.u - layout.last_u();
        assert(saturate_i32(d) == d);
        lemma_ceil_quotient_plates(d);
        let added = plates_above(layout.last_u(), point.u);
        assert(e.columns == layout.columns + added);
        assert(count_as_i32(e.columns) == e.columns);
    }
    if point.v < layout.min_v {
        let d = layout.min_v - point.v;
        assert(saturate_i32(d) == d);
        lemma_ceil_quotient_plates(d);
        let added = plates_below(layout.min_v, point.v);
        assert(saturate_i32(added * 29) == added * 29);
        assert(e.min_v == layout.min_v - added * 29);
        assert(e.rows == layout.rows + added);
        assert(count_as_i32(e.rows) == e.rows);
        assert((layout.min_v - e.min_v) % 29 == 0) by {
            vstd::arithmetic::div_mod::lemma_mod_multiples_basic(added, 29);
        }
    } else if point.v > layout.last_v() {
        let d = point.v - layout.last_v();
        assert(saturate_i32(d) == d);
        lemma_ceil_quotient_plates(d);
        let added = plates_above(layout.last_v(), point.v);
        assert(e.rows == layout.rows + added);
        assert(count_as_i32(e.rows) == e.rows);
    }
}

} // verus!
