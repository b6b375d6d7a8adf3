//! Structural warnings: joints that hang on a single face contact, and pieces that rest on
//! no other piece.

use std::collections::BTreeMap;
use vstd::prelude::*;

use crate::geometry::{abs, BeadKey};
use crate::model::{Color, ObjectId, Piece, StructuralWarning};
use crate::ordered::{bead_keys, lemma_take_filter_step, sorted_ids, sorted_ids_of};
use crate::project::Project;

verus! {

broadcast use vstd::std_specs::btree::group_btree_axioms, vstd::laws_cmp::group_laws_cmp;

/// Two grid cells share a face.
pub open spec fn face_adjacent(p: BeadKey, q: BeadKey) -> bool {
    abs(p.0 - q.0) + abs(p.1 - q.1) + abs(p.2 - q.2) == 1
}

/// The cell `p` lies higher than `q`, straight above it or one step aside.
pub open spec fn rests_above(p: BeadKey, q: BeadKey) -> bool {
    p.2 > q.2 && abs(p.0 - q.0) + abs(p.1 - q.1) <= 1
}

/// The cells of `a` that share a face with some cell of `b`.
pub open spec fn touching(a: Map<BeadKey, Color>, b: Map<BeadKey, Color>) -> Set<BeadKey> {
    a.dom().filter(|p: BeadKey| exists|q: BeadKey| b.dom().contains(q) && face_adjacent(p, q))
}

/// Some bead of `a` rests above some bead of `b`.
pub open spec fn rests_on(a: Map<BeadKey, Color>, b: Map<BeadKey, Color>) -> bool {
    exists|p: BeadKey, q: BeadKey|
        a.dom().contains(p) && b.dom().contains(q) && #[trigger] rests_above(p, q)
}

/// The pieces of a project in increasing id order.
pub open spec fn pieces_in_order(p: Project) -> Seq<Piece> {
    sorted_ids_of(p.pieces@.dom()).map_values(|k: ObjectId| p.pieces@[k])
}

/// The joint warnings of piece `i` against the pieces from `i + 1` up to `end`.
pub open spec fn joints_of(pieces: Seq<Piece>, i: int, end: int) -> Seq<StructuralWarning>
    decreases end - i,
{
    if end <= i + 1 {
        Seq::empty()
    } else {
        joints_of(pieces, i, end - 1) + if touching(pieces[i].beads@, pieces[end - 1].beads@).len()
            == 1 {
            seq![
                StructuralWarning::ShallowJoint {
                    piece_a: pieces[i].id,
                    piece_b: pieces[end - 1].id,
                },
            ]
        } else {
            Seq::empty()
        }
    }
}

/// The joint warnings of the first `rows` pieces, each against the pieces after it.
pub open spec fn joints_upto(pieces: Seq<Piece>, rows: int) -> Seq<StructuralWarning>
    decreases rows,
{
    if rows <= 0 {
        Seq::empty()
    } else {
        joints_upto(pieces, rows - 1) + joints_of(pieces, rows - 1, pieces.len() as int)
    }
}

/// The piece at index `k` holds beads and rests on no piece with another id.
pub open spec fn unsupported_at(pieces: Seq<Piece>, k: int) -> bool {
    &&& !pieces[k].beads@.is_empty()
    &&& !exists|m: int|
        0 <= m < pieces.len() && pieces[m].id != pieces[k].id && #[trigger] rests_on(
            pieces[k].beads@,
            pieces[m].beads@,
        )
}

/// The warnings for the unsupported pieces among the first `n`.
pub open spec fn unsupported_upto(pieces: Seq<Piece>, n: int) -> Seq<StructuralWarning>
    decreases n,
{
    if n <= 0 {
        Seq::empty()
    } else {
        unsupported_upto(pieces, n - 1) + if unsupported_at(pieces, n - 1) {
            seq![StructuralWarning::UnsupportedPiece { piece_id: pieces[n - 1].id }]
        } else {
            Seq::empty()
        }
    }
}

/// All structural warnings of a project: first the shallow joints of each pair of pieces in id
/// order, then the unsupported pieces in id order.
pub open spec fn structural_warnings_of(p: Project) -> Seq<StructuralWarning> {
    let pieces = pieces_in_order(p);
    joints_upto(pieces, pieces.len() as int) + unsupported_upto(pieces, pieces.len() as int)
}

fn abs_diff(a: i32, b: i32) -> (r: i64)
    ensures
        r == abs(a - b),
{
    let d: i64 = a as i64 - b as i64;
    if d < 0 {
        -d
    } else {
        d
    }
}

fn is_face_adjacent(p: BeadKey, q: BeadKey) -> (r: bool)
    ensures
        r == face_adjacent(p, q),
{
    abs_diff(p.0, q.0) + abs_diff(p.1, q.1) + abs_diff(p.2, q.2) == 1
}

fn is_above(p: BeadKey, q: BeadKey) -> (r: bool)
    ensures
        r == rests_above(p, q),
{
    p.2 > q.2 && abs_diff(p.0, q.0) + abs_diff(p.1, q.1) <= 1
}

/// Whether some cell of the list shares a face with `p`.
fn touches_any(p: BeadKey, cells: &Vec<BeadKey>) -> (r: bool)
    ensures
        r == exists|m: int| 0 <= m < cells@.len() && #[trigger] face_adjacent(p, cells@[m]),
{
    let mut i: usize = 0;
    while i < cells.len()
        invariant
            0 <= i <= cells.len(),
            forall|m: int| 0 <= m < i ==> !#[trigger] face_adjacent(p, cells@[m]),
        decreases cells.len() - i,
    {
        if is_face_adjacent(p, cells[i]) {
            return true;
        }
        i = i + 1;
    }
    false
}

/// The number of beads of `a` that share a face with a bead of `b`.
pub fn contact_count(a: &BTreeMap<BeadKey, Color>, b: &BTreeMap<BeadKey, Color>) -> (r: usize)
    ensures
        r == touching(a@, b@).len(),
{
    let mine = bead_keys(a);
    let theirs = bead_keys(b);
    let ghost f = |p: BeadKey| exists|q: BeadKey| b@.dom().contains(q) && face_adjacent(p, q);
    let mut count: usize = 0;
    let mut i: usize = 0;
    proof {
        assert(mine@.take(0).to_set().filter(f) =~= Set::<BeadKey>::empty());
    }
    while i < mine.len()
        invariant
            0 <= i <= mine.len(),
            mine@.to_set() == a@.dom(),
            mine@.no_duplicates(),
            theirs@.to_set() == b@.dom(),
            f == (|p: BeadKey| exists|q: BeadKey| b@.dom().contains(q) && face_adjacent(p, q)),
            count == mine@.take(i as int).to_set().filter(f).len(),
            count <= i,
        decreases mine.len() - i,
    {
        let p = mine[i];
        let t = touches_any(p, &theirs);
        proof {
            lemma_take_filter_step(mine@, i as int, f);
            if t {
                let m = choose|m: int| 0 <= m < theirs@.len() && #[trigger] face_adjacent(p, theirs@[m]);
                assert(theirs@.to_set().contains(theirs@[m]));
                assert(f(p));
            }
            if f(p) {
                let q = choose|q: BeadKey| b@.dom().contains(q) && face_adjacent(p, q);
                assert(theirs@.to_set().contains(q));
                let m = choose|m: int| 0 <= m < theirs@.len() && theirs@[m] == q;
                assert(face_adjacent(p, theirs@[m]));
            }
        }
        if t {
            count = count + 1;
        }
        i = i + 1;
    }
    proof {
        assert(mine@.take(mine@.len() as int) =~= mine@);
    }
    count
}

/// Whether some bead of `a` rests above some bead of `b`.
pub fn rests_on_any(a: &BTreeMap<BeadKey, Color>, b: &BTreeMap<BeadKey, Color>) -> (r: bool)
    ensures
        r == rests_on(a@, b@),
{
    let mine = bead_keys(a);
    let theirs = bead_keys(b);
    let mut i: usize = 0;
    while i < mine.len()
        invariant
            0 <= i <= mine.len(),
            mine@.to_set() == a@.dom(),
            theirs@.to_set() == b@.dom(),
            forall|m: int, n: int|
                0 <= m < i && 0 <= n < theirs@.len() ==> !#[trigger] rests_above(
                    mine@[m],
                    theirs@[n],
                ),
        decreases mine.len() - i,
    {
        let p = mine[i];
        let mut j: usize = 0;
        while j < theirs.len()
            invariant
                0 <= i < mine.len(),
                0 <= j <= theirs.len(),
                mine@.to_set() == a@.dom(),
                theirs@.to_set() == b@.dom(),
                p == mine@[i as int],
                forall|n: int| 0 <= n < j ==> !#[trigger] rests_above(p, theirs@[n]),
            decreases theirs.len() - j,
        {
            if is_above(p, theirs[j]) {
                proof {
                    assert(mine@.to_set().contains(p));
                    assert(theirs@.to_set().contains(theirs@[j as int]));
                }
                return true;
            }
            j = j + 1;
        }
        i = i + 1;
    }
    proof {
        if rests_on(a@, b@) {
            let (p, q) = choose|p: BeadKey, q: BeadKey|
                a@.dom().contains(p) && b@.dom().contains(q) && #[trigger] rests_above(p, q);
            assert(mine@.to_set().contains(p));
            assert(theirs@.to_set().contains(q));
            let m = choose|m: int| 0 <= m < mine@.len() && mine@[m] == p;
            let n = choose|n: int| 0 <= n < theirs@.len() && theirs@[n] == q;
            assert(rests_above(mine@[m], theirs@[n]));
        }
    }
    false
}

impl Project {
    /// Warnings about weak construction: each pair of pieces (in id order) whose beads touch
    /// in exactly one face contact, then each piece with beads that rests on no other piece.
    pub fn structural_warnings(&self) -> (r: Vec<StructuralWarning>)
        ensures
            r@ == structural_warnings_of(*self),
    {
        let keys = sorted_ids(&self.pieces);
        let ghost pieces = pieces_in_order(*self);
        let n = keys.len();
        let mut warnings: Vec<StructuralWarning> = Vec::new();
        let mut i: usize = 0;
        while i < n
            invariant
                n == keys.len(),
                keys@ == sorted_ids_of(self.pieces@.dom()),
                keys@.to_set() == self.pieces@.dom(),
                pieces == pieces_in_order(*self),
                0 <= i <= n,
                warnings@ == joints_upto(pieces, i as int),
            decreases n - i,
        {
            proof {
                assert(keys@.to_set().contains(keys@[i as int]));
            }
            let a = self.pieces.get(&keys[i]).unwrap();
            let ghost before = warnings@;
            let mut j: usize = i + 1;
            proof {
                assert(joints_of(pieces, i as int, j as int) =~= Seq::<StructuralWarning>::empty());
                assert(warnings@ =~= before + joints_of(pieces, i as int, j as int));
            }
            while j < n
                invariant
                    n == keys.len(),
                    keys@ == sorted_ids_of(self.pieces@.dom()),
                    keys@.to_set() == self.pieces@.dom(),
                    pieces == pieces_in_order(*self),
                    0 <= i < n,
                    i + 1 <= j <= n,
                    *a == pieces[i as int],
                    warnings@ == before + joints_of(pieces, i as int, j as int),
                decreases n - j,
            {
                proof {
                    assert(keys@.to_set().contains(keys@[j as int]));
                }
                let b = self.pieces.get(&keys[j]).unwrap();
                let ghost mid = warnings@;
                if contact_count(&a.beads, &b.beads) == 1 {
                    warnings.push(StructuralWarning::ShallowJoint { piece_a: a.id, piece_b: b.id });
                }
                proof {
                    assert(*b == pieces[j as int]);
                    assert(warnings@ =~= before + joints_of(pieces, i as int, j + 1));
                }
                j = j + 1;
            }
            proof {
                assert(warnings@ =~= joints_upto(pieces, i + 1));
            }
            i = i + 1;
        }
        let ghost joints = warnings@;
        let mut k: usize = 0;
        proof {
            assert(warnings@ =~= joints + unsupported_upto(pieces, 0));
        }
        while k < n
            invariant
                n == keys.len(),
                keys@ == sorted_ids_of(self.pieces@.dom()),
                keys@.to_set() == self.pieces@.dom(),
                pieces == pieces_in_order(*self),
                0 <= k <= n,
                joints == joints_upto(pieces, n as int),
                warnings@ == joints + unsupported_upto(pieces, k as int),
            decreases n - k,
        {
            proof {
                assert(keys@.to_set().contains(keys@[k as int]));
            }
            let piece = self.pieces.get(&keys[k]).unwrap();
            let ghost mid = warnings@;
            if !piece.beads.is_empty() {
                let mut supported = false;
                let mut m: usize = 0;
                while m < n
                    invariant
                        n == keys.len(),
                        keys@ == sorted_ids_of(self.pieces@.dom()),
                        keys@.to_set() == self.pieces@.dom(),
                        pieces == pieces_in_order(*self),
                        0 <= k < n,
                        0 <= m <= n,
                        *piece == pieces[k as int],
                        supported == exists|x: int|
                            0 <= x < m && pieces[x].id != pieces[k as int].id
                                && #[trigger] rests_on(pieces[k as int].beads@, pieces[x].beads@),
                    decreases n - m,
                {
                    proof {
                        assert(keys@.to_set().contains(keys@[m as int]));
                    }
                    let other = self.pieces.get(&keys[m]).unwrap();
                    proof {
                        assert(*other == pieces[m as int]);
                    }
                    if other.id != piece.id && rests_on_any(&piece.beads, &other.beads) {
                        supported = true;
                    }
                    m = m + 1;
                }
                if !supported {
                    warnings.push(StructuralWarning::UnsupportedPiece { piece_id: piece.id });
                }
            }
            proof {
                assert(warnings@ =~= joints + unsupported_upto(pieces, k + 1));
            }
            k = k + 1;
        }
        warnings
    }
}

} // verus!
