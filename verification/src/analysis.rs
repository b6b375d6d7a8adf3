//! What a project is ready for and what it needs: output readiness, bead counts, the bead
//! inventory by color.

use std::collections::BTreeMap;
use vstd::prelude::*;

use crate::geometry::BeadKey;
use crate::model::{BeadInventory, Color, ColorKey, DomainError, ObjectId, OutputReadiness};
use crate::ordered::{bead_keys, sorted_ids, sorted_ids_of};
use crate::project::Project;

verus! {

broadcast use vstd::std_specs::btree::group_btree_axioms, vstd::laws_cmp::group_laws_cmp;

/// The ids of the shapes under the given keys that still hold beads, in key order.
pub open spec fn shapes_with_beads(p: Project, keys: Seq<ObjectId>) -> Seq<ObjectId>
    decreases keys.len(),
{
    if keys.len() == 0 {
        Seq::empty()
    } else {
        let rest = shapes_with_beads(p, keys.drop_last());
        let s = p.shapes@[keys.last()];
        if !s.beads@.is_empty() {
            rest.push(s.id)
        } else {
            rest
        }
    }
}

/// The shapes that still hold beads and so keep the assembly from being output, by id.
pub open spec fn remaining_shapes(p: Project) -> Seq<ObjectId> {
    shapes_with_beads(p, sorted_ids_of(p.shapes@.dom()))
}

/// The number of beads of the shapes under the given keys.
pub open spec fn shape_bead_total(p: Project, keys: Seq<ObjectId>) -> nat
    decreases keys.len(),
{
    if keys.len() == 0 {
        0
    } else {
        shape_bead_total(p, keys.drop_last()) + p.shapes@[keys.last()].beads@.len()
    }
}

/// The number of beads of the pieces under the given keys.
pub open spec fn piece_bead_total(p: Project, keys: Seq<ObjectId>) -> nat
    decreases keys.len(),
{
    if keys.len() == 0 {
        0
    } else {
        piece_bead_total(p, keys.drop_last()) + p.pieces@[keys.last()].beads@.len()
    }
}

/// The number of beads in all shapes and pieces.
pub open spec fn total_beads(p: Project) -> nat {
    shape_bead_total(p, sorted_ids_of(p.shapes@.dom())) + piece_bead_total(
        p,
        sorted_ids_of(p.pieces@.dom()),
    )
}

/// The number of the given positions whose bead in the map has the given color.
pub open spec fn count_in(beads: Map<BeadKey, Color>, s: Set<BeadKey>, c: ColorKey) -> nat {
    s.filter(|b: BeadKey| beads[b].spec_key() == c).len()
}

/// The number of beads of the given color in a bead map.
pub open spec fn color_count(beads: Map<BeadKey, Color>, c: ColorKey) -> nat {
    count_in(beads, beads.dom(), c)
}

/// The number of beads of the given color in the pieces under the given keys.
pub open spec fn piece_color_total(p: Project, keys: Seq<ObjectId>, c: ColorKey) -> nat
    decreases keys.len(),
{
    if keys.len() == 0 {
        0
    } else {
        piece_color_total(p, keys.drop_last(), c) + color_count(p.pieces@[keys.last()].beads@, c)
    }
}

/// The number of beads of the given color in all pieces.
pub open spec fn piece_beads_of_color(p: Project, c: ColorKey) -> nat {
    piece_color_total(p, sorted_ids_of(p.pieces@.dom()), c)
}

/// The number of beads in all pieces.
pub open spec fn piece_beads(p: Project) -> nat {
    piece_bead_total(p, sorted_ids_of(p.pieces@.dom()))
}

/// The sum of the counts in a map from colors to counts.
pub open spec fn count_sum(m: Map<ColorKey, usize>) -> int {
    m.dom().fold(0int, |acc: int, c: ColorKey| acc + m[c])
}

/// Folding a set of colors by adding up counts gives the same sum for two maps that agree on it.
proof fn lemma_count_fold_agree(s: Set<ColorKey>, m1: Map<ColorKey, usize>, m2: Map<ColorKey, usize>)
    requires
        s.finite(),
        forall|c: ColorKey| #[trigger] s.contains(c) ==> m1[c] == m2[c],
    ensures
        s.fold(0int, |acc: int, c: ColorKey| acc + m1[c]) == s.fold(
            0int,
            |acc: int, c: ColorKey| acc + m2[c],
        ),
    decreases s.len(),
{
    let f1 = |acc: int, c: ColorKey| acc + m1[c];
    let f2 = |acc: int, c: ColorKey| acc + m2[c];
    if s.len() == 0 {
        assert(s =~= Set::<ColorKey>::empty());
        vstd::set::fold::lemma_fold_empty(0int, f1);
        vstd::set::fold::lemma_fold_empty(0int, f2);
    } else {
        let a = s.choose();
        let rest = s.remove(a);
        lemma_count_fold_agree(rest, m1, m2);
        assert(vstd::set::fold::is_fun_commutative(f1));
        assert(vstd::set::fold::is_fun_commutative(f2));
        vstd::set::fold::lemma_fold_insert(rest, 0int, f1, a);
        vstd::set::fold::lemma_fold_insert(rest, 0int, f2, a);
        assert(rest.insert(a) =~= s);
    }
}

/// Counting one more bead of a color adds one to the sum of the counts.
proof fn lemma_count_sum_bump(m: Map<ColorKey, usize>, c: ColorKey, v: usize)
    requires
        m.dom().finite(),
        m.contains_key(c) ==> v == m[c] + 1,
        !m.contains_key(c) ==> v == 1,
    ensures
        count_sum(m.insert(c, v)) == count_sum(m) + 1,
{
    let m2 = m.insert(c, v);
    let f1 = |acc: int, k: ColorKey| acc + m[k];
    let f2 = |acc: int, k: ColorKey| acc + m2[k];
    assert(vstd::set::fold::is_fun_commutative(f1));
    assert(vstd::set::fold::is_fun_commutative(f2));
    let rest = m.dom().remove(c);
    lemma_count_fold_agree(rest, m, m2);
    vstd::set::fold::lemma_fold_insert(rest, 0int, f2, c);
    assert(rest.insert(c) =~= m2.dom());
    if m.contains_key(c) {
        vstd::set::fold::lemma_fold_insert(rest, 0int, f1, c);
        assert(rest.insert(c) =~= m.dom());
    } else {
        assert(rest =~= m.dom());
    }
}

/// No counts sum to nothing.
proof fn lemma_count_sum_empty()
    ensures
        count_sum(Map::<ColorKey, usize>::empty()) == 0,
{
    let m = Map::<ColorKey, usize>::empty();
    assert(m.dom() =~= Set::<ColorKey>::empty());
    vstd::set::fold::lemma_fold_empty(0int, |acc: int, c: ColorKey| acc + m[c]);
}

proof fn lemma_filter_step(beads: Map<BeadKey, Color>, keys: Seq<BeadKey>, j: int, c: ColorKey)
    requires
        0 <= j < keys.len(),
        keys.no_duplicates(),
    ensures
        count_in(beads, keys.take(j + 1).to_set(), c) == count_in(beads, keys.take(j).to_set(), c)
            + if beads[keys[j]].spec_key() == c {
            1nat
        } else {
            0nat
        },
        keys.take(j + 1).to_set().len() == keys.take(j).to_set().len() + 1,
{
    let f = |b: BeadKey| beads[b].spec_key() == c;
    crate::ordered::lemma_take_to_set(keys, j);
    let before = keys.take(j).to_set();
    assert(!before.contains(keys[j])) by {
        if before.contains(keys[j]) {
            let m = choose|m: int| 0 <= m < keys.take(j).len() && keys.take(j)[m] == keys[j];
            assert(keys[m] == keys[j]);
        }
    }
    keys.take(j).lemma_cardinality_of_set();
    assert(before.finite()) by {
        vstd::seq_lib::seq_to_set_is_finite(keys.take(j));
    }
    if f(keys[j]) {
        assert(keys.take(j + 1).to_set().filter(f) =~= before.filter(f).insert(keys[j]));
    } else {
        assert(keys.take(j + 1).to_set().filter(f) =~= before.filter(f));
    }
}

impl Project {
    /// Which shapes of the assembly still hold beads; output is ready when none do.
    pub fn assembly_output_readiness(&self, assembly_id: ObjectId) -> (r: Result<
        OutputReadiness,
        DomainError,
    >)
        ensures
            match r {
                Ok(readiness) => assembly_id == self.assembly.id && readiness.assembly_id
                    == assembly_id && readiness.remaining_shape_ids@ == remaining_shapes(*self),
                Err(e) => assembly_id != self.assembly.id && e == DomainError::AssemblyNotFound(
                    assembly_id,
                ),
            },
    {
        if assembly_id != self.assembly.id {
            return Err(DomainError::AssemblyNotFound(assembly_id));
        }
        let keys = sorted_ids(&self.shapes);
        let mut remaining: Vec<ObjectId> = Vec::new();
        let mut i: usize = 0;
        while i < keys.len()
            invariant
                0 <= i <= keys.len(),
                keys@.to_set() == self.shapes@.dom(),
                remaining@ == shapes_with_beads(*self, keys@.take(i as int)),
            decreases keys.len() - i,
        {
            let k = keys[i];
            proof {
                assert(keys@.to_set().contains(k));
                assert(keys@.take(i + 1).drop_last() =~= keys@.take(i as int));
            }
            let shape = self.shapes.get(&k).unwrap();
            if !shape.beads.is_empty() {
                remaining.push(shape.id);
            }
            i = i + 1;
        }
        assert(keys@.take(keys@.len() as int) =~= keys@);
        Ok(OutputReadiness { assembly_id, remaining_shape_ids: remaining })
    }

    /// The output readiness of the project's assembly.
    pub fn output_readiness(&self) -> (r: OutputReadiness)
        ensures
            r.assembly_id == self.assembly.id,
            r.remaining_shape_ids@ == remaining_shapes(*self),
    {
        match self.assembly_output_readiness(self.assembly.id) {
            Ok(readiness) => readiness,
            Err(_) => {
                proof {
                    assert(false);
                }
                OutputReadiness { assembly_id: 0, remaining_shape_ids: Vec::new() }
            },
        }
    }

    /// The number of beads in all shapes and pieces.
    pub fn bead_count(&self) -> (r: usize)
        requires
            total_beads(*self) <= usize::MAX,
        ensures
            r == total_beads(*self),
    {
        let keys = sorted_ids(&self.shapes);
        let mut shape_total: usize = 0;
        let mut i: usize = 0;
        while i < keys.len()
            invariant
                0 <= i <= keys.len(),
                keys@ == sorted_ids_of(self.shapes@.dom()),
                keys@.to_set() == self.shapes@.dom(),
                total_beads(*self) <= usize::MAX,
                shape_total == shape_bead_total(*self, keys@.take(i as int)),
            decreases keys.len() - i,
        {
            let k = keys[i];
            proof {
                assert(keys@.to_set().contains(k));
                assert(keys@.take(i + 1).drop_last() =~= keys@.take(i as int));
                self.lemma_shape_total_prefix(keys@, i + 1);
            }
            shape_total = shape_total + self.shapes.get(&k).unwrap().beads.len();
            i = i + 1;
        }
        assert(keys@.take(keys@.len() as int) =~= keys@);
        let keys = sorted_ids(&self.pieces);
        let mut piece_total: usize = 0;
        let mut i: usize = 0;
        while i < keys.len()
            invariant
                0 <= i <= keys.len(),
                keys@ == sorted_ids_of(self.pieces@.dom()),
                keys@.to_set() == self.pieces@.dom(),
                total_beads(*self) <= usize::MAX,
                shape_total == shape_bead_total(*self, sorted_ids_of(self.shapes@.dom())),
                piece_total == piece_bead_total(*self, keys@.take(i as int)),
            decreases keys.len() - i,
        {
            let k = keys[i];
            proof {
                assert(keys@.to_set().contains(k));
                assert(keys@.take(i + 1).drop_last() =~= keys@.take(i as int));
                self.lemma_piece_total_prefix(keys@, i + 1);
            }
            piece_total = piece_total + self.pieces.get(&k).unwrap().beads.len();
            i = i + 1;
        }
        assert(keys@.take(keys@.len() as int) =~= keys@);
        shape_total + piece_total
    }

    proof fn lemma_shape_total_prefix(&self, keys: Seq<ObjectId>, n: int)
        requires
            0 <= n <= keys.len(),
        ensures
            shape_bead_total(*self, keys.take(n)) <= shape_bead_total(*self, keys),
        decreases keys.len() - n,
    {
        if n < keys.len() {
            self.lemma_shape_total_prefix(keys, n + 1);
            assert(keys.take(n + 1).drop_last() =~= keys.take(n));
        } else {
            assert(keys.take(n) =~= keys);
        }
    }

    proof fn lemma_piece_total_prefix(&self, keys: Seq<ObjectId>, n: int)
        requires
            0 <= n <= keys.len(),
        ensures
            piece_bead_total(*self, keys.take(n)) <= piece_bead_total(*self, keys),
        decreases keys.len() - n,
    {
        if n < keys.len() {
            self.lemma_piece_total_prefix(keys, n + 1);
            assert(keys.take(n + 1).drop_last() =~= keys.take(n));
        } else {
            assert(keys.take(n) =~= keys);
        }
    }

    /// How many beads of each color the pieces use, and how many in all.
    pub fn inventory(&self) -> (r: BeadInventory)
        requires
            piece_beads(*self) <= usize::MAX,
        ensures
            r.total == piece_beads(*self),
            r.total == count_sum(r.by_color@),
            forall|c: ColorKey| #[trigger]
                r.by_color@.contains_key(c) <==> piece_beads_of_color(*self, c) > 0,
            forall|c: ColorKey| #[trigger]
                r.by_color@.contains_key(c) ==> r.by_color@[c] == piece_beads_of_color(*self, c),
    {
        let mut by_color: BTreeMap<ColorKey, usize> = BTreeMap::new();
        let mut total: usize = 0;
        let keys = sorted_ids(&self.pieces);
        let mut i: usize = 0;
        proof {
            lemma_count_sum_empty();
        }
        while i < keys.len()
            invariant
                0 <= i <= keys.len(),
                total == count_sum(by_color@),
                keys@ == sorted_ids_of(self.pieces@.dom()),
                keys@.to_set() == self.pieces@.dom(),
                piece_beads(*self) <= usize::MAX,
                total == piece_bead_total(*self, keys@.take(i as int)),
                forall|c: ColorKey| #[trigger]
                    by_color@.contains_key(c) <==> piece_color_total(*self, keys@.take(i as int), c) > 0,
                forall|c: ColorKey| #[trigger]
                    by_color@.contains_key(c) ==> by_color@[c] == piece_color_total(
                        *self,
                        keys@.take(i as int),
                        c,
                    ),
                forall|c: ColorKey| piece_color_total(*self, keys@.take(i as int), c) <= total,
            decreases keys.len() - i,
        {
            let k = keys[i];
            proof {
                assert(keys@.to_set().contains(k));
                assert(keys@.take(i + 1).drop_last() =~= keys@.take(i as int));
                self.lemma_piece_total_prefix(keys@, i + 1);
                assert(keys@.take(keys@.len() as int) =~= keys@);
            }
            let piece = self.pieces.get(&k).unwrap();
            let beads = &piece.beads;
            let bead_list = bead_keys(beads);
            let ghost before_total = total;
            let ghost prefix = keys@.take(i as int);
            let mut j: usize = 0;
            proof {
                assert(bead_list@.take(0).to_set() =~= Set::<BeadKey>::empty());
                assert forall|c: ColorKey|
                    #[trigger] count_in(beads@, bead_list@.take(0).to_set(), c) == 0 by {
                    assert(bead_list@.take(0).to_set().filter(
                        |x: BeadKey| beads@[x].spec_key() == c,
                    ) =~= Set::<BeadKey>::empty());
                }
            }
            while j < bead_list.len()
                invariant
                    0 <= j <= bead_list.len(),
                    total == count_sum(by_color@),
                    bead_list@.to_set() == beads@.dom(),
                    bead_list@.no_duplicates(),
                    piece_beads(*self) <= usize::MAX,
                    before_total + beads@.len() <= piece_bead_total(*self, keys@),
                    piece_bead_total(*self, keys@) == piece_beads(*self),
                    total == before_total + bead_list@.take(j as int).to_set().len(),
                    forall|c: ColorKey| #[trigger]
                        by_color@.contains_key(c) <==> piece_color_total(*self, prefix, c)
                            + count_in(beads@, bead_list@.take(j as int).to_set(), c) > 0,
                    forall|c: ColorKey| #[trigger]
                        by_color@.contains_key(c) ==> by_color@[c] == piece_color_total(
                            *self,
                            prefix,
                            c,
                        ) + count_in(beads@, bead_list@.take(j as int).to_set(), c),
                    forall|c: ColorKey|
                        piece_color_total(*self, prefix, c) + count_in(
                            beads@,
                            bead_list@.take(j as int).to_set(),
                            c,
                        ) <= total,
                decreases bead_list.len() - j,
            {
                let b = bead_list[j];
                proof {
                    assert(bead_list@.to_set().contains(b));
                    lemma_filter_step(beads@, bead_list@, j as int, beads@[b].spec_key());
                    assert forall|c: ColorKey| c != beads@[b].spec_key() implies
                        #[trigger] count_in(beads@, bead_list@.take(j + 1).to_set(), c)
                        == count_in(beads@, bead_list@.take(j as int).to_set(), c) by {
                        lemma_filter_step(beads@, bead_list@, j as int, c);
                    }
                    bead_list@.take(j + 1).to_set().lemma_len_filter(|x: BeadKey| beads@[x].spec_key() == beads@[b].spec_key());
                    assert(bead_list@.take(j + 1).to_set().len() <= beads@.dom().len()) by {
                        vstd::set_lib::lemma_len_subset(bead_list@.take(j + 1).to_set(), beads@.dom());
                    }
                }
                let color = beads.get(&b).unwrap().key();
                let count = match by_color.get(&color) {
                    Some(n) => *n,
                    None => 0,
                };
                proof {
                    lemma_count_sum_bump(by_color@, color, (count + 1) as usize);
                }
                by_color.insert(color, count + 1);
                total = total + 1;
                j = j + 1;
            }
            proof {
                assert(bead_list@.take(bead_list@.len() as int) =~= bead_list@);
                assert(bead_list@.take(j as int) =~= bead_list@);
                assert forall|c: ColorKey| #![auto]
                    piece_color_total(*self, keys@.take(i + 1), c) == piece_color_total(*self, prefix, c)
                        + count_in(beads@, bead_list@.to_set(), c)
                    && piece_color_total(*self, keys@.take(i + 1), c) <= total by {
                    assert(keys@.take(i + 1).last() == k);
                    assert(piece_color_total(*self, prefix, c) + count_in(
                        beads@,
                        bead_list@.take(j as int).to_set(),
                        c,
                    ) <= total);
                }
                bead_list@.unique_seq_to_set();
            }
            i = i + 1;
            assert forall|c: ColorKey| piece_color_total(*self, keys@.take(i as int), c) <= total by {
                assert(piece_color_total(*self, keys@.take(i as int), c) == piece_color_total(
                    *self,
                    prefix,
                    c,
                ) + count_in(beads@, bead_list@.to_set(), c));
            }
        }
        proof {
            assert(keys@.take(keys@.len() as int) =~= keys@);
        }
        BeadInventory { by_color, total }
    }
}

} // verus!
