//! What a valid project is, stated rule by rule, and the proof that this is exactly what
//! validation accepts.

use vstd::prelude::*;

use crate::hierarchy::{ancestor_at, reaches};
use crate::model::{beads_on_plane, planarity_check, Group, ObjectId};
use crate::project::Project;
use crate::validate::{
    first_bad_group, first_bad_piece, first_bad_shape, group_error, piece_error, shape_error,
    used_ids, validation_error, walk_error,
};

verus! {

broadcast use vstd::std_specs::btree::group_btree_axioms, vstd::laws_cmp::group_laws_cmp;

/// Following parents from `g`, the groups met in the first `n + 1` steps are all stored,
/// and the one met at step `n` has no parent.
pub open spec fn rooted_in(groups: Map<ObjectId, Group>, g: ObjectId, n: nat) -> bool {
    &&& forall|m: nat|
        m <= n ==> #[trigger] ancestor_at(groups, g, m) is Some && groups.contains_key(
            ancestor_at(groups, g, m)->0,
        )
    &&& ancestor_at(groups, g, n + 1) is None
}

/// Following parents from `g` ends at a group without a parent, through stored groups only.
pub open spec fn rooted(groups: Map<ObjectId, Group>, g: ObjectId) -> bool {
    exists|n: nat| rooted_in(groups, g, n)
}

/// The rules for the group stored under `k`.
pub open spec fn group_sound(p: Project, k: ObjectId) -> bool {
    let g = p.groups@[k];
    &&& g.id == k
    &&& k != p.assembly.id
    &&& g.placement.rotation.spec_is_valid()
    &&& k != p.assembly.root_group_id ==> (g.parent_group_id is Some && p.groups@.contains_key(
        g.parent_group_id->0,
    ))
    &&& rooted(p.groups@, k)
}

/// The rules for the shape stored under `k`.
pub open spec fn shape_sound(p: Project, k: ObjectId) -> bool {
    let s = p.shapes@[k];
    &&& s.id == k
    &&& k != p.assembly.id
    &&& !p.groups@.contains_key(k)
    &&& s.placement.rotation.spec_is_valid()
    &&& p.groups@.contains_key(s.parent_group_id)
}

/// The rules for the piece stored under `k`.
pub open spec fn piece_sound(p: Project, k: ObjectId) -> bool {
    let q = p.pieces@[k];
    &&& q.id == k
    &&& k != p.assembly.id
    &&& !p.groups@.contains_key(k)
    &&& !p.shapes@.contains_key(k)
    &&& q.placement.rotation.spec_is_valid()
    &&& p.groups@.contains_key(q.parent_group_id)
    &&& beads_on_plane(q.plane, q.beads@)
}

/// A valid project: the root group exists and has no parent; every group, shape and piece
/// is stored under its own id, which no other object uses, with a cube rotation and an
/// existing parent group; following parents from any group ends at the root without a cycle;
/// the beads of every piece lie on its plane; and the id counter is past every id in use.
pub open spec fn sound(p: Project) -> bool {
    let root = p.assembly.root_group_id;
    &&& root != 0
    &&& p.groups@.contains_key(root)
    &&& p.groups@[root].parent_group_id is None
    &&& forall|k: ObjectId| #[trigger] p.groups@.contains_key(k) ==> group_sound(p, k)
    &&& forall|k: ObjectId| #[trigger] p.shapes@.contains_key(k) ==> shape_sound(p, k)
    &&& forall|k: ObjectId| #[trigger] p.pieces@.contains_key(k) ==> piece_sound(p, k)
    &&& forall|id: ObjectId| #[trigger] used_ids(p).contains(id) ==> id < p.next_id
}

/// Following parents `i` steps and then `t` more is following them `i + t` steps.
pub proof fn lemma_ancestor_steps(groups: Map<ObjectId, Group>, g: ObjectId, i: nat, j: nat, t: nat)
    requires
        ancestor_at(groups, g, i) == ancestor_at(groups, g, j),
    ensures
        ancestor_at(groups, g, i + t) == ancestor_at(groups, g, j + t),
    decreases t,
{
    if t > 0 {
        lemma_ancestor_steps(groups, g, i, j, (t - 1) as nat);
        assert(ancestor_at(groups, g, i + t) == ancestor_at(groups, g, j + t)) by {
            reveal_with_fuel(ancestor_at, 2);
            assert((i + t - 1) as nat == (i + (t - 1)) as nat);
            assert((j + t - 1) as nat == (j + (t - 1)) as nat);
        }
    }
}

/// On a rooted walk the groups met are all different.
pub proof fn lemma_rooted_distinct(groups: Map<ObjectId, Group>, g: ObjectId, n: nat, i: nat, j: nat)
    requires
        rooted_in(groups, g, n),
        i < j <= n,
    ensures
        ancestor_at(groups, g, i) != ancestor_at(groups, g, j),
{
    if ancestor_at(groups, g, i) == ancestor_at(groups, g, j) {
        let t = (n + 1 - j) as nat;
        lemma_ancestor_steps(groups, g, i, j, t);
        assert(j + t == n + 1);
        assert(ancestor_at(groups, g, (i + t) as nat) is Some);
    }
}

/// The groups met in steps `1 .. k` of the walk from `g`.
pub open spec fn met_before(groups: Map<ObjectId, Group>, g: ObjectId, k: nat) -> Set<ObjectId> {
    Set::new(|x: ObjectId| exists|m: nat| 1 <= m < k && ancestor_at(groups, g, m) == Some(x))
}

/// A rooted walk passes the check that `validate` makes.
proof fn lemma_rooted_walk_from(
    groups: Map<ObjectId, Group>,
    id: ObjectId,
    g: ObjectId,
    n: nat,
    k: nat,
)
    requires
        groups.dom().finite(),
        rooted_in(groups, g, n),
        1 <= k <= n + 1,
    ensures
        walk_error(groups, id, ancestor_at(groups, g, k), met_before(groups, g, k)) is None,
    decreases n + 1 - k,
{
    let seen = met_before(groups, g, k);
    if k <= n {
        let x = ancestor_at(groups, g, k)->0;
        assert(ancestor_at(groups, g, k) is Some && groups.contains_key(x));
        assert(!seen.contains(x)) by {
            if seen.contains(x) {
                let m = choose|m: nat| 1 <= m < k && ancestor_at(groups, g, m) == Some(x);
                lemma_rooted_distinct(groups, g, n, m, k);
            }
        }
        assert(ancestor_at(groups, g, k + 1) == groups[x].parent_group_id);
        assert(met_before(groups, g, k + 1) =~= seen.insert(x)) by {
            assert forall|y: ObjectId| #[trigger] met_before(groups, g, k + 1).contains(y) implies seen.insert(
                y,
            ).contains(y) && (y == x || seen.contains(y)) by {
                let m = choose|m: nat| 1 <= m < k + 1 && ancestor_at(groups, g, m) == Some(y);
                if m < k {
                    assert(seen.contains(y));
                }
            }
            assert forall|y: ObjectId| #[trigger] seen.insert(x).contains(y) implies met_before(
                groups,
                g,
                k + 1,
            ).contains(y) by {
                if y == x {
                    assert(ancestor_at(groups, g, k) == Some(y));
                } else {
                    let m = choose|m: nat| 1 <= m < k && ancestor_at(groups, g, m) == Some(y);
                    assert(1 <= m < k + 1);
                }
            }
        }
        lemma_rooted_walk_from(groups, id, g, n, k + 1);
    } else {
        assert(ancestor_at(groups, g, k) is None);
    }
}

/// A walk that passes the check of `validate` is rooted.
proof fn lemma_walk_rooted_from(
    groups: Map<ObjectId, Group>,
    id: ObjectId,
    g: ObjectId,
    k: nat,
    seen: Set<ObjectId>,
)
    requires
        groups.dom().finite(),
        1 <= k,
        walk_error(groups, id, ancestor_at(groups, g, k), seen) is None,
        forall|m: nat|
            m < k ==> #[trigger] ancestor_at(groups, g, m) is Some && groups.contains_key(
                ancestor_at(groups, g, m)->0,
            ),
    ensures
        rooted(groups, g),
    decreases groups.dom().difference(seen).len(),
{
    match ancestor_at(groups, g, k) {
        None => {
            let n = (k - 1) as nat;
            assert(n + 1 == k);
            assert(rooted_in(groups, g, n));
        },
        Some(x) => {
            assert(!seen.contains(x) && groups.contains_key(x));
            crate::validate::lemma_difference_shrinks(groups.dom(), seen, x);
            assert(ancestor_at(groups, g, k + 1) == groups[x].parent_group_id);
            assert forall|m: nat| m < k + 1 implies #[trigger] ancestor_at(groups, g, m) is Some
                && groups.contains_key(ancestor_at(groups, g, m)->0) by {
                if m == k {
                    assert(ancestor_at(groups, g, m) == Some(x));
                }
            }
            lemma_walk_rooted_from(groups, id, g, k + 1, seen.insert(x));
        },
    }
}

/// For a stored group, the walk that `validate` makes passes exactly when the group is
/// rooted.
pub proof fn lemma_walk_iff_rooted(groups: Map<ObjectId, Group>, k: ObjectId)
    requires
        groups.dom().finite(),
        groups.contains_key(k),
    ensures
        walk_error(groups, k, groups[k].parent_group_id, Set::empty()) is None <==> rooted(
            groups,
            k,
        ),
{
    assert(ancestor_at(groups, k, 0) == Some(k));
    assert(ancestor_at(groups, k, 1) == groups[k].parent_group_id);
    if walk_error(groups, k, groups[k].parent_group_id, Set::empty()) is None {
        assert forall|m: nat| m < 1 implies #[trigger] ancestor_at(groups, k, m) is Some
            && groups.contains_key(ancestor_at(groups, k, m)->0) by {
            assert(m == 0);
        }
        lemma_walk_rooted_from(groups, k, k, 1, Set::empty());
    }
    if rooted(groups, k) {
        let n = choose|n: nat| rooted_in(groups, k, n);
        assert(met_before(groups, k, 1) =~= Set::<ObjectId>::empty());
        lemma_rooted_walk_from(groups, k, k, n, 1);
    }
}

/// Some group with a problem means a least one.
proof fn lemma_least_bad_group(p: Project, k: ObjectId)
    requires
        p.groups@.contains_key(k),
        group_error(p, k) is Some,
    ensures
        exists|j: ObjectId| first_bad_group(p, j),
    decreases k,
{
    if exists|j: ObjectId| p.groups@.contains_key(j) && j < k && group_error(p, j) is Some {
        let j = choose|j: ObjectId| p.groups@.contains_key(j) && j < k && group_error(p, j) is Some;
        lemma_least_bad_group(p, j);
    } else {
        assert(first_bad_group(p, k));
    }
}

/// Some shape with a problem means a least one.
proof fn lemma_least_bad_shape(p: Project, k: ObjectId)
    requires
        p.shapes@.contains_key(k),
        shape_error(p, k) is Some,
    ensures
        exists|j: ObjectId| first_bad_shape(p, j),
    decreases k,
{
    if exists|j: ObjectId| p.shapes@.contains_key(j) && j < k && shape_error(p, j) is Some {
        let j = choose|j: ObjectId| p.shapes@.contains_key(j) && j < k && shape_error(p, j) is Some;
        lemma_least_bad_shape(p, j);
    } else {
        assert(first_bad_shape(p, k));
    }
}

/// Some piece with a problem means a least one.
proof fn lemma_least_bad_piece(p: Project, k: ObjectId)
    requires
        p.pieces@.contains_key(k),
        piece_error(p, k) is Some,
    ensures
        exists|j: ObjectId| first_bad_piece(p, j),
    decreases k,
{
    if exists|j: ObjectId| p.pieces@.contains_key(j) && j < k && piece_error(p, j) is Some {
        let j = choose|j: ObjectId| p.pieces@.contains_key(j) && j < k && piece_error(p, j) is Some;
        lemma_least_bad_piece(p, j);
    } else {
        assert(first_bad_piece(p, k));
    }
}

/// Validation accepts exactly the projects that follow the rules of `sound`.
pub proof fn lemma_valid_iff_sound(p: Project)
    ensures
        validation_error(p) is None <==> sound(p),
{
    let root = p.assembly.root_group_id;
    assert(p.groups@.dom().finite());
    assert forall|k: ObjectId| #[trigger] p.groups@.contains_key(k) implies (group_error(p, k) is None
        <==> group_sound(p, k)) by {
        lemma_walk_iff_rooted(p.groups@, k);
    }
    assert forall|k: ObjectId| #[trigger] p.pieces@.contains_key(k) implies (piece_error(p, k) is None
        <==> piece_sound(p, k)) by {
        let q = p.pieces@[k];
        if piece_sound(p, k) {
            assert(planarity_check(q.id, q.plane, q.beads@) is Ok);
        }
    }
    if validation_error(p) is None {
        assert forall|k: ObjectId| #[trigger] p.groups@.contains_key(k) implies group_sound(p, k) by {
            if group_error(p, k) is Some {
                lemma_least_bad_group(p, k);
            }
        }
        assert forall|k: ObjectId| #[trigger] p.shapes@.contains_key(k) implies shape_sound(p, k) by {
            if shape_error(p, k) is Some {
                lemma_least_bad_shape(p, k);
            }
        }
        assert forall|k: ObjectId| #[trigger] p.pieces@.contains_key(k) implies piece_sound(p, k) by {
            if piece_error(p, k) is Some {
                lemma_least_bad_piece(p, k);
            }
        }
    }
    if sound(p) {
        assert(!exists|k: ObjectId| first_bad_group(p, k));
        assert(!exists|k: ObjectId| first_bad_shape(p, k));
        assert(!exists|k: ObjectId| first_bad_piece(p, k));
    }
}

/// Two group maps that agree, along the first `n` steps of the walk from `s`, on which
/// groups are stored and on their parents give the same walk for `n` steps.
pub open spec fn walks_agree(ga: Map<ObjectId, Group>, gb: Map<ObjectId, Group>, s: ObjectId, n: nat) -> bool {
    forall|m: nat|
        m < n ==> match #[trigger] ancestor_at(ga, s, m) {
            Some(x) => ga.contains_key(x) == gb.contains_key(x) && (ga.contains_key(x)
                ==> ga[x].parent_group_id == gb[x].parent_group_id),
            None => true,
        }
}

pub proof fn lemma_walks_agree(ga: Map<ObjectId, Group>, gb: Map<ObjectId, Group>, s: ObjectId, n: nat)
    requires
        walks_agree(ga, gb, s, n),
    ensures
        forall|m: nat| m <= n ==> #[trigger] ancestor_at(ga, s, m) == ancestor_at(gb, s, m),
    decreases n,
{
    if n > 0 {
        assert(walks_agree(ga, gb, s, (n - 1) as nat));
        lemma_walks_agree(ga, gb, s, (n - 1) as nat);
        let prev = ancestor_at(ga, s, (n - 1) as nat);
        assert(ancestor_at(ga, s, n) == ancestor_at(gb, s, n)) by {
            assert(ancestor_at(gb, s, (n - 1) as nat) == prev);
        }
        assert forall|m: nat| m <= n implies #[trigger] ancestor_at(ga, s, m) == ancestor_at(gb, s, m) by {
            if m < n {
                assert(m <= (n - 1) as nat);
            }
        }
    }
}

/// The group met, if any, is stored in `gb` with the parent it has in `ga`.
pub open spec fn kept_group(ga: Map<ObjectId, Group>, gb: Map<ObjectId, Group>, x: Option<ObjectId>) -> bool {
    gb.contains_key(x->0) && gb[x->0].parent_group_id == ga[x->0].parent_group_id
}

/// A rooted walk stays rooted in a map that agrees with the old one along it.
pub proof fn lemma_rooted_transfers(ga: Map<ObjectId, Group>, gb: Map<ObjectId, Group>, s: ObjectId, n: nat)
    requires
        rooted_in(ga, s, n),
        forall|m: nat| m <= n ==> kept_group(ga, gb, #[trigger] ancestor_at(ga, s, m)),
    ensures
        rooted_in(gb, s, n),
{
    assert(walks_agree(ga, gb, s, n + 1)) by {
        assert forall|m: nat| m < n + 1 implies match #[trigger] ancestor_at(ga, s, m) {
            Some(x) => ga.contains_key(x) == gb.contains_key(x) && (ga.contains_key(x)
                ==> ga[x].parent_group_id == gb[x].parent_group_id),
            None => true,
        } by {
            assert(m <= n);
        }
    }
    lemma_walks_agree(ga, gb, s, n + 1);
    assert forall|m: nat| m <= n implies #[trigger] ancestor_at(gb, s, m) is Some && gb.contains_key(
        ancestor_at(gb, s, m)->0,
    ) by {
        assert(ancestor_at(ga, s, m) == ancestor_at(gb, s, m));
    }
    assert(ancestor_at(ga, s, n + 1) == ancestor_at(gb, s, n + 1));
}

/// Walking `j` steps to `x` and then `m` more is walking `m` steps from `x`.
pub proof fn lemma_ancestor_concat(g: Map<ObjectId, Group>, s: ObjectId, j: nat, x: ObjectId, m: nat)
    requires
        ancestor_at(g, s, j) == Some(x),
    ensures
        ancestor_at(g, s, j + m) == ancestor_at(g, x, m),
    decreases m,
{
    if m > 0 {
        lemma_ancestor_concat(g, s, j, x, (m - 1) as nat);
        assert((j + m - 1) as nat == (j + (m - 1)) as nat);
    }
}

/// Groups whose parent is unchanged and that stay stored keep their walks when only the
/// group under `id` changes and keeps its parent.
pub proof fn lemma_rooted_after_group_edit(
    ga: Map<ObjectId, Group>,
    gb: Map<ObjectId, Group>,
    s: ObjectId,
)
    requires
        rooted(ga, s),
        gb.dom() == ga.dom(),
        forall|k: ObjectId| #[trigger] ga.contains_key(k) ==> gb[k].parent_group_id == ga[k].parent_group_id,
    ensures
        rooted(gb, s),
{
    let n = choose|n: nat| rooted_in(ga, s, n);
    assert forall|m: nat| m <= n implies kept_group(ga, gb, #[trigger] ancestor_at(ga, s, m)) by {
        assert(ga.contains_key(ancestor_at(ga, s, m)->0));
    }
    lemma_rooted_transfers(ga, gb, s, n);
}

/// The objects that differ between `a` and `b` differ at most in their sibling order, and
/// nothing else differs.
pub open spec fn only_orders_differ(a: Project, b: Project) -> bool {
    &&& crate::project::same_header(a, b)
    &&& b.next_id == a.next_id
    &&& b.groups@.dom() == a.groups@.dom()
    &&& b.shapes@.dom() == a.shapes@.dom()
    &&& b.pieces@.dom() == a.pieces@.dom()
    &&& forall|k: ObjectId| #[trigger]
        b.groups@.contains_key(k) ==> b.groups@[k] == (Group {
            sibling_order: b.groups@[k].sibling_order,
            ..a.groups@[k]
        })
    &&& forall|k: ObjectId| #[trigger]
        b.shapes@.contains_key(k) ==> b.shapes@[k] == (crate::model::Shape {
            sibling_order: b.shapes@[k].sibling_order,
            ..a.shapes@[k]
        })
    &&& forall|k: ObjectId| #[trigger]
        b.pieces@.contains_key(k) ==> b.pieces@[k] == (crate::model::Piece {
            sibling_order: b.pieces@[k].sibling_order,
            ..a.pieces@[k]
        })
}

/// Changing only sibling orders keeps a project valid.
pub proof fn lemma_orders_keep_sound(a: Project, b: Project)
    requires
        sound(a),
        only_orders_differ(a, b),
    ensures
        sound(b),
{
    assert(used_ids(b) =~= used_ids(a));
    assert forall|k: ObjectId| #[trigger] b.groups@.contains_key(k) implies group_sound(b, k) by {
        assert(group_sound(a, k));
        lemma_rooted_after_group_edit(a.groups@, b.groups@, k);
    }
    assert forall|k: ObjectId| #[trigger] b.shapes@.contains_key(k) implies shape_sound(b, k) by {
        assert(shape_sound(a, k));
    }
    assert forall|k: ObjectId| #[trigger] b.pieces@.contains_key(k) implies piece_sound(b, k) by {
        assert(piece_sound(a, k));
    }
}

/// Replacing one stored group by one with the same id and parent and a cube rotation keeps
/// a project valid.
pub proof fn lemma_group_edit_keeps_sound(a: Project, b: Project, id: ObjectId, g: Group)
    requires
        sound(a),
        a.groups@.contains_key(id),
        crate::project::group_set(a, b, id, g),
        g.id == a.groups@[id].id,
        g.parent_group_id == a.groups@[id].parent_group_id,
        g.placement.rotation.spec_is_valid(),
    ensures
        sound(b),
{
    assert(b.groups@.dom() =~= a.groups@.dom());
    assert(used_ids(b) =~= used_ids(a));
    assert forall|k: ObjectId| #[trigger] b.groups@.contains_key(k) implies group_sound(b, k) by {
        assert(group_sound(a, k));
        lemma_rooted_after_group_edit(a.groups@, b.groups@, k);
    }
    assert forall|k: ObjectId| #[trigger] b.shapes@.contains_key(k) implies shape_sound(b, k) by {
        assert(shape_sound(a, k));
    }
    assert forall|k: ObjectId| #[trigger] b.pieces@.contains_key(k) implies piece_sound(b, k) by {
        assert(piece_sound(a, k));
    }
}

/// Replacing one stored shape by one with the same id, a stored parent group and a cube
/// rotation keeps a project valid.
pub proof fn lemma_shape_edit_keeps_sound(a: Project, b: Project, id: ObjectId, s: crate::model::Shape)
    requires
        sound(a),
        a.shapes@.contains_key(id),
        crate::project::shape_set(a, b, id, s),
        s.id == a.shapes@[id].id,
        a.groups@.contains_key(s.parent_group_id),
        s.placement.rotation.spec_is_valid(),
    ensures
        sound(b),
{
    assert(b.shapes@.dom() =~= a.shapes@.dom());
    assert(used_ids(b) =~= used_ids(a));
    assert forall|k: ObjectId| #[trigger] b.groups@.contains_key(k) implies group_sound(b, k) by {
        assert(group_sound(a, k));
    }
    assert forall|k: ObjectId| #[trigger] b.shapes@.contains_key(k) implies shape_sound(b, k) by {
        assert(shape_sound(a, k));
    }
    assert forall|k: ObjectId| #[trigger] b.pieces@.contains_key(k) implies piece_sound(b, k) by {
        assert(piece_sound(a, k));
    }
}

/// Replacing one stored piece by one with the same id, a stored parent group, a cube
/// rotation and beads on its plane keeps a project valid.
pub proof fn lemma_piece_edit_keeps_sound(a: Project, b: Project, id: ObjectId, q: crate::model::Piece)
    requires
        sound(a),
        a.pieces@.contains_key(id),
        crate::project::piece_set(a, b, id, q),
        q.id == a.pieces@[id].id,
        a.groups@.contains_key(q.parent_group_id),
        q.placement.rotation.spec_is_valid(),
        beads_on_plane(q.plane, q.beads@),
    ensures
        sound(b),
{
    assert(b.pieces@.dom() =~= a.pieces@.dom());
    assert(used_ids(b) =~= used_ids(a));
    assert forall|k: ObjectId| #[trigger] b.groups@.contains_key(k) implies group_sound(b, k) by {
        assert(group_sound(a, k));
    }
    assert forall|k: ObjectId| #[trigger] b.shapes@.contains_key(k) implies shape_sound(b, k) by {
        assert(shape_sound(a, k));
    }
    assert forall|k: ObjectId| #[trigger] b.pieces@.contains_key(k) implies piece_sound(b, k) by {
        assert(piece_sound(a, k));
    }
}

/// Adding a shape under the id the counter gives, in a stored group and with a cube
/// rotation, and advancing the counter keeps a project valid.
pub proof fn lemma_new_shape_keeps_sound(a: Project, b: Project, s: crate::model::Shape)
    requires
        sound(a),
        a.next_id < u64::MAX,
        b.next_id == a.next_id + 1,
        crate::project::same_header(a, b),
        b.groups@ == a.groups@,
        b.pieces@ == a.pieces@,
        b.shapes@ == a.shapes@.insert(a.next_id, s),
        s.id == a.next_id,
        a.groups@.contains_key(s.parent_group_id),
        s.placement.rotation.spec_is_valid(),
    ensures
        sound(b),
{
    let id = a.next_id;
    assert(used_ids(b) =~= used_ids(a).insert(id));
    assert(used_ids(a).contains(a.assembly.id));
    assert(!a.groups@.contains_key(id)) by {
        if a.groups@.contains_key(id) {
            assert(used_ids(a).contains(id));
        }
    }
    assert forall|k: ObjectId| #[trigger] b.groups@.contains_key(k) implies group_sound(b, k) by {
        assert(group_sound(a, k));
    }
    assert forall|k: ObjectId| #[trigger] b.shapes@.contains_key(k) implies shape_sound(b, k) by {
        if k != id {
            assert(shape_sound(a, k));
        }
    }
    assert forall|k: ObjectId| #[trigger] b.pieces@.contains_key(k) implies piece_sound(b, k) by {
        assert(piece_sound(a, k));
        assert(used_ids(a).contains(k));
    }
}

/// Adding a piece under the id the counter gives, in a stored group, with a cube rotation
/// and beads on its plane, and advancing the counter keeps a project valid.
pub proof fn lemma_new_piece_keeps_sound(a: Project, b: Project, q: crate::model::Piece)
    requires
        sound(a),
        a.next_id < u64::MAX,
        b.next_id == a.next_id + 1,
        crate::project::same_header(a, b),
        b.groups@ == a.groups@,
        b.shapes@ == a.shapes@,
        b.pieces@ == a.pieces@.insert(a.next_id, q),
        q.id == a.next_id,
        a.groups@.contains_key(q.parent_group_id),
        q.placement.rotation.spec_is_valid(),
        beads_on_plane(q.plane, q.beads@),
    ensures
        sound(b),
{
    let id = a.next_id;
    assert(used_ids(b) =~= used_ids(a).insert(id));
    assert(used_ids(a).contains(a.assembly.id));
    assert(!a.groups@.contains_key(id)) by {
        if a.groups@.contains_key(id) {
            assert(used_ids(a).contains(id));
        }
    }
    assert(!a.shapes@.contains_key(id)) by {
        if a.shapes@.contains_key(id) {
            assert(used_ids(a).contains(id));
        }
    }
    assert forall|k: ObjectId| #[trigger] b.groups@.contains_key(k) implies group_sound(b, k) by {
        assert(group_sound(a, k));
    }
    assert forall|k: ObjectId| #[trigger] b.shapes@.contains_key(k) implies shape_sound(b, k) by {
        assert(shape_sound(a, k));
    }
    assert forall|k: ObjectId| #[trigger] b.pieces@.contains_key(k) implies piece_sound(b, k) by {
        if k != id {
            assert(piece_sound(a, k));
        }
    }
}

/// Adding a group under the id the counter gives, below a stored group and with a cube
/// rotation, and advancing the counter keeps a project valid.
pub proof fn lemma_new_group_keeps_sound(a: Project, b: Project, g: Group)
    requires
        sound(a),
        a.next_id < u64::MAX,
        b.next_id == a.next_id + 1,
        crate::project::same_header(a, b),
        b.shapes@ == a.shapes@,
        b.pieces@ == a.pieces@,
        b.groups@ == a.groups@.insert(a.next_id, g),
        g.id == a.next_id,
        g.parent_group_id is Some,
        a.groups@.contains_key(g.parent_group_id->0),
        g.placement.rotation.spec_is_valid(),
    ensures
        sound(b),
{
    let id = a.next_id;
    let parent = g.parent_group_id->0;
    assert(used_ids(b) =~= used_ids(a).insert(id));
    assert(used_ids(a).contains(a.assembly.id));
    assert(!a.groups@.contains_key(id)) by {
        if a.groups@.contains_key(id) {
            assert(used_ids(a).contains(id));
        }
    }
    assert forall|k: ObjectId| #[trigger] a.groups@.contains_key(k) implies rooted(b.groups@, k) by {
        assert(group_sound(a, k));
        let n = choose|n: nat| rooted_in(a.groups@, k, n);
        assert forall|m: nat| m <= n implies kept_group(
            a.groups@,
            b.groups@,
            #[trigger] ancestor_at(a.groups@, k, m),
        ) by {
            assert(a.groups@.contains_key(ancestor_at(a.groups@, k, m)->0));
        }
        lemma_rooted_transfers(a.groups@, b.groups@, k, n);
    }
    assert(rooted(b.groups@, id)) by {
        assert(group_sound(a, parent));
        assert(rooted(b.groups@, parent));
        let n = choose|n: nat| rooted_in(b.groups@, parent, n);
        assert(ancestor_at(b.groups@, id, 0) == Some(id));
        assert(b.groups@.contains_key(id) && b.groups@[id] == g);
        assert(ancestor_at(b.groups@, id, 1) == Some(parent));
        assert forall|m: nat| m <= n + 1 implies #[trigger] ancestor_at(b.groups@, id, m) is Some
            && b.groups@.contains_key(ancestor_at(b.groups@, id, m)->0) by {
            if m >= 1 {
                lemma_ancestor_concat(b.groups@, id, 1, parent, (m - 1) as nat);
                assert(ancestor_at(b.groups@, parent, (m - 1) as nat) is Some);
            }
        }
        lemma_ancestor_concat(b.groups@, id, 1, parent, n + 1);
        assert(rooted_in(b.groups@, id, n + 1));
    }
    assert forall|k: ObjectId| #[trigger] b.groups@.contains_key(k) implies group_sound(b, k) by {
        if k != id {
            assert(group_sound(a, k));
        }
    }
    assert forall|k: ObjectId| #[trigger] b.shapes@.contains_key(k) implies shape_sound(b, k) by {
        assert(shape_sound(a, k));
        assert(used_ids(a).contains(k));
    }
    assert forall|k: ObjectId| #[trigger] b.pieces@.contains_key(k) implies piece_sound(b, k) by {
        assert(piece_sound(a, k));
        assert(used_ids(a).contains(k));
    }
}

/// Removing a shape keeps a project valid.
pub proof fn lemma_shape_removal_keeps_sound(a: Project, b: Project, id: ObjectId)
    requires
        sound(a),
        crate::project::only_shapes_differ(a, b),
        b.shapes@ == a.shapes@.remove(id),
    ensures
        sound(b),
{
    assert forall|x: ObjectId| #[trigger] used_ids(b).contains(x) implies used_ids(a).contains(x) by {
    }
    assert forall|k: ObjectId| #[trigger] b.groups@.contains_key(k) implies group_sound(b, k) by {
        assert(group_sound(a, k));
    }
    assert forall|k: ObjectId| #[trigger] b.shapes@.contains_key(k) implies shape_sound(b, k) by {
        assert(shape_sound(a, k));
    }
    assert forall|k: ObjectId| #[trigger] b.pieces@.contains_key(k) implies piece_sound(b, k) by {
        assert(piece_sound(a, k));
    }
}

/// Removing a piece keeps a project valid.
pub proof fn lemma_piece_removal_keeps_sound(a: Project, b: Project, id: ObjectId)
    requires
        sound(a),
        crate::project::only_pieces_differ(a, b),
        b.pieces@ == a.pieces@.remove(id),
    ensures
        sound(b),
{
    assert forall|x: ObjectId| #[trigger] used_ids(b).contains(x) implies used_ids(a).contains(x) by {
    }
    assert forall|k: ObjectId| #[trigger] b.groups@.contains_key(k) implies group_sound(b, k) by {
        assert(group_sound(a, k));
    }
    assert forall|k: ObjectId| #[trigger] b.shapes@.contains_key(k) implies shape_sound(b, k) by {
        assert(shape_sound(a, k));
    }
    assert forall|k: ObjectId| #[trigger] b.pieces@.contains_key(k) implies piece_sound(b, k) by {
        assert(piece_sound(a, k));
    }
}

/// Removing a group other than the root that nothing names as its parent keeps a project
/// valid.
pub proof fn lemma_group_removal_keeps_sound(a: Project, b: Project, id: ObjectId)
    requires
        sound(a),
        id != a.assembly.root_group_id,
        !crate::project::group_has_children(a, id),
        crate::project::only_groups_differ(a, b),
        b.groups@ == a.groups@.remove(id),
    ensures
        sound(b),
{
    assert forall|x: ObjectId| #[trigger] used_ids(b).contains(x) implies used_ids(a).contains(x) by {
    }
    assert forall|k: ObjectId| #[trigger] b.groups@.contains_key(k) implies group_sound(b, k) by {
        assert(group_sound(a, k));
        let n = choose|n: nat| rooted_in(a.groups@, k, n);
        assert forall|m: nat| m <= n implies kept_group(
            a.groups@,
            b.groups@,
            #[trigger] ancestor_at(a.groups@, k, m),
        ) by {
            let x = ancestor_at(a.groups@, k, m)->0;
            assert(a.groups@.contains_key(x));
            if x == id {
                assert(m >= 1);
                let prev = ancestor_at(a.groups@, k, (m - 1) as nat);
                assert(prev is Some && a.groups@.contains_key(prev->0));
                assert(a.groups@[prev->0].parent_group_id == Some(id));
            }
        }
        lemma_rooted_transfers(a.groups@, b.groups@, k, n);
        if k != a.assembly.root_group_id {
            let parent = a.groups@[k].parent_group_id->0;
            assert(parent != id);
        }
    }
    assert forall|k: ObjectId| #[trigger] b.shapes@.contains_key(k) implies shape_sound(b, k) by {
        assert(shape_sound(a, k));
        assert(a.shapes@[k].parent_group_id != id);
    }
    assert forall|k: ObjectId| #[trigger] b.pieces@.contains_key(k) implies piece_sound(b, k) by {
        assert(piece_sound(a, k));
        assert(a.pieces@[k].parent_group_id != id);
    }
}

/// Moving a group other than the root under a stored group from which it cannot be reached
/// keeps a project valid: no cycle appears.
pub proof fn lemma_group_move_keeps_sound(a: Project, b: Project, id: ObjectId, np: ObjectId, g: Group)
    requires
        sound(a),
        a.groups@.contains_key(id),
        id != a.assembly.root_group_id,
        a.groups@.contains_key(np),
        !reaches(a.groups@, np, id),
        crate::project::group_set(a, b, id, g),
        g == (Group { parent_group_id: Some(np), sibling_order: g.sibling_order, ..a.groups@[id] }),
    ensures
        sound(b),
{
    let ga = a.groups@;
    let gb = b.groups@;
    assert(gb.dom() =~= ga.dom());
    assert(used_ids(b) =~= used_ids(a));
    assert(group_sound(a, np));
    let n2 = choose|n: nat| rooted_in(ga, np, n);
    assert forall|m: nat| m <= n2 implies kept_group(ga, gb, #[trigger] ancestor_at(ga, np, m)) by {
        let x = ancestor_at(ga, np, m)->0;
        assert(ga.contains_key(x));
        if x == id {
            assert(reaches(ga, np, id));
        }
    }
    lemma_rooted_transfers(ga, gb, np, n2);
    assert forall|k: ObjectId| #[trigger] ga.contains_key(k) implies rooted(gb, k) by {
        assert(group_sound(a, k));
        let n = choose|n: nat| rooted_in(ga, k, n);
        if exists|j: nat| j <= n && ancestor_at(ga, k, j) == Some(id) {
            let j = choose|j: nat| j <= n && ancestor_at(ga, k, j) == Some(id);
            assert(walks_agree(ga, gb, k, j)) by {
                assert forall|m: nat| m < j implies match #[trigger] ancestor_at(ga, k, m) {
                    Some(x) => ga.contains_key(x) == gb.contains_key(x) && (ga.contains_key(x)
                        ==> ga[x].parent_group_id == gb[x].parent_group_id),
                    None => true,
                } by {
                    lemma_rooted_distinct(ga, k, n, m, j);
                    assert(ga.contains_key(ancestor_at(ga, k, m)->0));
                }
            }
            lemma_walks_agree(ga, gb, k, j);
            assert(ancestor_at(gb, k, j) == Some(id));
            assert(ancestor_at(gb, k, j + 1) == Some(np));
            assert forall|m: nat| m <= j + 1 + n2 implies #[trigger] ancestor_at(gb, k, m) is Some
                && gb.contains_key(ancestor_at(gb, k, m)->0) by {
                if m <= j {
                    assert(ancestor_at(ga, k, m) == ancestor_at(gb, k, m));
                    assert(ga.contains_key(ancestor_at(ga, k, m)->0));
                } else {
                    let t = (m - (j + 1)) as nat;
                    lemma_ancestor_concat(gb, k, j + 1, np, t);
                    assert(j + 1 + t == m);
                    assert(ancestor_at(gb, np, t) is Some);
                }
            }
            lemma_ancestor_concat(gb, k, j + 1, np, n2 + 1);
            assert(rooted_in(gb, k, j + 1 + n2));
        } else {
            assert forall|m: nat| m <= n implies kept_group(ga, gb, #[trigger] ancestor_at(ga, k, m)) by {
                assert(ga.contains_key(ancestor_at(ga, k, m)->0));
            }
            lemma_rooted_transfers(ga, gb, k, n);
        }
    }
    assert forall|k: ObjectId| #[trigger] gb.contains_key(k) implies group_sound(b, k) by {
        assert(group_sound(a, k));
    }
    assert forall|k: ObjectId| #[trigger] b.shapes@.contains_key(k) implies shape_sound(b, k) by {
        assert(shape_sound(a, k));
    }
    assert forall|k: ObjectId| #[trigger] b.pieces@.contains_key(k) implies piece_sound(b, k) by {
        assert(piece_sound(a, k));
    }
}

/// A project as `Project::new` makes it, with the root group and nothing else, is valid.
pub proof fn lemma_fresh_project_valid(p: Project)
    requires
        p.assembly.id == 1,
        p.assembly.root_group_id == 2,
        p.groups@.dom() == set![2u64],
        crate::project::is_root_group(p.groups@[2], 2),
        p.shapes@.dom() == Set::<ObjectId>::empty(),
        p.pieces@.dom() == Set::<ObjectId>::empty(),
        p.next_id == 3,
    ensures
        validation_error(p) is None,
{
    crate::geometry::lemma_identity_valid();
    let g = p.groups@;
    assert(ancestor_at(g, 2, 0) == Some(2u64));
    assert(ancestor_at(g, 2, 1) is None);
    assert(rooted_in(g, 2, 0));
    assert(group_sound(p, 2));
    assert(used_ids(p) =~= set![1u64, 2u64]);
    lemma_valid_iff_sound(p);
}

} // verus!
