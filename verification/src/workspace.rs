//! What the editing workspace decides: the parent for new objects, the names it gives them,
//! the plane of a new piece, its labels and palette, and the sample project it opens with.

use vstd::prelude::*;
use vstd::string::StrSliceExecFns;

use crate::beads::add_bead_result;
use crate::convert::{convert_result, off_plane_beads, on_plane_beads};
use crate::geometry::{default_placement, key_position, BeadKey, GridPosition, Plane};
use crate::model::{Bead, Color, ObjectId, ObjectRef, VoxelObjectRef};
use crate::keeps_valid::{
    lemma_add_bead_keeps_valid, lemma_convert_keeps_valid, lemma_create_shape_keeps_valid,
};
use crate::ordered::{sorted_ids, sorted_ids_of};
use crate::project::Project;
use crate::text::{decimal, push_decimal};
use crate::validate::validation_error;

verus! {

broadcast use vstd::std_specs::btree::group_btree_axioms, vstd::laws_cmp::group_laws_cmp;

/// The plane offered for a new piece.
#[derive(Clone, Copy, Debug, Default, PartialEq, Eq, Structural)]
pub enum NewPiecePlane {
    #[default]
    Xy,
    Xz,
    Yz,
}

impl NewPiecePlane {
    pub open spec fn spec_plane(self) -> Plane {
        match self {
            NewPiecePlane::Xy => Plane::Xy { z: 0 },
            NewPiecePlane::Xz => Plane::Xz { y: 0 },
            NewPiecePlane::Yz => Plane::Yz { x: 0 },
        }
    }

    /// The plane through the origin of this kind.
    pub fn plane(self) -> (r: Plane)
        ensures
            r == self.spec_plane(),
    {
        match self {
            NewPiecePlane::Xy => Plane::Xy { z: 0 },
            NewPiecePlane::Xz => Plane::Xz { y: 0 },
            NewPiecePlane::Yz => Plane::Yz { x: 0 },
        }
    }

    /// The name shown for this kind of plane.
    pub fn label(self) -> (r: &'static str)
        ensures
            r@ == match self {
                NewPiecePlane::Xy => "XY"@,
                NewPiecePlane::Xz => "XZ"@,
                NewPiecePlane::Yz => "YZ"@,
            },
    {
        match self {
            NewPiecePlane::Xy => "XY",
            NewPiecePlane::Xz => "XZ",
            NewPiecePlane::Yz => "YZ",
        }
    }
}

/// The id of the selected object when it is a piece.
pub fn selected_piece_id(selected: Option<ObjectRef>) -> (r: Option<ObjectId>)
    ensures
        r == match selected {
            Some(ObjectRef::Piece(id)) => Some(id),
            _ => None::<ObjectId>,
        },
{
    match selected {
        Some(ObjectRef::Piece(id)) => Some(id),
        _ => None,
    }
}

/// The group that new objects go into: the selected group if it exists, the parent of the
/// selected shape or piece if that exists, and the root group otherwise.
pub open spec fn parent_for_new(p: Project, selected: Option<ObjectRef>) -> ObjectId {
    match selected {
        Some(ObjectRef::Group(id)) => if p.groups@.contains_key(id) {
            id
        } else {
            p.assembly.root_group_id
        },
        Some(ObjectRef::Piece(id)) => if p.pieces@.contains_key(id) {
            p.pieces@[id].parent_group_id
        } else {
            p.assembly.root_group_id
        },
        Some(ObjectRef::Shape(id)) => if p.shapes@.contains_key(id) {
            p.shapes@[id].parent_group_id
        } else {
            p.assembly.root_group_id
        },
        None => p.assembly.root_group_id,
    }
}

/// The group that new objects go into, given what is selected.
pub fn selected_parent_group(project: &Project, selected: Option<ObjectRef>) -> (r: ObjectId)
    ensures
        r == parent_for_new(*project, selected),
{
    match selected {
        Some(ObjectRef::Group(id)) => {
            if project.groups.contains_key(&id) {
                id
            } else {
                project.root_group_id()
            }
        },
        Some(ObjectRef::Piece(id)) => match project.pieces.get(&id) {
            Some(piece) => piece.parent_group_id,
            None => project.root_group_id(),
        },
        Some(ObjectRef::Shape(id)) => match project.shapes.get(&id) {
            Some(shape) => shape.parent_group_id,
            None => project.root_group_id(),
        },
        None => project.root_group_id(),
    }
}

/// Whether `c` has the Unicode White_Space property, the white space that
/// `char::is_whitespace` and `str::trim` go by.
pub open spec fn is_white_space(c: char) -> bool {
    let n = c as int;
    ||| 0x9 <= n <= 0xD
    ||| n == 0x20
    ||| n == 0x85
    ||| n == 0xA0
    ||| n == 0x1680
    ||| 0x2000 <= n <= 0x200A
    ||| n == 0x2028
    ||| n == 0x2029
    ||| n == 0x202F
    ||| n == 0x205F
    ||| n == 0x3000
}

/// `t` is `s` without its leading and trailing white space.
pub open spec fn trimmed_of(s: Seq<char>, t: Seq<char>) -> bool {
    exists|i: int, j: int|
        {
            &&& 0 <= i <= j <= s.len()
            &&& t == s.subrange(i, j)
            &&& forall|k: int| 0 <= k < i ==> is_white_space(#[trigger] s[k])
            &&& forall|k: int| j <= k < s.len() ==> is_white_space(#[trigger] s[k])
            &&& t.len() > 0 ==> !is_white_space(t[0]) && !is_white_space(t[t.len() - 1])
        }
}

/// Whether `c` has the Unicode White_Space property.
fn white_space(c: char) -> (r: bool)
    ensures
        r == is_white_space(c),
{
    let n = c as u32;
    (0x9 <= n && n <= 0xD) || n == 0x20 || n == 0x85 || n == 0xA0 || n == 0x1680 || (0x2000 <= n
        && n <= 0x200A) || n == 0x2028 || n == 0x2029 || n == 0x202F || n == 0x205F || n == 0x3000
}

/// The slice of `s` without its leading and trailing white space, as `str::trim` gives it.
fn trim_white_space<'a>(s: &'a str) -> (r: &'a str)
    ensures
        trimmed_of(s@, r@),
{
    let n = s.unicode_len();
    let mut i: usize = 0;
    while i < n && white_space(s.get_char(i))
        invariant
            n == s@.len(),
            0 <= i <= n,
            forall|k: int| 0 <= k < i ==> is_white_space(#[trigger] s@[k]),
        decreases n - i,
    {
        i = i + 1;
    }
    let mut j: usize = n;
    while j > i && white_space(s.get_char(j - 1))
        invariant
            n == s@.len(),
            0 <= i <= j <= n,
            i < n ==> !is_white_space(s@[i as int]),
            forall|k: int| j <= k < n ==> is_white_space(#[trigger] s@[k]),
        decreases j - i,
    {
        j = j - 1;
    }
    let r = s.substring_char(i, j);
    proof {
        let t = r@;
        assert(t.len() > 0 ==> t[0] == s@[i as int] && t[t.len() - 1] == s@[j - 1]);
        assert(trimmed_of(s@, t));
    }
    r
}

/// The name a new object gets: the given name without surrounding white space, or, when
/// nothing is left, the prefix, a space and the number.
pub fn non_empty_name(input: &str, prefix: &str, number: usize) -> (r: String)
    ensures
        exists|t: Seq<char>|
            #![trigger trimmed_of(input@, t)]
            trimmed_of(input@, t) && r@ == if t.len() == 0 {
                prefix@ + seq![' '] + decimal(number as nat)
            } else {
                t
            },
{
    let trimmed = trim_white_space(input);
    if trimmed.is_empty() {
        let mut name = String::from_str(prefix);
        proof {
            reveal_strlit(" ");
        }
        name.append(" ");
        push_decimal(&mut name, number as u64);
        proof {
            assert(trimmed_of(input@, trimmed@));
        }
        name
    } else {
        proof {
            assert(trimmed_of(input@, trimmed@));
        }
        trimmed.to_owned()
    }
}

/// The word shown for whether an object is visible.
pub fn visibility_label(visible: bool) -> (r: &'static str)
    ensures
        r@ == if visible {
            "表示"@
        } else {
            "非表示"@
        },
{
    if visible {
        "表示"
    } else {
        "非表示"
    }
}

/// The name shown for the kind of a plane.
pub fn plane_label(plane: Plane) -> (r: &'static str)
    ensures
        r@ == match plane {
            Plane::Xy { .. } => "XY"@,
            Plane::Xz { .. } => "XZ"@,
            Plane::Yz { .. } => "YZ"@,
        },
{
    match plane {
        Plane::Xy { .. } => "XY",
        Plane::Xz { .. } => "XZ",
        Plane::Yz { .. } => "YZ",
    }
}

/// The palette of the piece editor: a name and a color for each entry.
pub fn editor_colors() -> (r: [(&'static str, Color); 7])
    ensures
        r@[0].0@ == "赤"@ && r@[0].1 == Color(220, 58, 52),
        r@[1].0@ == "茶"@ && r@[1].1 == Color(117, 78, 47),
        r@[2].0@ == "黄"@ && r@[2].1 == Color(242, 196, 56),
        r@[3].0@ == "緑"@ && r@[3].1 == Color(60, 160, 90),
        r@[4].0@ == "青"@ && r@[4].1 == Color(55, 110, 210),
        r@[5].0@ == "黒"@ && r@[5].1 == Color(35, 35, 35),
        r@[6].0@ == "白"@ && r@[6].1 == Color(245, 245, 245),
{
    [
        ("赤", Color::red()),
        ("茶", Color::brown()),
        ("黄", Color(242, 196, 56)),
        ("緑", Color(60, 160, 90)),
        ("青", Color(55, 110, 210)),
        ("黒", Color(35, 35, 35)),
        ("白", Color(245, 245, 245)),
    ]
}

/// The beads of a block of cells of one layer, all of one color.
pub open spec fn bead_block(x0: int, x1: int, y0: int, y1: int, z: int, color: Color) -> Map<
    BeadKey,
    Color,
> {
    Map::new(|k: BeadKey| x0 <= k.0 <= x1 && y0 <= k.1 <= y1 && k.2 == z, |k: BeadKey| color)
}

/// The order a new child of the root receives in a project whose only group is the root,
/// whose shapes and pieces all sit in the root under their own ids with orders up to `top`,
/// one of them at `top`.
proof fn lemma_next_root_order(p: Project, top: u64)
    requires
        p.groups@.dom() == set![2u64],
        p.groups@[2].parent_group_id is None,
        forall|k: ObjectId| #[trigger]
            p.shapes@.contains_key(k) ==> p.shapes@[k].id == k && p.shapes@[k].parent_group_id == 2
                && p.shapes@[k].sibling_order <= top,
        forall|k: ObjectId| #[trigger]
            p.pieces@.contains_key(k) ==> p.pieces@[k].id == k && p.pieces@[k].parent_group_id == 2
                && p.pieces@[k].sibling_order <= top,
        (exists|k: ObjectId| p.shapes@.contains_key(k) && #[trigger] p.shapes@[k].sibling_order == top)
            || (exists|k: ObjectId|
            p.pieces@.contains_key(k) && #[trigger] p.pieces@[k].sibling_order == top),
    ensures
        crate::project::next_sibling_order_of(p, 2) == crate::project::saturating_succ(top),
{
    assert forall|o: u64| #[trigger] crate::project::child_order_taken(p, 2, o) implies o <= top by {
        let object = choose|object: ObjectRef|
            #![trigger crate::project::lookup_order(p, object)]
            crate::project::listed_child(p, 2, object) && crate::project::lookup_order(p, object)
                == Some(o);
        match object {
            ObjectRef::Group(id) => {
                let k = choose|k: ObjectId|
                    #![trigger p.groups@[k]]
                    p.groups@.contains_key(k) && p.groups@[k].parent_group_id == Some(2u64)
                        && p.groups@[k].id == id;
                assert(k == 2);
            },
            ObjectRef::Shape(id) => {
                let k = choose|k: ObjectId|
                    #![trigger p.shapes@[k]]
                    p.shapes@.contains_key(k) && p.shapes@[k].parent_group_id == 2 && p.shapes@[k].id
                        == id;
                assert(p.shapes@.contains_key(id));
            },
            ObjectRef::Piece(id) => {
                let k = choose|k: ObjectId|
                    #![trigger p.pieces@[k]]
                    p.pieces@.contains_key(k) && p.pieces@[k].parent_group_id == 2 && p.pieces@[k].id
                        == id;
                assert(p.pieces@.contains_key(id));
            },
        }
    }
    if exists|k: ObjectId| p.shapes@.contains_key(k) && #[trigger] p.shapes@[k].sibling_order == top {
        let k = choose|k: ObjectId| p.shapes@.contains_key(k) && #[trigger] p.shapes@[k].sibling_order == top;
        assert(crate::project::listed_child(p, 2, ObjectRef::Shape(k)));
        assert(crate::project::lookup_order(p, ObjectRef::Shape(k)) == Some(top));
    } else {
        let k = choose|k: ObjectId| p.pieces@.contains_key(k) && #[trigger] p.pieces@[k].sibling_order == top;
        assert(crate::project::listed_child(p, 2, ObjectRef::Piece(k)));
        assert(crate::project::lookup_order(p, ObjectRef::Piece(k)) == Some(top));
    }
    assert(crate::project::child_order_taken(p, 2, top));
    assert(crate::project::max_child_order(p, 2, top));
    let m = choose|m: u64| crate::project::max_child_order(p, 2, m);
    assert(m <= top && top <= m);
}

/// In a project whose only group is the root and which holds no shapes or pieces, a new
/// child of the root receives order 0.
proof fn lemma_first_root_order(p: Project)
    requires
        p.groups@.dom() == set![2u64],
        p.groups@[2].parent_group_id is None,
        p.shapes@.dom() == Set::<ObjectId>::empty(),
        p.pieces@.dom() == Set::<ObjectId>::empty(),
    ensures
        crate::project::next_sibling_order_of(p, 2) == 0,
{
    assert forall|o: u64| !#[trigger] crate::project::child_order_taken(p, 2, o) by {
        if crate::project::child_order_taken(p, 2, o) {
            let object = choose|object: ObjectRef|
                #![trigger crate::project::lookup_order(p, object)]
                crate::project::listed_child(p, 2, object) && crate::project::lookup_order(p, object)
                    == Some(o);
            match object {
                ObjectRef::Group(id) => {
                    let k = choose|k: ObjectId|
                        #![trigger p.groups@[k]]
                        p.groups@.contains_key(k) && p.groups@[k].parent_group_id == Some(2u64)
                            && p.groups@[k].id == id;
                    assert(k == 2);
                },
                ObjectRef::Shape(id) => {},
                ObjectRef::Piece(id) => {},
            }
        }
    }
}

/// The head beads placed before cell `(x, y)`, row by row.
spec fn head_so_far(x: int, y: int) -> Map<BeadKey, Color> {
    Map::new(
        |k: BeadKey| k.2 == 0 && -1 <= k.1 <= 1 && -3 <= k.0 && (k.0 < x || (k.0 == x && k.1 < y)),
        |k: BeadKey| Color(220, 58, 52),
    )
}

/// The handle beads placed below `y`.
spec fn handle_so_far(y: int) -> Map<BeadKey, Color> {
    Map::new(|k: BeadKey| k.0 == 0 && k.2 == 1 && -6 <= k.1 < y, |k: BeadKey| Color(117, 78, 47))
}

/// All beads of a map lie on the plane, so converting the plane takes them all.
proof fn lemma_all_on_plane(beads: Map<BeadKey, Color>, plane: Plane)
    requires
        forall|k: BeadKey| #[trigger] beads.contains_key(k) ==> plane.spec_contains(key_position(k)),
    ensures
        on_plane_beads(beads, plane) == beads,
        off_plane_beads(beads, plane) == Map::<BeadKey, Color>::empty(),
{
    assert(beads.dom().filter(|k: BeadKey| plane.spec_contains(key_position(k))) =~= beads.dom());
    assert(on_plane_beads(beads, plane) =~= beads);
    assert(off_plane_beads(beads, plane) =~= Map::<BeadKey, Color>::empty());
}

/// The sample the workspace opens with: a hammer whose head (a red block of 7 by 3 beads)
/// and handle (a brown column of 7 beads, one layer up) are drawn as shapes and converted
/// into two pieces.
pub fn hammer_project() -> (r: Project)
    ensures
        r.name@ == "ハンマー"@,
        r.shapes@.dom() == set![3u64, 5u64],
        r.shapes@[3].name@ == "頭部"@,
        r.shapes@[3].beads@ == Map::<BeadKey, Color>::empty(),
        r.shapes@[5].name@ == "柄"@,
        r.shapes@[5].beads@ == Map::<BeadKey, Color>::empty(),
        r.pieces@.dom() == set![4u64, 6u64],
        r.pieces@[4].name@ == "頭部"@,
        r.pieces@[4].plane == (Plane::Xy { z: 0 }),
        r.pieces@[4].beads@ == bead_block(-3, 3, -1, 1, 0, Color(220, 58, 52)),
        r.pieces@[6].name@ == "柄"@,
        r.pieces@[6].plane == (Plane::Xy { z: 1 }),
        r.pieces@[6].beads@ == bead_block(0, 0, -6, 0, 1, Color(117, 78, 47)),
        r.groups@.dom() == set![2u64],
        r.pieces@[4].parent_group_id == 2,
        r.pieces@[6].parent_group_id == 2,
        r.next_id == 7,
        r.assembly.id == 1,
        r.assembly.name@ == seq!['A', 's', 's', 'e', 'm', 'b', 'l', 'y'],
        r.assembly.root_group_id == 2,
        crate::project::is_root_group(r.groups@[2], 2),
        r.output_settings == (crate::model::OutputSettings {
            page_size: crate::model::PageSize::A4,
            include_assembly_guide: true,
        }),
        r.shapes@[3].id == 3 && r.shapes@[5].id == 5,
        r.shapes@[3].parent_group_id == 2 && r.shapes@[5].parent_group_id == 2,
        r.shapes@[3].sibling_order == 0 && r.shapes@[5].sibling_order == 2,
        r.shapes@[3].placement == default_placement() && r.shapes@[5].placement
            == default_placement(),
        r.shapes@[3].visible && r.shapes@[5].visible,
        r.pieces@[4].id == 4 && r.pieces@[6].id == 6,
        r.pieces@[4].sibling_order == 1 && r.pieces@[6].sibling_order == 3,
        r.pieces@[4].placement == default_placement() && r.pieces@[6].placement
            == default_placement(),
        r.pieces@[4].visible && r.pieces@[6].visible,
        validation_error(r) is None,
{
    let mut project = Project::new("ハンマー");
    let ghost fresh = project;
    proof {
        lemma_first_root_order(fresh);
    }
    let head = project.create_shape("頭部");
    let ghost s3 = project.shapes@[3];
    proof {
        lemma_create_shape_keeps_valid(fresh, project, 2, "頭部"@, Ok(head));
        assert(project.shapes@.dom() =~= set![3u64]);
        assert(project.shapes@[3].beads@ =~= head_so_far(-3, -1));
    }
    let ghost groups = project.groups@;
    let mut x: i32 = -3;
    while x <= 3
        invariant
            -3 <= x <= 4,
            head == 3,
            project.name@ == "ハンマー"@,
            project.assembly.root_group_id == 2,
            project.groups@ == groups,
            groups.contains_key(2),
            project.shapes@.dom() == set![3u64],
            project.shapes@[3].name@ == "頭部"@,
            project.shapes@[3].parent_group_id == 2,
            project.shapes@[3].beads@ == head_so_far(x as int, -1),
            project.assembly == fresh.assembly,
            project.output_settings == fresh.output_settings,
            project.shapes@[3] == (crate::model::Shape { beads: project.shapes@[3].beads, ..s3 }),
            s3.id == 3 && s3.sibling_order == 0 && s3.placement == default_placement() && s3.visible,
            project.pieces@ == Map::<ObjectId, crate::model::Piece>::empty(),
            project.next_id == 4,
            validation_error(project) is None,
        decreases 4 - x,
    {
        let mut y: i32 = -1;
        while y <= 1
            invariant
                -3 <= x <= 3,
                -1 <= y <= 2,
                head == 3,
                project.name@ == "ハンマー"@,
                project.assembly.root_group_id == 2,
                project.groups@ == groups,
                groups.contains_key(2),
                project.shapes@.dom() == set![3u64],
                project.shapes@[3].name@ == "頭部"@,
                project.shapes@[3].parent_group_id == 2,
                project.shapes@[3].beads@ == head_so_far(x as int, y as int),
                project.assembly == fresh.assembly,
                project.output_settings == fresh.output_settings,
                project.shapes@[3] == (crate::model::Shape { beads: project.shapes@[3].beads, ..s3 }),
                s3.id == 3 && s3.sibling_order == 0 && s3.placement == default_placement() && s3.visible,
                project.pieces@ == Map::<ObjectId, crate::model::Piece>::empty(),
                project.next_id == 4,
                validation_error(project) is None,
            decreases 2 - y,
        {
            let ghost before = project;
            let bead = Bead { position: GridPosition::new(x, y, 0), color: Color::red() };
            proof {
                assert(!head_so_far(x as int, y as int).contains_key((x, y, 0i32)));
            }
            let added = project.add_shape_bead(head, bead);
            proof {
                assert(add_bead_result(before, project, VoxelObjectRef::Shape(3), bead, added));
                lemma_add_bead_keeps_valid(before, project, VoxelObjectRef::Shape(3), bead, added);
                assert(added is Ok);
                assert(project.shapes@.dom() =~= set![3u64]);
                assert(project.shapes@[3].beads@ =~= head_so_far(x as int, y + 1));
            }
            y = y + 1;
        }
        proof {
            assert(head_so_far(x as int, 2) =~= head_so_far(x + 1, -1));
        }
        x = x + 1;
    }
    proof {
        assert(head_so_far(4, -1) =~= bead_block(-3, 3, -1, 1, 0, Color(220, 58, 52)));
        lemma_all_on_plane(project.shapes@[3].beads@, Plane::Xy { z: 0 });
        assert(project.shapes@[3].beads@.contains_key((0i32, 0i32, 0i32)));
    }
    let ghost before_head = project;
    proof {
        assert(before_head.shapes@.contains_key(3) && before_head.shapes@[3].sibling_order == 0);
        lemma_next_root_order(before_head, 0);
    }
    let converted = project.convert_shape_plane_to_piece(head, Plane::Xy { z: 0 }, "頭部");
    proof {
        assert(convert_result(before_head, project, 3, Plane::Xy { z: 0 }, "頭部"@, converted));
        lemma_convert_keeps_valid(before_head, project, 3, Plane::Xy { z: 0 }, "頭部"@, converted);
        assert(converted == Ok::<ObjectId, crate::model::DomainError>(4));
        assert(project.pieces@.dom() =~= set![4u64]);
        assert(project.shapes@.dom() =~= set![3u64]);
    }
    let ghost before_shape = project;
    proof {
        assert(project.pieces@[4].sibling_order == 1);
        lemma_next_root_order(before_shape, 1);
    }
    let handle = project.create_shape("柄");
    let ghost s5 = project.shapes@[5];
    proof {
        lemma_create_shape_keeps_valid(before_shape, project, 2, "柄"@, Ok(handle));
        assert(project.shapes@.dom() =~= set![3u64, 5u64]);
        assert(project.shapes@[5].beads@ =~= handle_so_far(-6));
    }
    let ghost head_piece = project.pieces@[4];
    let mut y: i32 = -6;
    while y <= 0
        invariant
            -6 <= y <= 1,
            handle == 5,
            project.name@ == "ハンマー"@,
            project.assembly.root_group_id == 2,
            project.groups@ == groups,
            groups.contains_key(2),
            project.shapes@.dom() == set![3u64, 5u64],
            project.shapes@[3].name@ == "頭部"@,
            project.shapes@[3].beads@ == Map::<BeadKey, Color>::empty(),
            project.shapes@[5].name@ == "柄"@,
            project.shapes@[5].parent_group_id == 2,
            project.shapes@[5].beads@ == handle_so_far(y as int),
            project.assembly == fresh.assembly,
            project.output_settings == fresh.output_settings,
            project.shapes@[3] == (crate::model::Shape { beads: project.shapes@[3].beads, ..s3 }),
            s3.id == 3 && s3.sibling_order == 0 && s3.placement == default_placement() && s3.visible,
            project.shapes@[5] == (crate::model::Shape { beads: project.shapes@[5].beads, ..s5 }),
            s5.id == 5 && s5.sibling_order == 2 && s5.placement == default_placement() && s5.visible,
            head_piece.id == 4 && head_piece.sibling_order == 1,
            head_piece.placement == default_placement() && head_piece.visible,
            project.pieces@ == map![4u64 => head_piece],
            head_piece.name@ == "頭部"@,
            head_piece.parent_group_id == 2,
            head_piece.plane == (Plane::Xy { z: 0 }),
            head_piece.beads@ == bead_block(-3, 3, -1, 1, 0, Color(220, 58, 52)),
            project.next_id == 6,
            validation_error(project) is None,
        decreases 1 - y,
    {
        let ghost before = project;
        let bead = Bead { position: GridPosition::new(0, y, 1), color: Color::brown() };
        proof {
            assert(!handle_so_far(y as int).contains_key((0i32, y, 1i32)));
        }
        let added = project.add_shape_bead(handle, bead);
        proof {
            assert(add_bead_result(before, project, VoxelObjectRef::Shape(5), bead, added));
            lemma_add_bead_keeps_valid(before, project, VoxelObjectRef::Shape(5), bead, added);
            assert(added is Ok);
            assert(project.shapes@.dom() =~= set![3u64, 5u64]);
            assert(project.shapes@[5].beads@ =~= handle_so_far(y + 1));
        }
        y = y + 1;
    }
    proof {
        assert(handle_so_far(1) =~= bead_block(0, 0, -6, 0, 1, Color(117, 78, 47)));
        lemma_all_on_plane(project.shapes@[5].beads@, Plane::Xy { z: 1 });
        assert(project.shapes@[5].beads@.contains_key((0i32, 0i32, 1i32)));
    }
    let ghost before_handle = project;
    proof {
        assert(before_handle.shapes@.contains_key(5) && before_handle.shapes@[5].sibling_order == 2);
        lemma_next_root_order(before_handle, 2);
    }
    let converted = project.convert_shape_plane_to_piece(handle, Plane::Xy { z: 1 }, "柄");
    proof {
        assert(convert_result(before_handle, project, 5, Plane::Xy { z: 1 }, "柄"@, converted));
        lemma_convert_keeps_valid(before_handle, project, 5, Plane::Xy { z: 1 }, "柄"@, converted);
        assert(converted == Ok::<ObjectId, crate::model::DomainError>(6));
        assert(project.pieces@.dom() =~= set![4u64, 6u64]);
        assert(project.shapes@.dom() =~= set![3u64, 5u64]);
    }
    project
}

/// The name a new piece gets from the typed name: the trimmed name, or "Piece" and one more
/// than the number of pieces.
pub fn new_piece_name(project: &Project, input: &str) -> (r: String)
    requires
        project.pieces@.len() < usize::MAX,
    ensures
        exists|t: Seq<char>|
            #![trigger trimmed_of(input@, t)]
            trimmed_of(input@, t) && r@ == if t.len() == 0 {
                "Piece"@ + seq![' '] + decimal(project.pieces@.len() + 1)
            } else {
                t
            },
{
    let n = project.pieces.len();
    non_empty_name(input, "Piece", n + 1)
}

/// The name a new group gets from the typed name: the trimmed name, or "Group" and the
/// number of groups (the root included).
pub fn new_group_name(project: &Project, input: &str) -> (r: String)
    ensures
        exists|t: Seq<char>|
            #![trigger trimmed_of(input@, t)]
            trimmed_of(input@, t) && r@ == if t.len() == 0 {
                "Group"@ + seq![' '] + decimal(project.groups@.len())
            } else {
                t
            },
{
    let n = project.groups.len();
    non_empty_name(input, "Group", n)
}

/// The cell a drag of the piece editor acts on, and the cell it remembers: with the button up
/// it forgets the last cell and acts on none; with the button down over the editor it acts on
/// the cell under the pointer once, when that differs from the cell acted on last.
pub open spec fn drag_step_of(
    primary_down: bool,
    hovered: bool,
    pointer_cell: Option<crate::plate::GridPoint2d>,
    last: Option<crate::plate::GridPoint2d>,
) -> (Option<crate::plate::GridPoint2d>, Option<crate::plate::GridPoint2d>) {
    if !primary_down {
        (None, None)
    } else if hovered && pointer_cell is Some && pointer_cell != last {
        (pointer_cell, pointer_cell)
    } else {
        (last, None)
    }
}

/// One frame of a drag in the piece editor: the cell to remember and the cell to act on.
pub fn drag_step(
    primary_down: bool,
    hovered: bool,
    pointer_cell: Option<crate::plate::GridPoint2d>,
    last: Option<crate::plate::GridPoint2d>,
) -> (r: (Option<crate::plate::GridPoint2d>, Option<crate::plate::GridPoint2d>))
    ensures
        r == drag_step_of(primary_down, hovered, pointer_cell, last),
{
    if !primary_down {
        return (None, None);
    }
    if !hovered {
        return (last, None);
    }
    match pointer_cell {
        None => (last, None),
        Some(cell) => {
            let same = match last {
                Some(previous) => previous.u == cell.u && previous.v == cell.v,
                None => false,
            };
            if same {
                (last, None)
            } else {
                (Some(cell), Some(cell))
            }
        },
    }
}

/// The tools of the piece editor.
#[derive(Clone, Copy, Debug, PartialEq, Eq, Structural)]
pub enum PieceTool {
    Pencil,
    Eraser,
}

/// What a stroke of the piece editor does to the cell under it.
#[derive(Clone, Copy, Debug, PartialEq, Eq, Structural)]
pub enum PieceEdit {
    /// Place a bead of the color; the plate layout grows to show the cell.
    Add(Color),
    /// Give the bead there the color.
    Recolor(Color),
    /// Take the bead there away.
    Erase,
}

/// The pencil places a bead on a free cell and recolors a bead of another color; the
/// eraser takes a bead away; anything else does nothing.
pub open spec fn edit_for(tool: PieceTool, existing: Option<Color>, color: Color) -> Option<PieceEdit> {
    match (tool, existing) {
        (PieceTool::Pencil, None) => Some(PieceEdit::Add(color)),
        (PieceTool::Pencil, Some(c)) => if c != color {
            Some(PieceEdit::Recolor(color))
        } else {
            None
        },
        (PieceTool::Eraser, Some(_)) => Some(PieceEdit::Erase),
        (PieceTool::Eraser, None) => None,
    }
}

/// What a stroke with `tool` and the chosen `color` does to a cell holding `existing`.
pub fn piece_edit(tool: PieceTool, existing: Option<Color>, color: Color) -> (r: Option<PieceEdit>)
    ensures
        r == edit_for(tool, existing, color),
{
    match (tool, existing) {
        (PieceTool::Pencil, None) => Some(PieceEdit::Add(color)),
        (PieceTool::Pencil, Some(c)) => {
            if c != color {
                Some(PieceEdit::Recolor(color))
            } else {
                None
            }
        },
        (PieceTool::Eraser, Some(_)) => Some(PieceEdit::Erase),
        (PieceTool::Eraser, None) => None,
    }
}

/// The groups under `g` among the given keys, in key order.
pub open spec fn child_groups_in(p: Project, g: ObjectId, keys: Seq<ObjectId>) -> Seq<ObjectRef>
    decreases keys.len(),
{
    if keys.len() == 0 {
        Seq::empty()
    } else {
        let rest = child_groups_in(p, g, keys.drop_last());
        let child = p.groups@[keys.last()];
        if child.parent_group_id == Some(g) {
            rest.push(ObjectRef::Group(child.id))
        } else {
            rest
        }
    }
}

/// The shapes in `g` among the given keys, in key order.
pub open spec fn child_shapes_in(p: Project, g: ObjectId, keys: Seq<ObjectId>) -> Seq<ObjectRef>
    decreases keys.len(),
{
    if keys.len() == 0 {
        Seq::empty()
    } else {
        let rest = child_shapes_in(p, g, keys.drop_last());
        let child = p.shapes@[keys.last()];
        if child.parent_group_id == g {
            rest.push(ObjectRef::Shape(child.id))
        } else {
            rest
        }
    }
}

/// The pieces in `g` among the given keys, in key order.
pub open spec fn child_pieces_in(p: Project, g: ObjectId, keys: Seq<ObjectId>) -> Seq<ObjectRef>
    decreases keys.len(),
{
    if keys.len() == 0 {
        Seq::empty()
    } else {
        let rest = child_pieces_in(p, g, keys.drop_last());
        let child = p.pieces@[keys.last()];
        if child.parent_group_id == g {
            rest.push(ObjectRef::Piece(child.id))
        } else {
            rest
        }
    }
}

/// The rows under a group in the parts tree: nothing when no group is stored under `g`;
/// otherwise the objects whose parent is that group's id, its groups, then its shapes, then
/// its pieces, each kind by key.
pub open spec fn tree_children_of(p: Project, g: ObjectId) -> Seq<ObjectRef> {
    if !p.groups@.contains_key(g) {
        Seq::empty()
    } else {
        let id = p.groups@[g].id;
        child_groups_in(p, id, sorted_ids_of(p.groups@.dom())) + child_shapes_in(
            p,
            id,
            sorted_ids_of(p.shapes@.dom()),
        ) + child_pieces_in(p, id, sorted_ids_of(p.pieces@.dom()))
    }
}

/// The rows the parts tree shows under a group.
pub fn tree_children(project: &Project, group_id: ObjectId) -> (r: Vec<ObjectRef>)
    ensures
        r@ == tree_children_of(*project, group_id),
{
    let stored = match project.groups.get(&group_id) {
        Some(group) => group,
        None => return Vec::new(),
    };
    let group_id = stored.id;
    let mut rows: Vec<ObjectRef> = Vec::new();
    let keys = sorted_ids(&project.groups);
    let mut i: usize = 0;
    while i < keys.len()
        invariant
            0 <= i <= keys.len(),
            keys@.to_set() == project.groups@.dom(),
            rows@ == child_groups_in(*project, group_id, keys@.take(i as int)),
        decreases keys.len() - i,
    {
        proof {
            assert(keys@.to_set().contains(keys@[i as int]));
            assert(keys@.take(i + 1).drop_last() =~= keys@.take(i as int));
        }
        let child = project.groups.get(&keys[i]).unwrap();
        if child.parent_group_id == Some(group_id) {
            rows.push(ObjectRef::Group(child.id));
        }
        i = i + 1;
    }
    proof {
        assert(keys@.take(keys@.len() as int) =~= keys@);
    }
    let ghost groups_part = rows@;
    let keys = sorted_ids(&project.shapes);
    let mut i: usize = 0;
    proof {
        assert(rows@ =~= groups_part + child_shapes_in(*project, group_id, keys@.take(0)));
    }
    while i < keys.len()
        invariant
            0 <= i <= keys.len(),
            keys@.to_set() == project.shapes@.dom(),
            rows@ == groups_part + child_shapes_in(*project, group_id, keys@.take(i as int)),
        decreases keys.len() - i,
    {
        proof {
            assert(keys@.to_set().contains(keys@[i as int]));
            assert(keys@.take(i + 1).drop_last() =~= keys@.take(i as int));
        }
        let child = project.shapes.get(&keys[i]).unwrap();
        if child.parent_group_id == group_id {
            rows.push(ObjectRef::Shape(child.id));
        }
        proof {
            assert(rows@ =~= groups_part + child_shapes_in(*project, group_id, keys@.take(i + 1)));
        }
        i = i + 1;
    }
    proof {
        assert(keys@.take(keys@.len() as int) =~= keys@);
    }
    let ghost front = rows@;
    let keys = sorted_ids(&project.pieces);
    let mut i: usize = 0;
    proof {
        assert(rows@ =~= front + child_pieces_in(*project, group_id, keys@.take(0)));
    }
    while i < keys.len()
        invariant
            0 <= i <= keys.len(),
            keys@.to_set() == project.pieces@.dom(),
            rows@ == front + child_pieces_in(*project, group_id, keys@.take(i as int)),
        decreases keys.len() - i,
    {
        proof {
            assert(keys@.to_set().contains(keys@[i as int]));
            assert(keys@.take(i + 1).drop_last() =~= keys@.take(i as int));
        }
        let child = project.pieces.get(&keys[i]).unwrap();
        if child.parent_group_id == group_id {
            rows.push(ObjectRef::Piece(child.id));
        }
        proof {
            assert(rows@ =~= front + child_pieces_in(*project, group_id, keys@.take(i + 1)));
        }
        i = i + 1;
    }
    proof {
        assert(keys@.take(keys@.len() as int) =~= keys@);
    }
    rows
}

} // verus!
