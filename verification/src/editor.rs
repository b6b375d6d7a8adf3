//! Editing commands with undo and redo history.

use vstd::prelude::*;

use crate::beads::add_bead_result;
use crate::convert::convert_result;
use crate::geometry::{GridPosition, Plane};
use crate::model::{Bead, Color, DomainError, ObjectId, VoxelObjectRef};
use crate::project::{same_project, Project};
use crate::validate::validation_error;

verus! {

/// An edit that the editor records in its history.
#[derive(Clone, Debug, PartialEq, Eq)]
pub enum Command {
    AddBead { shape_id: ObjectId, bead: Bead },
    ConvertPlaneToPiece { shape_id: ObjectId, plane: Plane, name: String },
}

/// A project with the states it can go back to and forward to again.
#[derive(Clone, Debug)]
pub struct Editor {
    project: Project,
    undo: Vec<Project>,
    redo: Vec<Project>,
}

/// What running `command` on project `a` does: `b` is the project afterwards and `r` the
/// outcome, as the project operation behind the command states them.
pub open spec fn command_result(
    a: Project,
    b: Project,
    command: Command,
    r: Result<(), DomainError>,
) -> bool {
    match command {
        Command::AddBead { shape_id, bead } => add_bead_result(
            a,
            b,
            VoxelObjectRef::Shape(shape_id),
            bead,
            r,
        ),
        Command::ConvertPlaneToPiece { shape_id, plane, name } => convert_result(
            a,
            b,
            shape_id,
            plane,
            name@,
            match r {
                Ok(_) => Ok(a.next_id),
                Err(e) => Err(e),
            },
        ),
    }
}

impl Editor {
    /// The project being edited.
    pub closed spec fn current(&self) -> Project {
        self.project
    }

    /// The states that undo goes back to, the most recent last.
    pub closed spec fn undo_states(&self) -> Seq<Project> {
        self.undo@
    }

    /// The states that redo goes forward to, the most recent last.
    pub closed spec fn redo_states(&self) -> Seq<Project> {
        self.redo@
    }
}

/// What `execute` does: a refused command leaves the editor as it was; an accepted one
/// changes the project as the command says, records the state before it for undo and
/// forgets what could be redone.
pub open spec fn execute_result(
    a: Editor,
    b: Editor,
    command: Command,
    r: Result<(), DomainError>,
) -> bool {
    &&& command_result(a.current(), b.current(), command, r)
    &&& match r {
        Ok(_) => {
            &&& b.undo_states().len() == a.undo_states().len() + 1
            &&& b.undo_states().drop_last() == a.undo_states()
            &&& same_project(b.undo_states().last(), a.current())
            &&& b.redo_states() == Seq::<Project>::empty()
        },
        Err(_) => b == a,
    }
}

/// What `undo` does: with a state to go back to, the current project moves to the redo
/// history and that state becomes current; otherwise nothing changes.
pub open spec fn undo_result(a: Editor, b: Editor, r: bool) -> bool {
    &&& r == (a.undo_states().len() > 0)
    &&& if r {
        &&& b.current() == a.undo_states().last()
        &&& b.undo_states() == a.undo_states().drop_last()
        &&& b.redo_states() == a.redo_states().push(a.current())
    } else {
        b == a
    }
}

/// What `redo` does: with a state to go forward to, the current project moves to the undo
/// history and that state becomes current; otherwise nothing changes.
pub open spec fn redo_result(a: Editor, b: Editor, r: bool) -> bool {
    &&& r == (a.redo_states().len() > 0)
    &&& if r {
        &&& b.current() == a.redo_states().last()
        &&& b.redo_states() == a.redo_states().drop_last()
        &&& b.undo_states() == a.undo_states().push(a.current())
    } else {
        b == a
    }
}

impl Editor {
    /// An editor on `project`, with no history.
    pub fn new(project: Project) -> (r: Editor)
        ensures
            r.current() == project,
            r.undo_states() == Seq::<Project>::empty(),
            r.redo_states() == Seq::<Project>::empty(),
    {
        Editor { project, undo: Vec::new(), redo: Vec::new() }
    }

    /// The project being edited.
    pub fn project(&self) -> (r: &Project)
        ensures
            *r == self.current(),
    {
        &self.project
    }

    /// Whether there is a state to go back to.
    pub fn can_undo(&self) -> (r: bool)
        ensures
            r == (self.undo_states().len() > 0),
    {
        !self.undo.is_empty()
    }

    /// Whether there is a state to go forward to.
    pub fn can_redo(&self) -> (r: bool)
        ensures
            r == (self.redo_states().len() > 0),
    {
        !self.redo.is_empty()
    }

    /// Runs a command on the project and records it for undo.
    pub fn execute(&mut self, command: Command) -> (r: Result<(), DomainError>)
        ensures
            execute_result(*old(self), *final(self), command, r),
    {
        let before = self.project.clone();
        match command {
            Command::AddBead { shape_id, bead } => {
                let outcome = self.project.add_shape_bead(shape_id, bead);
                if let Err(e) = outcome {
                    return Err(e);
                }
            },
            Command::ConvertPlaneToPiece { shape_id, plane, name } => {
                let outcome = self.project.convert_shape_plane_to_piece(
                    shape_id,
                    plane,
                    name.as_str(),
                );
                if let Err(e) = outcome {
                    return Err(e);
                }
            },
        }
        self.undo.push(before);
        self.redo.clear();
        proof {
            assert(self.undo@.drop_last() =~= old(self).undo@);
        }
        Ok(())
    }

    /// Goes back to the previous state, if there is one.
    pub fn undo(&mut self) -> (r: bool)
        ensures
            undo_result(*old(self), *final(self), r),
    {
        if self.undo.is_empty() {
            return false;
        }
        match self.undo.pop() {
            Some(previous) => {
                let mut current = previous;
                std::mem::swap(&mut self.project, &mut current);
                self.redo.push(current);
                true
            },
            None => false,
        }
    }

    /// Goes forward to the state that was last undone, if there is one.
    pub fn redo(&mut self) -> (r: bool)
        ensures
            redo_result(*old(self), *final(self), r),
    {
        if self.redo.is_empty() {
            return false;
        }
        match self.redo.pop() {
            Some(next) => {
                let mut current = next;
                std::mem::swap(&mut self.project, &mut current);
                self.undo.push(current);
                true
            },
            None => false,
        }
    }

    /// Places a bead of the given color in a shape, as an undoable command.
    pub fn place_bead(&mut self, shape_id: ObjectId, position: GridPosition, color: Color) -> (r:
        Result<(), DomainError>)
        ensures
            execute_result(
                *old(self),
                *final(self),
                Command::AddBead { shape_id, bead: Bead { position, color } },
                r,
            ),
    {
        self.execute(Command::AddBead { shape_id, bead: Bead { position, color } })
    }
}

/// Undoing an accepted command brings back the project as it was before the command, and
/// the undo history as it was; the project the command produced can be redone.
pub proof fn lemma_undo_reverts_execute(
    a: Editor,
    b: Editor,
    c: Editor,
    command: Command,
    undone: bool,
)
    requires
        execute_result(a, b, command, Ok(())),
        undo_result(b, c, undone),
    ensures
        undone,
        same_project(c.current(), a.current()),
        c.undo_states() == a.undo_states(),
        c.redo_states() == seq![b.current()],
{
    assert(c.redo_states() =~= seq![b.current()]);
}

/// Redoing right after an undo gives back the editor as it was before the undo.
pub proof fn lemma_redo_reverts_undo(a: Editor, b: Editor, c: Editor, redone: bool)
    requires
        undo_result(a, b, true),
        redo_result(b, c, redone),
    ensures
        redone,
        c.current() == a.current(),
        c.undo_states() == a.undo_states(),
        c.redo_states() == a.redo_states(),
{
    assert(c.undo_states() =~= a.undo_states());
    assert(c.redo_states() =~= a.redo_states());
}

/// Undoing right after a redo gives back the editor as it was before the redo.
pub proof fn lemma_undo_reverts_redo(a: Editor, b: Editor, c: Editor, undone: bool)
    requires
        redo_result(a, b, true),
        undo_result(b, c, undone),
    ensures
        undone,
        c.current() == a.current(),
        c.undo_states() == a.undo_states(),
        c.redo_states() == a.redo_states(),
{
    assert(c.undo_states() =~= a.undo_states());
    assert(c.redo_states() =~= a.redo_states());
}

/// A command that is refused leaves the whole editor, history included, unchanged.
pub proof fn lemma_refused_command_changes_nothing(
    a: Editor,
    b: Editor,
    command: Command,
    e: DomainError,
)
    requires
        execute_result(a, b, command, Err(e)),
    ensures
        b == a,
{
}

/// Undo and redo never change how many states the history holds in all.
pub proof fn lemma_history_size_kept(a: Editor, b: Editor, moved: bool, forward: bool)
    requires
        if forward {
            redo_result(a, b, moved)
        } else {
            undo_result(a, b, moved)
        },
    ensures
        b.undo_states().len() + b.redo_states().len() == a.undo_states().len()
            + a.redo_states().len(),
{
}

/// The current project and every state in the history pass validation.
pub open spec fn states_valid(e: Editor) -> bool {
    &&& validation_error(e.current()) is None
    &&& forall|i: int|
        0 <= i < e.undo_states().len() ==> validation_error(#[trigger] e.undo_states()[i]) is None
    &&& forall|i: int|
        0 <= i < e.redo_states().len() ==> validation_error(#[trigger] e.redo_states()[i]) is None
}

/// Projects with the same state pass validation alike.
pub proof fn lemma_same_project_same_validity(a: Project, b: Project)
    requires
        same_project(a, b),
    ensures
        (validation_error(a) is None) == (validation_error(b) is None),
{
    crate::invariants::lemma_valid_iff_sound(a);
    crate::invariants::lemma_valid_iff_sound(b);
    assert(crate::validate::used_ids(a) =~= crate::validate::used_ids(b));
    if crate::invariants::sound(a) {
        assert(crate::invariants::sound(b));
    }
    if crate::invariants::sound(b) {
        assert(crate::invariants::sound(a));
    }
}

/// Running a command keeps every state of the editor valid while the project's id counter
/// has not reached its largest value.
pub proof fn lemma_execute_keeps_states_valid(
    a: Editor,
    b: Editor,
    command: Command,
    r: Result<(), DomainError>,
)
    requires
        states_valid(a),
        a.current().next_id < u64::MAX,
        execute_result(a, b, command, r),
    ensures
        states_valid(b),
{
    if r is Ok {
        match command {
            Command::AddBead { shape_id, bead } => {
                crate::keeps_valid::lemma_add_bead_keeps_valid(
                    a.current(),
                    b.current(),
                    VoxelObjectRef::Shape(shape_id),
                    bead,
                    r,
                );
            },
            Command::ConvertPlaneToPiece { shape_id, plane, name } => {
                crate::keeps_valid::lemma_convert_keeps_valid(
                    a.current(),
                    b.current(),
                    shape_id,
                    plane,
                    name@,
                    Ok(a.current().next_id),
                );
            },
        }
        lemma_same_project_same_validity(b.undo_states().last(), a.current());
        assert forall|i: int| 0 <= i < b.undo_states().len() implies validation_error(
            #[trigger] b.undo_states()[i],
        ) is None by {
            if i < a.undo_states().len() {
                assert(b.undo_states()[i] == b.undo_states().drop_last()[i]);
            }
        }
    }
}

/// Undo and redo keep every state of the editor valid.
pub proof fn lemma_history_keeps_states_valid(a: Editor, b: Editor, moved: bool, forward: bool)
    requires
        states_valid(a),
        if forward {
            redo_result(a, b, moved)
        } else {
            undo_result(a, b, moved)
        },
    ensures
        states_valid(b),
{
    if moved {
        if forward {
            assert forall|i: int| 0 <= i < b.undo_states().len() implies validation_error(
                #[trigger] b.undo_states()[i],
            ) is None by {
                if i < a.undo_states().len() {
                    assert(b.undo_states()[i] == a.undo_states()[i]);
                }
            }
            assert forall|i: int| 0 <= i < b.redo_states().len() implies validation_error(
                #[trigger] b.redo_states()[i],
            ) is None by {
                assert(b.redo_states()[i] == a.redo_states()[i]);
            }
            assert(validation_error(a.redo_states()[a.redo_states().len() - 1]) is None);
        } else {
            assert forall|i: int| 0 <= i < b.redo_states().len() implies validation_error(
                #[trigger] b.redo_states()[i],
            ) is None by {
                if i < a.redo_states().len() {
                    assert(b.redo_states()[i] == a.redo_states()[i]);
                }
            }
            assert forall|i: int| 0 <= i < b.undo_states().len() implies validation_error(
                #[trigger] b.undo_states()[i],
            ) is None by {
                assert(b.undo_states()[i] == a.undo_states()[i]);
            }
            assert(validation_error(a.undo_states()[a.undo_states().len() - 1]) is None);
        }
    }
}

/// A command whose project operation succeeds on the current project is accepted: the
/// editor's project becomes what that operation leaves, the project before the command is
/// the latest state to undo to, and nothing is left to redo.
pub proof fn lemma_execute_accepted(
    a: Editor,
    b: Editor,
    command: Command,
    q: Project,
    r: Result<(), DomainError>,
)
    requires
        command_result(a.current(), q, command, Ok(())),
        execute_result(a, b, command, r),
    ensures
        r is Ok,
        command_result(a.current(), b.current(), command, r),
        b.undo_states().len() > 0,
        same_project(b.undo_states().last(), a.current()),
        b.redo_states().len() == 0,
{
}

/// Undo right after an accepted command, or right after a successful redo, succeeds and
/// brings back the project from before that call, with something left to redo.
pub proof fn lemma_undo_after_step(
    a: Editor,
    b: Editor,
    c: Editor,
    command: Command,
    r: Result<(), DomainError>,
    after_redo: bool,
    undone: bool,
)
    requires
        after_redo ==> redo_result(a, b, true),
        !after_redo ==> execute_result(a, b, command, r) && r is Ok,
        undo_result(b, c, undone),
    ensures
        undone,
        same_project(c.current(), a.current()),
        c.redo_states().len() > 0,
{
    if after_redo {
        lemma_undo_reverts_redo(a, b, c, undone);
    } else {
        assert(c.redo_states() =~= seq![b.current()]);
    }
}

/// Undo with nothing to undo fails and changes nothing.
pub proof fn lemma_undo_without_history(a: Editor, b: Editor, undone: bool)
    requires
        a.undo_states().len() == 0,
        undo_result(a, b, undone),
    ensures
        !undone,
        b == a,
{
}

/// Redo right after a successful undo succeeds and brings back the project from before the
/// undo, with something left to undo.
pub proof fn lemma_redo_after_undo(a: Editor, b: Editor, c: Editor, redone: bool)
    requires
        undo_result(a, b, true),
        redo_result(b, c, redone),
    ensures
        redone,
        c.current() == a.current(),
        c.undo_states().len() > 0,
{
    lemma_redo_reverts_undo(a, b, c, redone);
}

/// Redo with nothing to redo fails and changes nothing.
pub proof fn lemma_redo_without_future(a: Editor, b: Editor, redone: bool)
    requires
        a.redo_states().len() == 0,
        redo_result(a, b, redone),
    ensures
        !redone,
        b == a,
{
}

} // verus!
