use hakoniwa::{Color, Editor, GridPosition, Project};

#[test]
fn undo_and_redo_restore_project_state() {
    let mut project = Project::new("hammer");
    let shape = project.create_shape("head");
    let mut editor = Editor::new(project);
    editor
        .place_bead(shape, GridPosition::new(0, 0, 0), Color::red())
        .unwrap();
    assert_eq!(editor.project().bead_count(), 1);
    assert!(editor.undo());
    assert_eq!(editor.project().bead_count(), 0);
    assert!(editor.redo());
    assert_eq!(editor.project().bead_count(), 1);
}
