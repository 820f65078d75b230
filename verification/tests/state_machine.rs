use tiger::command::Command;
use tiger::sheet::Sheet;
use tiger::state::State;
use tiger::state::StateError;
use tiger::state::ContentSelection;
use tiger::state::ContentTab;
use tiger::state::WorkbenchItem;

fn open_doc(state: &mut State, path: &str) {
    state
        .process_command(&Command::OpenDocument(path.to_string(), Sheet::new()))
        .unwrap();
}

fn current_path(state: &State) -> String {
    state.get_current_document().unwrap().get_source().clone()
}

#[test]
fn opening_same_path_twice_never_duplicates() {
    let mut state = State::new();
    open_doc(&mut state, "/tmp/a.sheet");
    open_doc(&mut state, "/tmp/b.sheet");
    assert_eq!(state.documents_iter().len(), 2);
    assert_eq!(current_path(&state), "/tmp/b.sheet");
    // A second open of an existing path only refocuses it.
    open_doc(&mut state, "/tmp/a.sheet");
    assert_eq!(state.documents_iter().len(), 2);
    assert_eq!(current_path(&state), "/tmp/a.sheet");
}

#[test]
fn new_document_resets_an_open_path() {
    let mut state = State::new();
    open_doc(&mut state, "/tmp/a.sheet");
    state
        .process_command(&Command::Import("img/walk.png".to_string()))
        .unwrap();
    assert!(state
        .get_current_document()
        .unwrap()
        .get_sheet()
        .has_frame(&"img/walk.png".to_string()));
    state
        .process_command(&Command::NewDocument("/tmp/a.sheet".to_string()))
        .unwrap();
    assert_eq!(state.documents_iter().len(), 1);
    assert!(!state
        .get_current_document()
        .unwrap()
        .get_sheet()
        .has_frame(&"img/walk.png".to_string()));
}

#[test]
fn focus_document_ignores_unknown_paths() {
    let mut state = State::new();
    open_doc(&mut state, "/tmp/a.sheet");
    state
        .process_command(&Command::FocusDocument("/tmp/nope.sheet".to_string()))
        .unwrap();
    assert_eq!(current_path(&state), "/tmp/a.sheet");
}

#[test]
fn closing_the_only_document_leaves_nothing_current() {
    let mut state = State::new();
    open_doc(&mut state, "/tmp/a.sheet");
    state.process_command(&Command::CloseCurrentDocument).unwrap();
    assert!(state.get_current_document().is_none());
    assert_eq!(state.documents_iter().len(), 0);
}

#[test]
fn closing_a_non_last_document_keeps_the_index() {
    let mut state = State::new();
    open_doc(&mut state, "/tmp/a.sheet");
    open_doc(&mut state, "/tmp/b.sheet");
    open_doc(&mut state, "/tmp/c.sheet");
    state
        .process_command(&Command::FocusDocument("/tmp/b.sheet".to_string()))
        .unwrap();
    state.process_command(&Command::CloseCurrentDocument).unwrap();
    // The document that moved into index 1 is now current.
    assert_eq!(current_path(&state), "/tmp/c.sheet");
    assert_eq!(state.documents_iter().len(), 2);
}

#[test]
fn closing_the_last_document_falls_back_to_the_new_last() {
    let mut state = State::new();
    open_doc(&mut state, "/tmp/a.sheet");
    open_doc(&mut state, "/tmp/b.sheet");
    state.process_command(&Command::CloseCurrentDocument).unwrap();
    assert_eq!(current_path(&state), "/tmp/a.sheet");
}

#[test]
fn close_with_nothing_open_reports_no_document() {
    let mut state = State::new();
    assert_eq!(
        state.process_command(&Command::CloseCurrentDocument).unwrap_err(),
        StateError::NoDocumentOpen
    );
}

#[test]
fn close_all_documents_never_fails() {
    let mut state = State::new();
    state.process_command(&Command::CloseAllDocuments).unwrap();
    open_doc(&mut state, "/tmp/a.sheet");
    open_doc(&mut state, "/tmp/b.sheet");
    state.process_command(&Command::CloseAllDocuments).unwrap();
    assert!(state.get_current_document().is_none());
    assert_eq!(state.documents_iter().len(), 0);
}

#[test]
fn select_frame_validates_and_mutates_nothing_on_failure() {
    let mut state = State::new();
    assert_eq!(
        state
            .process_command(&Command::SelectFrame("img/x.png".to_string()))
            .unwrap_err(),
        StateError::NoDocumentOpen
    );
    open_doc(&mut state, "/tmp/a.sheet");
    assert_eq!(
        state
            .process_command(&Command::SelectFrame("img/x.png".to_string()))
            .unwrap_err(),
        StateError::FrameNotInDocument
    );
    assert!(state
        .get_current_document()
        .unwrap()
        .get_content_selection()
        .is_none());
    state
        .process_command(&Command::Import("img/x.png".to_string()))
        .unwrap();
    state
        .process_command(&Command::SelectFrame("img/x.png".to_string()))
        .unwrap();
    match state.get_current_document().unwrap().get_content_selection() {
        Some(ContentSelection::Frame(p)) => assert_eq!(p.as_str(), "img/x.png"),
        None => panic!("expected a selection"),
    }
}

#[test]
fn edit_frame_validates_and_resets_the_pan_offset() {
    let mut state = State::new();
    open_doc(&mut state, "/tmp/a.sheet");
    assert_eq!(
        state
            .process_command(&Command::EditFrame("img/x.png".to_string()))
            .unwrap_err(),
        StateError::FrameNotInDocument
    );
    assert!(state.get_current_document().unwrap().get_workbench_item().is_none());
    state
        .process_command(&Command::Import("img/x.png".to_string()))
        .unwrap();
    state.process_command(&Command::Pan(7, -3)).unwrap();
    assert_eq!(state.get_workbench_offset().unwrap(), (7, -3));
    state
        .process_command(&Command::EditFrame("img/x.png".to_string()))
        .unwrap();
    match state.get_current_document().unwrap().get_workbench_item() {
        Some(WorkbenchItem::Frame(p)) => assert_eq!(p.as_str(), "img/x.png"),
        None => panic!("expected a workbench item"),
    }
    assert_eq!(state.get_workbench_offset().unwrap(), (0, 0));
}

#[test]
fn pan_accumulates_deltas() {
    let mut state = State::new();
    open_doc(&mut state, "/tmp/a.sheet");
    state.process_command(&Command::Pan(3, 4)).unwrap();
    state.process_command(&Command::Pan(-1, 1)).unwrap();
    assert_eq!(state.get_workbench_offset().unwrap(), (2, 5));
}

#[test]
fn switch_content_tab() {
    let mut state = State::new();
    open_doc(&mut state, "/tmp/a.sheet");
    assert_eq!(
        *state.get_current_document().unwrap().get_content_tab(),
        ContentTab::Frames
    );
    state
        .process_command(&Command::SwitchToContentTab(ContentTab::Animations))
        .unwrap();
    assert_eq!(
        *state.get_current_document().unwrap().get_content_tab(),
        ContentTab::Animations
    );
}

#[test]
fn zoom_example_sequence() {
    let mut state = State::new();
    open_doc(&mut state, "/tmp/a.sheet");
    assert_eq!(state.get_workbench_zoom_factor().unwrap(), (1, 1));
    state.process_command(&Command::ZoomIn).unwrap();
    assert_eq!(state.get_workbench_zoom_factor().unwrap(), (2, 1));
    state.process_command(&Command::ZoomIn).unwrap();
    assert_eq!(state.get_workbench_zoom_factor().unwrap(), (4, 1));
    state.process_command(&Command::ZoomOut).unwrap();
    assert_eq!(state.get_workbench_zoom_factor().unwrap(), (2, 1));
    state.process_command(&Command::ZoomOut).unwrap();
    assert_eq!(state.get_workbench_zoom_factor().unwrap(), (1, 1));
    state.process_command(&Command::ZoomOut).unwrap();
    assert_eq!(state.get_workbench_zoom_factor().unwrap(), (1, 2));
}

#[test]
fn zoom_clamps_at_both_ends() {
    let mut state = State::new();
    open_doc(&mut state, "/tmp/a.sheet");
    for _ in 0..10 {
        state.process_command(&Command::ZoomIn).unwrap();
    }
    assert_eq!(state.get_workbench_zoom_factor().unwrap(), (16, 1));
    for _ in 0..20 {
        state.process_command(&Command::ZoomOut).unwrap();
    }
    assert_eq!(state.get_workbench_zoom_factor().unwrap(), (1, 8));
    // Walking back up visits exactly the documented lattice.
    let expected = [(1, 4), (1, 2), (1, 1), (2, 1), (4, 1), (8, 1), (16, 1), (16, 1)];
    for factor in expected.iter() {
        state.process_command(&Command::ZoomIn).unwrap();
        assert_eq!(state.get_workbench_zoom_factor().unwrap(), *factor);
    }
}

#[test]
fn reset_zoom_always_yields_multiplier_one() {
    let mut state = State::new();
    open_doc(&mut state, "/tmp/a.sheet");
    for _ in 0..5 {
        state.process_command(&Command::ZoomOut).unwrap();
    }
    state.process_command(&Command::ResetZoom).unwrap();
    assert_eq!(state.get_workbench_zoom_factor().unwrap(), (1, 1));
    for _ in 0..3 {
        state.process_command(&Command::ZoomIn).unwrap();
    }
    state.process_command(&Command::ResetZoom).unwrap();
    assert_eq!(state.get_workbench_zoom_factor().unwrap(), (1, 1));
}

#[test]
fn create_animation_generates_fresh_names_and_opens_a_rename() {
    let mut state = State::new();
    open_doc(&mut state, "/tmp/a.sheet");
    state.process_command(&Command::CreateAnimation).unwrap();
    let doc = state.get_current_document().unwrap();
    assert_eq!(doc.get_animation_rename_target().as_deref(), Some("Animation 0"));
    assert_eq!(doc.get_animation_rename_buffer().as_deref(), Some("Animation 0"));
    assert!(doc.get_sheet().has_animation(&"Animation 0".to_string()));
    state.process_command(&Command::CreateAnimation).unwrap();
    let doc = state.get_current_document().unwrap();
    assert_eq!(doc.get_animation_rename_target().as_deref(), Some("Animation 1"));
    assert!(doc.get_sheet().has_animation(&"Animation 1".to_string()));
}

#[test]
fn rename_to_the_original_name_commits_nothing_and_clears() {
    let mut state = State::new();
    open_doc(&mut state, "/tmp/a.sheet");
    state.process_command(&Command::CreateAnimation).unwrap();
    state
        .process_command(&Command::UpdateAnimationRename("Animation 0".to_string()))
        .unwrap();
    state.process_command(&Command::EndAnimationRename).unwrap();
    let doc = state.get_current_document().unwrap();
    assert!(doc.get_animation_rename_target().is_none());
    assert!(doc.get_animation_rename_buffer().is_none());
    assert!(doc.get_sheet().has_animation(&"Animation 0".to_string()));
}

#[test]
fn rename_commits_a_fresh_name() {
    let mut state = State::new();
    open_doc(&mut state, "/tmp/a.sheet");
    state.process_command(&Command::CreateAnimation).unwrap();
    state
        .process_command(&Command::UpdateAnimationRename("Walk".to_string()))
        .unwrap();
    state.process_command(&Command::EndAnimationRename).unwrap();
    let doc = state.get_current_document().unwrap();
    assert!(doc.get_sheet().has_animation(&"Walk".to_string()));
    assert!(!doc.get_sheet().has_animation(&"Animation 0".to_string()));
    assert!(doc.get_animation_rename_target().is_none());
    assert!(doc.get_animation_rename_buffer().is_none());
}

#[test]
fn rename_collision_fails_and_stays_retryable() {
    let mut state = State::new();
    open_doc(&mut state, "/tmp/a.sheet");
    state.process_command(&Command::CreateAnimation).unwrap();
    state.process_command(&Command::EndAnimationRename).unwrap();
    state.process_command(&Command::CreateAnimation).unwrap();
    state
        .process_command(&Command::UpdateAnimationRename("Animation 0".to_string()))
        .unwrap();
    assert_eq!(
        state.process_command(&Command::EndAnimationRename).unwrap_err(),
        StateError::AnimationAlreadyExists
    );
    let doc = state.get_current_document().unwrap();
    // The transaction is still open with the same target and buffer.
    assert_eq!(doc.get_animation_rename_target().as_deref(), Some("Animation 1"));
    assert_eq!(doc.get_animation_rename_buffer().as_deref(), Some("Animation 0"));
    assert!(doc.get_sheet().has_animation(&"Animation 0".to_string()));
    assert!(doc.get_sheet().has_animation(&"Animation 1".to_string()));
}

#[test]
fn begin_rename_requires_an_existing_animation() {
    let mut state = State::new();
    open_doc(&mut state, "/tmp/a.sheet");
    assert_eq!(
        state
            .process_command(&Command::BeginAnimationRename("Nope".to_string()))
            .unwrap_err(),
        StateError::AnimationNotInDocument
    );
}

#[test]
fn update_rename_outside_a_transaction_is_a_tolerated_no_op() {
    let mut state = State::new();
    open_doc(&mut state, "/tmp/a.sheet");
    state
        .process_command(&Command::UpdateAnimationRename("x".to_string()))
        .unwrap();
    let doc = state.get_current_document().unwrap();
    assert!(doc.get_animation_rename_target().is_none());
    assert!(doc.get_animation_rename_buffer().is_none());
}

#[test]
fn import_keeps_frame_paths_unique() {
    let mut state = State::new();
    open_doc(&mut state, "/tmp/a.sheet");
    state
        .process_command(&Command::Import("img/x.png".to_string()))
        .unwrap();
    let once = state.get_current_document().unwrap().get_sheet().encode();
    state
        .process_command(&Command::Import("img/x.png".to_string()))
        .unwrap();
    let twice = state.get_current_document().unwrap().get_sheet().encode();
    assert_eq!(once, twice);
}

#[test]
fn save_current_document_produces_one_request() {
    let mut state = State::new();
    assert_eq!(
        state.process_command(&Command::SaveCurrentDocument).unwrap_err(),
        StateError::NoDocumentOpen
    );
    open_doc(&mut state, "/tmp/a.sheet");
    state
        .process_command(&Command::Import("img/x.png".to_string()))
        .unwrap();
    let reqs = state.process_command(&Command::SaveCurrentDocument).unwrap();
    assert_eq!(reqs.len(), 1);
    assert_eq!(reqs[0].get_source().as_str(), "/tmp/a.sheet");
    assert!(reqs[0].get_sheet().has_frame(&"img/x.png".to_string()));
}

#[test]
fn save_all_documents_produces_requests_in_order() {
    let mut state = State::new();
    assert_eq!(
        state.process_command(&Command::SaveAllDocuments).unwrap_err(),
        StateError::NoDocumentOpen
    );
    open_doc(&mut state, "/tmp/a.sheet");
    open_doc(&mut state, "/tmp/b.sheet");
    let reqs = state.process_command(&Command::SaveAllDocuments).unwrap();
    assert_eq!(reqs.len(), 2);
    assert_eq!(reqs[0].get_source().as_str(), "/tmp/a.sheet");
    assert_eq!(reqs[1].get_source().as_str(), "/tmp/b.sheet");
}

#[test]
fn save_as_repoints_the_document_identity() {
    let mut state = State::new();
    open_doc(&mut state, "/tmp/a.sheet");
    let reqs = state
        .process_command(&Command::SaveCurrentDocumentAs("/tmp/renamed.sheet".to_string()))
        .unwrap();
    assert_eq!(reqs.len(), 1);
    assert_eq!(reqs[0].get_source().as_str(), "/tmp/renamed.sheet");
    assert_eq!(current_path(&state), "/tmp/renamed.sheet");
    assert_eq!(state.documents_iter().len(), 1);
    assert_eq!(state.documents_iter()[0].get_source().as_str(), "/tmp/renamed.sheet");
}

#[test]
fn save_as_onto_another_open_path_is_refused() {
    let mut state = State::new();
    open_doc(&mut state, "/tmp/a.sheet");
    open_doc(&mut state, "/tmp/b.sheet");
    assert_eq!(
        state
            .process_command(&Command::SaveCurrentDocumentAs("/tmp/a.sheet".to_string()))
            .unwrap_err(),
        StateError::DocumentAlreadyOpen
    );
    assert_eq!(current_path(&state), "/tmp/b.sheet");
}

#[test]
fn error_messages_match_the_taxonomy() {
    assert_eq!(StateError::NoDocumentOpen.message(), "No document is open");
    assert_eq!(
        StateError::AnimationAlreadyExists.message(),
        "An animation with this name already exists"
    );
    assert_eq!(
        StateError::FrameNotInDocument.message(),
        "Requested frame is not in document"
    );
}
