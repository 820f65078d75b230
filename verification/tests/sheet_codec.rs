use tiger::command::Command;
use tiger::command::CommandBuffer;
use tiger::sheet::Sheet;
use tiger::state::State;

fn wire_u64(n: u64) -> String {
    format!("{:020}", n)
}

fn wire_str(s: &str) -> String {
    format!("{}{}", wire_u64(s.chars().count() as u64), s)
}

#[test]
fn sheet_starts_empty() {
    let sheet = Sheet::new();
    assert!(!sheet.has_frame(&"img/x.png".to_string()));
    assert!(!sheet.has_animation(&"Animation 0".to_string()));
}

#[test]
fn add_frame_is_idempotent_per_path() {
    let mut sheet = Sheet::new();
    sheet.add_frame(&"img/x.png".to_string());
    let once = sheet.encode();
    sheet.add_frame(&"img/x.png".to_string());
    assert_eq!(once, sheet.encode());
    sheet.add_frame(&"img/y.png".to_string());
    assert!(sheet.has_frame(&"img/x.png".to_string()));
    assert!(sheet.has_frame(&"img/y.png".to_string()));
}

#[test]
fn add_animation_skips_taken_names() {
    let mut sheet = Sheet::new();
    let first = sheet.add_animation();
    assert_eq!(first.as_str(), "Animation 0");
    sheet
        .rename_animation(&"Animation 0".to_string(), &"Animation 1".to_string());
    // "Animation 0" is free again, so generation starts over from it.
    let second = sheet.add_animation();
    assert_eq!(second.as_str(), "Animation 0");
    let third = sheet.add_animation();
    assert_eq!(third.as_str(), "Animation 2");
}

#[test]
fn rename_animation_moves_the_name() {
    let mut sheet = Sheet::new();
    sheet.add_animation();
    sheet.rename_animation(&"Animation 0".to_string(), &"Walk".to_string());
    assert!(sheet.has_animation(&"Walk".to_string()));
    assert!(!sheet.has_animation(&"Animation 0".to_string()));
    assert_eq!(
        sheet.get_animation(&"Walk".to_string()).unwrap().get_name().as_str(),
        "Walk"
    );
}

#[test]
fn duplicate_has_the_same_wire_text() {
    let mut sheet = Sheet::new();
    sheet.add_frame(&"img/x.png".to_string());
    sheet.add_animation();
    let copy = sheet.duplicate();
    assert_eq!(sheet.encode(), copy.encode());
}

#[test]
fn saving_then_reopening_reproduces_the_sheet() {
    let mut sheet = Sheet::new();
    sheet.add_frame(&"img/walk_0.png".to_string());
    sheet.add_frame(&"img/walk_1.png".to_string());
    sheet.add_animation();
    sheet.rename_animation(&"Animation 0".to_string(), &"Walk".to_string());
    let text = sheet.encode();
    let reopened = Sheet::decode(text.as_str()).unwrap();
    assert!(reopened.has_frame(&"img/walk_0.png".to_string()));
    assert!(reopened.has_frame(&"img/walk_1.png".to_string()));
    assert!(reopened.has_animation(&"Walk".to_string()));
    assert!(!reopened.has_frame(&"img/walk_2.png".to_string()));
    assert_eq!(reopened.encode(), text);
}

#[test]
fn empty_sheet_round_trips() {
    let sheet = Sheet::new();
    let text = sheet.encode();
    assert_eq!(text, format!("{}{}", wire_u64(0), wire_u64(0)));
    let reopened = Sheet::decode(text.as_str()).unwrap();
    assert_eq!(reopened.encode(), text);
}

#[test]
fn decode_rejects_malformed_text() {
    assert!(Sheet::decode("").is_none());
    assert!(Sheet::decode("not a sheet").is_none());
    assert!(Sheet::decode(&wire_u64(1)).is_none());
}

#[test]
fn decode_rejects_trailing_content() {
    let text = format!("{}{}x", wire_u64(0), wire_u64(0));
    assert!(Sheet::decode(text.as_str()).is_none());
}

#[test]
fn decode_rejects_duplicate_frame_paths() {
    let text = format!(
        "{}{}{}{}",
        wire_u64(2),
        wire_str("img/x.png"),
        wire_str("img/x.png"),
        wire_u64(0)
    );
    assert!(Sheet::decode(text.as_str()).is_none());
}

#[test]
fn decode_rejects_duplicate_animation_names() {
    let anim = format!("{}0{}", wire_str("Walk"), wire_u64(0));
    let text = format!("{}{}{}{}", wire_u64(0), wire_u64(2), anim, anim);
    assert!(Sheet::decode(text.as_str()).is_none());
}

#[test]
fn decode_rejects_numbers_wider_than_the_machine() {
    // Twenty nines exceed what a count can hold.
    let text = format!("99999999999999999999{}", wire_u64(0));
    assert!(Sheet::decode(text.as_str()).is_none());
}

#[test]
fn decode_accepts_handwritten_wire_text() {
    let text = format!(
        "{}{}{}{}1{}{}{}",
        wire_u64(1),
        wire_str("img/x.png"),
        wire_u64(1),
        wire_str("Walk"),
        wire_u64(1),
        wire_str("img/x.png"),
        wire_u64(250)
    );
    let sheet = Sheet::decode(text.as_str()).unwrap();
    assert!(sheet.has_frame(&"img/x.png".to_string()));
    let anim = sheet.get_animation(&"Walk".to_string()).unwrap();
    assert!(anim.is_looping());
    assert_eq!(anim.get_num_frames(), 1);
    assert_eq!(anim.get_timeline()[0].get_frame().as_str(), "img/x.png");
    assert_eq!(anim.get_timeline()[0].get_duration(), 250);
}

#[test]
fn command_buffer_appends_and_flushes_in_order() {
    let mut region_a = CommandBuffer::new();
    region_a.zoom_in();
    region_a.save();
    let mut region_b = CommandBuffer::new();
    region_b.zoom_out();
    let mut merged = CommandBuffer::new();
    merged.append(region_a);
    merged.append(region_b);
    let drained = merged.flush();
    assert_eq!(drained.len(), 3);
    assert!(matches!(drained[0], Command::ZoomIn));
    assert!(matches!(drained[1], Command::SaveCurrentDocument));
    assert!(matches!(drained[2], Command::ZoomOut));
    // A second flush returns nothing: each command is consumed exactly once.
    assert_eq!(merged.flush().len(), 0);
}

#[test]
fn command_buffer_producers_carry_their_data() {
    let mut buffer = CommandBuffer::new();
    buffer.new_document("/tmp/a.sheet".to_string());
    buffer.import("img/x.png".to_string());
    buffer.update_animation_rename("Walk".to_string());
    buffer.pan(4, -2);
    let drained = buffer.flush();
    assert!(matches!(&drained[0], Command::NewDocument(p) if p == "/tmp/a.sheet"));
    assert!(matches!(&drained[1], Command::Import(p) if p == "img/x.png"));
    assert!(matches!(&drained[2], Command::UpdateAnimationRename(n) if n == "Walk"));
    assert!(matches!(&drained[3], Command::Pan(4, -2)));
}

#[test]
fn a_flushed_queue_drives_the_state_machine() {
    let mut buffer = CommandBuffer::new();
    buffer.open_document("/tmp/a.sheet".to_string(), Sheet::new());
    buffer.import("img/x.png".to_string());
    buffer.zoom_in();
    let mut state = State::new();
    for command in buffer.flush() {
        state.process_command(&command).unwrap();
    }
    let doc = state.get_current_document().unwrap();
    assert!(doc.get_sheet().has_frame(&"img/x.png".to_string()));
    assert_eq!(state.get_workbench_zoom_factor().unwrap(), (2, 1));
}
