use dirmon::buffer::TextBuffer;
use dirmon::controller::App;
use dirmon::controller::InputSignal;
use dirmon::focus::FocusedField;

fn chars(s: &str) -> Vec<char> {
    s.chars().collect()
}

fn type_text(app: &mut App, text: &str) {
    for c in text.chars() {
        app.handle_key_event(InputSignal::Printable(c));
    }
}

#[test]
fn default_form_is_seeded() {
    let app = App::default();
    assert_eq!(app.monitoring_dir.chars, chars("/"));
    assert_eq!(app.dir_buffer.chars, chars(""));
    assert_eq!(app.ext_buffer.chars, chars(""));
    assert_eq!(app.focused_field, FocusedField::Directory);
    assert!(!app.exit);
    assert_eq!(app.file_dir_map.len(), 1);
    assert_eq!(app.file_dir_map.lookup(&chars("Audio")), Some(&vec![chars("mp3"), chars("wav")]));
}

#[test]
fn focus_ring_cycles_back_to_start() {
    let mut app = App::default();
    assert_eq!(app.focused_field, FocusedField::Directory);
    app.handle_key_event(InputSignal::AdvanceFocus);
    assert_eq!(app.focused_field, FocusedField::MiniDirectory);
    app.handle_key_event(InputSignal::AdvanceFocus);
    assert_eq!(app.focused_field, FocusedField::MiniExtension);
    app.handle_key_event(InputSignal::AdvanceFocus);
    assert_eq!(app.focused_field, FocusedField::UpprMiniButton);
    app.handle_key_event(InputSignal::AdvanceFocus);
    assert_eq!(app.focused_field, FocusedField::LwrMiniButton);
    app.handle_key_event(InputSignal::AdvanceFocus);
    assert_eq!(app.focused_field, FocusedField::Directory);
}

#[test]
fn append_then_remove_restores_buffer() {
    let mut buf = TextBuffer::new();
    buf.append_char('a');
    buf.append_char('b');
    let before = buf.chars.clone();
    buf.append_char('c');
    buf.remove_last();
    assert_eq!(buf.chars, before);
}

#[test]
fn remove_last_on_empty_buffer_is_a_noop() {
    let mut buf = TextBuffer::new();
    buf.remove_last();
    assert_eq!(buf.chars, chars(""));
}

#[test]
fn typing_edits_only_the_focused_buffer() {
    let mut app = App::default();
    type_text(&mut app, "tmp");
    assert_eq!(app.monitoring_dir.chars, chars("/tmp"));
    assert_eq!(app.dir_buffer.chars, chars(""));
    assert_eq!(app.ext_buffer.chars, chars(""));
    app.handle_key_event(InputSignal::Erase);
    assert_eq!(app.monitoring_dir.chars, chars("/tm"));
}

#[test]
fn buttons_ignore_printable_characters_and_fields_ignore_confirm() {
    let mut app = App::default();
    app.handle_key_event(InputSignal::Confirm);
    assert_eq!(app.file_dir_map.len(), 1);
    app.handle_key_event(InputSignal::AdvanceFocus);
    app.handle_key_event(InputSignal::AdvanceFocus);
    app.handle_key_event(InputSignal::AdvanceFocus);
    assert_eq!(app.focused_field, FocusedField::UpprMiniButton);
    app.handle_key_event(InputSignal::Printable('x'));
    app.handle_key_event(InputSignal::Erase);
    app.handle_key_event(InputSignal::Other);
    assert_eq!(app.monitoring_dir.chars, chars("/"));
    assert_eq!(app.dir_buffer.chars, chars(""));
    assert_eq!(app.ext_buffer.chars, chars(""));
    assert_eq!(app.file_dir_map.len(), 1);
}

#[test]
fn end_to_end_add_images_entry() {
    let mut app = App::default();
    app.handle_key_event(InputSignal::AdvanceFocus);
    assert_eq!(app.focused_field, FocusedField::MiniDirectory);
    type_text(&mut app, "Images");
    app.handle_key_event(InputSignal::AdvanceFocus);
    type_text(&mut app, "png,jpg");
    app.handle_key_event(InputSignal::AdvanceFocus);
    assert_eq!(app.focused_field, FocusedField::UpprMiniButton);
    app.handle_key_event(InputSignal::Confirm);
    assert_eq!(app.file_dir_map.len(), 2);
    assert_eq!(app.file_dir_map.lookup(&chars("Audio")), Some(&vec![chars("mp3"), chars("wav")]));
    assert_eq!(app.file_dir_map.lookup(&chars("Images")), Some(&vec![chars("png"), chars("jpg")]));
}

#[test]
fn confirm_on_remove_button_drops_the_highest_key() {
    let mut app = App::default();
    app.file_dir_map.upsert(&chars("Video"), &chars("mp4"));
    for _ in 0..4 {
        app.handle_key_event(InputSignal::AdvanceFocus);
    }
    assert_eq!(app.focused_field, FocusedField::LwrMiniButton);
    app.handle_key_event(InputSignal::Confirm);
    assert_eq!(app.file_dir_map.len(), 1);
    assert_eq!(app.file_dir_map.lookup(&chars("Video")), None);
    assert!(app.file_dir_map.lookup(&chars("Audio")).is_some());
}

#[test]
fn emit_type_extns_writes_the_buffers_into_the_registry() {
    let mut app = App::default();
    app.handle_key_event(InputSignal::AdvanceFocus);
    type_text(&mut app, "Docs");
    app.handle_key_event(InputSignal::AdvanceFocus);
    type_text(&mut app, "pdf,md");
    app.emit_type_extns();
    assert_eq!(app.file_dir_map.lookup(&chars("Docs")), Some(&vec![chars("pdf"), chars("md")]));
    assert_eq!(app.dir_buffer.chars, chars("Docs"));
    assert_eq!(app.ext_buffer.chars, chars("pdf,md"));
}

#[test]
fn cancel_sets_exit_from_any_state() {
    let mut app = App::default();
    app.handle_key_event(InputSignal::Cancel);
    assert!(app.exit);

    let mut moved = App::default();
    moved.handle_key_event(InputSignal::AdvanceFocus);
    moved.handle_key_event(InputSignal::AdvanceFocus);
    moved.handle_key_event(InputSignal::Cancel);
    assert!(moved.exit);

    moved.handle_key_event(InputSignal::Printable('x'));
    moved.handle_key_event(InputSignal::AdvanceFocus);
    assert!(moved.exit);
}
