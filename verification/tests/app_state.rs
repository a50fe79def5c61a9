use nostr_ratatui::app::{apply_terminal_events, App, InputMode, Key, KeyCode, TerminalInput, TimelineTab, UiEvent};
use nostr_ratatui::event::Event;
use nostr_sdk::prelude::{EventBuilder, Keys, Timestamp};

fn event_of(e: &nostr_sdk::Event) -> Event {
    Event {
        id: e.id.to_hex(),
        pubkey: e.pubkey.to_hex(),
        created_at: e.created_at.as_secs(),
        kind: e.kind.as_u16(),
        tags: e.tags.iter().map(|tag| tag.as_slice().to_vec()).collect(),
        content: e.content.clone(),
    }
}

fn note(keys: &Keys, content: &str, timestamp: u64) -> Event {
    event_of(
        &EventBuilder::text_note(content)
            .custom_created_at(Timestamp::from_secs(timestamp))
            .sign_with_keys(keys)
            .unwrap(),
    )
}

fn press(app: &mut App, code: KeyCode) {
    app.on_key(Key::press(code));
}

fn add(app: &mut App, event: Event) {
    app.on_ui_event(UiEvent::Event(event, None));
}

#[test]
fn compose_cursor_moves_and_edits_at_grapheme_boundaries() {
    let mut app = App::new(false, Vec::new());

    press(&mut app, KeyCode::Char('i'));
    for character in ['a', '日', 'b'] {
        press(&mut app, KeyCode::Char(character));
    }
    press(&mut app, KeyCode::Left);
    press(&mut app, KeyCode::Left);
    press(&mut app, KeyCode::Char('X'));

    assert_eq!(app.input(), "aX日b");
    assert_eq!(app.input_cursor(), "aX".len());

    press(&mut app, KeyCode::Right);
    press(&mut app, KeyCode::Backspace);
    assert_eq!(app.input(), "aXb");
    assert_eq!(app.input_cursor(), "aX".len());

    press(&mut app, KeyCode::Delete);
    assert_eq!(app.input(), "aX");
}

#[test]
fn compose_cursor_moves_between_lines_and_to_line_edges() {
    let mut app = App::new(false, Vec::new());
    app.mode = InputMode::Compose { reply_to: None };
    app.set_input("abc\n日本語".to_owned());
    assert_eq!(app.input_cursor(), app.input().len());

    press(&mut app, KeyCode::Up);
    assert_eq!(app.input_cursor(), 3);
    press(&mut app, KeyCode::Home);
    assert_eq!(app.input_cursor(), 0);
    press(&mut app, KeyCode::Down);
    assert_eq!(app.input_cursor(), 4);
    press(&mut app, KeyCode::End);
    assert_eq!(app.input_cursor(), app.input().len());
}

#[test]
fn incoming_notes_do_not_change_the_selected_event() {
    let keys = Keys::generate();
    let mut app = App::new(true, Vec::new());
    let selected = note(&keys, "selected", 100);
    let selected_id = selected.id.clone();

    add(&mut app, selected);
    add(&mut app, note(&keys, "older", 50));
    assert_eq!(app.selected_index(), 0);
    app.sync_timeline_viewport(1);
    assert!(!app.is_live());
    add(&mut app, note(&keys, "incoming", 200));

    assert_eq!(app.selected_index(), 1);
    assert_eq!(app.unseen_count(), 1);
    assert_eq!(app.selected_event().map(|event| event.id.clone()), Some(selected_id));
}

#[test]
fn live_timeline_follows_newest_and_g_resumes_it() {
    let keys = Keys::generate();
    let mut app = App::new(true, Vec::new());
    add(&mut app, note(&keys, "first", 100));
    app.sync_timeline_viewport(1);
    add(&mut app, note(&keys, "new while paused", 200));

    assert!(!app.is_live());
    assert_eq!(app.unseen_count(), 1);
    assert_eq!(app.selected_event().map(|event| event.content.as_str()), Some("first"));

    press(&mut app, KeyCode::Char('g'));
    add(&mut app, note(&keys, "new while live", 300));

    assert!(app.is_live());
    assert_eq!(app.unseen_count(), 0);
    assert_eq!(
        app.selected_event().map(|event| event.content.as_str()),
        Some("new while live")
    );
}

#[test]
fn timeline_mode_tracks_the_rendered_viewport() {
    let mut app = App::new(true, Vec::new());

    app.sync_timeline_viewport(1);
    assert!(!app.is_live());

    app.sync_timeline_viewport(0);
    assert!(app.is_live());
    assert_eq!(app.unseen_count(), 0);
}

#[test]
fn detail_view_uses_the_same_timeline_mode_rules() {
    let event = event_of(&EventBuilder::text_note("selected").sign_with_keys(&Keys::generate()).unwrap());
    let mut app = App::new(true, Vec::new());
    add(&mut app, event);

    press(&mut app, KeyCode::Char('l'));
    app.sync_timeline_viewport(0);
    assert!(app.detail);
    assert!(app.is_live());

    app.sync_timeline_viewport(1);
    assert!(!app.is_live());
}

#[test]
fn locally_published_note_and_relay_echo_are_shown_once() {
    let signed = EventBuilder::text_note("my post").sign_with_keys(&Keys::generate()).unwrap();
    let event_id = signed.id.to_hex();
    let mut app = App::new(false, Vec::new());
    app.select_tab(TimelineTab::Global);

    app.on_ui_event(UiEvent::Event(event_of(&signed), None));
    app.on_ui_event(UiEvent::Event(event_of(&signed), None));

    assert_eq!(app.timeline().len(), 1);
    assert_eq!(app.selected_event().map(|event| event.id.clone()), Some(event_id));
    assert_eq!(app.selected_event().map(|event| event.content.as_str()), Some("my post"));
}

#[test]
fn notes_are_routed_to_global_and_following_timelines() {
    let followed = Keys::generate();
    let stranger = Keys::generate();
    let followed_note = event_of(&EventBuilder::text_note("followed").sign_with_keys(&followed).unwrap());
    let stranger_note = event_of(&EventBuilder::text_note("global only").sign_with_keys(&stranger).unwrap());
    let mut app = App::new(false, Vec::new());

    app.on_ui_event(UiEvent::FollowList(vec![followed.public_key().to_hex()]));
    app.on_ui_event(UiEvent::Event(followed_note, None));
    app.on_ui_event(UiEvent::Event(stranger_note, None));

    assert_eq!(app.timeline_count(TimelineTab::Following), 1);
    assert_eq!(app.timeline_count(TimelineTab::Global), 2);
    assert_eq!(app.timeline()[0].content, "followed");

    press(&mut app, KeyCode::Tab);
    assert_eq!(app.active_tab(), TimelineTab::Global);
    assert_eq!(app.timeline().len(), 2);
}

#[test]
fn changing_follow_list_rebuilds_the_following_timeline() {
    let first = Keys::generate();
    let second = Keys::generate();
    let mut app = App::new(false, Vec::new());
    app.on_ui_event(UiEvent::Event(
        event_of(&EventBuilder::text_note("first").sign_with_keys(&first).unwrap()),
        None,
    ));
    app.on_ui_event(UiEvent::Event(
        event_of(&EventBuilder::text_note("second").sign_with_keys(&second).unwrap()),
        None,
    ));

    app.on_ui_event(UiEvent::FollowList(vec![first.public_key().to_hex()]));
    assert_eq!(app.timeline().len(), 1);
    assert_eq!(app.timeline()[0].content, "first");

    app.on_ui_event(UiEvent::FollowList(vec![second.public_key().to_hex()]));
    assert_eq!(app.timeline().len(), 1);
    assert_eq!(app.timeline()[0].content, "second");
}

#[test]
fn m_toggles_the_settings_modal() {
    let mut app = App::new(true, vec!["wss://relay.example.com".to_owned()]);

    press(&mut app, KeyCode::Char('m'));
    assert!(app.settings_open());
    assert_eq!(app.relays(), &vec!["wss://relay.example.com".to_owned()]);

    press(&mut app, KeyCode::Esc);
    assert!(!app.settings_open());
}

#[test]
fn m_twice_closes_the_settings_modal_and_changes_nothing_else() {
    let mut app = App::new(true, Vec::new());
    press(&mut app, KeyCode::Char('m'));
    press(&mut app, KeyCode::Char('j'));
    assert!(app.settings_open());
    press(&mut app, KeyCode::Char('m'));
    assert!(!app.settings_open());
    assert_eq!(app.selected_index(), 0);
}

#[test]
fn released_keys_are_ignored() {
    let mut app = App::new(true, Vec::new());
    let mut key = Key::press(KeyCode::Char('m'));
    key.release = true;
    assert!(app.on_key(key).is_none());
    assert!(!app.settings_open());
}

#[test]
fn following_timeline_never_holds_strangers_notes() {
    let followed = Keys::generate();
    let stranger = Keys::generate();
    let mut app = App::new(false, Vec::new());
    app.on_ui_event(UiEvent::FollowList(vec![followed.public_key().to_hex()]));
    for (keys, content, timestamp) in [(&stranger, "a", 10), (&followed, "b", 20), (&stranger, "c", 30)] {
        add(&mut app, note(keys, content, timestamp));
    }
    assert_eq!(app.active_tab(), TimelineTab::Following);
    assert!(app.timeline().iter().all(|event| event.pubkey == followed.public_key().to_hex()));
    assert_eq!(app.timeline().len(), 1);
}

#[test]
fn read_only_client_refuses_to_compose() {
    let mut app = App::new(true, Vec::new());
    press(&mut app, KeyCode::Char('i'));
    assert!(matches!(app.mode, InputMode::Normal));
    assert_eq!(app.status, "read-only: set NOSTR_SECRET_KEY to publish");
}

#[test]
fn ctrl_s_publishes_the_trimmed_input() {
    let mut app = App::new(false, Vec::new());
    press(&mut app, KeyCode::Char('i'));
    for character in [' ', 'h', 'i', ' '] {
        press(&mut app, KeyCode::Char(character));
    }
    let mut send = Key::press(KeyCode::Char('s'));
    send.control = true;
    let command = app.on_key(send);
    assert!(matches!(
        command,
        Some(nostr_ratatui::app::Command::Publish { ref content, reply_to: None }) if content == "hi"
    ));
    assert!(matches!(app.mode, InputMode::Normal));
    assert_eq!(app.input(), "");
}

#[test]
fn rapid_scroll_events_are_applied_as_one_redraw_batch() {
    let keys = Keys::generate();
    let mut app = App::new(true, Vec::new());
    for timestamp in 1..=100 {
        add(&mut app, note(&keys, &format!("note {timestamp}"), timestamp));
    }
    let events = (0..40).map(|_| TerminalInput::Key(Key::press(KeyCode::Char('j')))).collect();

    let batch = apply_terminal_events(&mut app, events);

    assert_eq!(app.selected_index(), 40);
    assert!(batch.needs_redraw);
    assert!(!batch.quit);
    assert!(batch.commands.is_empty());
}

#[test]
fn a_quit_key_ends_the_batch() {
    let mut app = App::new(true, Vec::new());
    let events = vec![
        TerminalInput::Other,
        TerminalInput::Key(Key::press(KeyCode::Char('q'))),
        TerminalInput::Key(Key::press(KeyCode::Char('m'))),
    ];
    let batch = apply_terminal_events(&mut app, events);
    assert!(batch.quit);
    assert!(batch.needs_redraw);
    assert!(!app.settings_open());

    let batch = apply_terminal_events(&mut app, vec![TerminalInput::Resize]);
    assert!(batch.needs_redraw);
    assert!(!batch.quit);
    let batch = apply_terminal_events(&mut app, vec![TerminalInput::Other]);
    assert!(!batch.needs_redraw);
}

#[test]
fn read_only_client_never_sends_events() {
    let keys = Keys::generate();
    let mut app = App::new(true, Vec::new());
    add(&mut app, note(&keys, "target", 10));
    for code in [KeyCode::Char('f'), KeyCode::Char('e'), KeyCode::Char('R'), KeyCode::Char('r'), KeyCode::Char('o')] {
        assert!(app.on_key(Key::press(code)).is_none());
        assert!(matches!(app.mode, InputMode::Normal));
    }
    assert_eq!(app.status, "read-only: set NOSTR_SECRET_KEY to publish");
    app.on_key(Key::press(KeyCode::Char('f')));
    assert_eq!(app.status, "read-only: set NOSTR_SECRET_KEY to react");
    app.on_key(Key::press(KeyCode::Char('R')));
    assert_eq!(app.status, "read-only: set NOSTR_SECRET_KEY to repost");
}
