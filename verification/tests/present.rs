use nostr_ratatui::editor::{editor_layout, EditorLayout};
use nostr_ratatui::present::{compact, display_nip05_address, short_id, timeline_render_window};
use nostr_ratatui::publish::nip08_mentions;
use nostr_ratatui::mentions::expand_mentions;
use nostr_ratatui::nip05::{nip05_confirms, nip05_lookup};
use nostr_sdk::prelude::{EventBuilder, Keys, Nip19Event, ToBech32, ToNostrUri};

fn short_ids_are_safe() {
    assert_eq!(short_id("123456789"), "12345678");
    assert_eq!(short_id("短い"), "短い");
}

fn encodes_nip19_mentions_as_nip08_tags() {
    let npub = Keys::generate().public_key().to_bech32().unwrap();
    let (content, tags) = nip08_mentions(&format!("hello @{npub} and @{npub}!"));
    assert_eq!(content, "hello #[0] and #[0]!");
    assert_eq!(tags.len(), 1);
    assert_eq!(tags[0][0], "p");
}

fn leaves_invalid_mentions_unchanged() {
    let (content, tags) = nip08_mentions("hello @npub1invalid");
    assert_eq!(content, "hello @npub1invalid");
    assert!(tags.is_empty());
}

fn compact_handles_unicode() {
    assert_eq!(compact("こんにちは", 3), "こんに…");
    assert_eq!(compact("abc", 3), "abc");
}

#[test]
fn network_short_ids_are_safe() {
    short_ids_are_safe();
}

#[test]
fn tests_short_ids_are_safe() {
    short_ids_are_safe();
}

#[test]
fn network_encodes_nip19_mentions_as_nip08_tags() {
    encodes_nip19_mentions_as_nip08_tags();
}

#[test]
fn tests_encodes_nip19_mentions_as_nip08_tags() {
    encodes_nip19_mentions_as_nip08_tags();
}

#[test]
fn network_leaves_invalid_mentions_unchanged() {
    leaves_invalid_mentions_unchanged();
}

#[test]
fn tests_leaves_invalid_mentions_unchanged() {
    leaves_invalid_mentions_unchanged();
}

#[test]
fn ui_compact_handles_unicode() {
    compact_handles_unicode();
}

#[test]
fn tests_compact_handles_unicode() {
    compact_handles_unicode();
}

#[test]
fn timeline_render_window_is_bounded_around_the_selection() {
    assert_eq!(timeline_render_window(5_000, 0, 33), (0, 34));
    assert_eq!(timeline_render_window(5_000, 2_500, 33), (2_467, 2_534));
    assert_eq!(timeline_render_window(5_000, 4_999, 33), (4_966, 5_000));
}

#[test]
fn editor_cursor_uses_terminal_width_for_japanese() {
    assert_eq!(
        editor_layout("abc日本語", "abc日本語".len(), 20),
        EditorLayout { lines: vec!["abc日本語".to_owned()], cursor_column: 9, cursor_row: 0 }
    );
}

#[test]
fn editor_cursor_tracks_unicode_wrapping_and_newlines() {
    assert_eq!(
        editor_layout("日本語\nか\u{3099}", "日本語\nか\u{3099}".len(), 4),
        EditorLayout {
            lines: vec!["日本".to_owned(), "語".to_owned(), "か\u{3099}".to_owned()],
            cursor_column: 2,
            cursor_row: 2,
        }
    );
}

#[test]
fn editor_cursor_can_be_rendered_inside_unicode_input() {
    assert_eq!(
        editor_layout("日本語", "日本".len(), 4),
        EditorLayout { lines: vec!["日本".to_owned(), "語".to_owned()], cursor_column: 0, cursor_row: 1 }
    );
}

#[test]
fn a_full_last_row_moves_the_cursor_to_the_next_row() {
    assert_eq!(
        editor_layout("abcd", 4, 4),
        EditorLayout { lines: vec!["abcd".to_owned(), String::new()], cursor_column: 0, cursor_row: 1 }
    );
    assert_eq!(
        editor_layout("", 0, 0),
        EditorLayout { lines: vec![String::new()], cursor_column: 0, cursor_row: 0 }
    );
}

#[test]
fn render_window_of_a_short_timeline_covers_it() {
    assert_eq!(timeline_render_window(3, 1, 0), (0, 3));
    assert_eq!(timeline_render_window(0, 0, 10), (0, 0));
}

#[test]
fn nip05_root_addresses_show_their_domain() {
    assert_eq!(display_nip05_address("_@example.com"), "example.com");
    assert_eq!(display_nip05_address("bob@example.com"), "bob@example.com");
}

#[test]
fn compact_keeps_short_values_and_cuts_long_ones() {
    assert_eq!(compact("abcd", 3), "abc…");
    assert_eq!(compact("", 0), "");
    assert_eq!(compact("a", 0), "…");
}

#[test]
fn published_mentions_read_back_as_written() {
    let npub = Keys::generate().public_key().to_bech32().unwrap();
    let note = EventBuilder::text_note("x").sign_with_keys(&Keys::generate()).unwrap();
    let note_uri = Nip19Event::from(&note).to_nostr_uri().unwrap();
    let note1 = note.id.to_bech32().unwrap();
    let written = format!("hi @{npub}, nostr:{npub} and nostr:{note1} ({note_uri})");
    let (content, tags) = nip08_mentions(&written);
    assert_eq!(content, format!("hi #[0], #[0] and #[1] ({note_uri})"));
    assert_eq!(tags.len(), 2);
    assert_eq!(
        expand_mentions(&content, &tags),
        format!("hi @{npub}, @{npub} and nostr:{note1} ({note_uri})")
    );
}

#[test]
fn nip05_addresses_are_checked_before_lookup() {
    assert_eq!(
        nip05_lookup("bob@example.com"),
        Some(("bob".to_owned(), "https://example.com/.well-known/nostr.json?name=bob".to_owned()))
    );
    assert_eq!(
        nip05_lookup("_@sub.example.com"),
        Some(("_".to_owned(), "https://sub.example.com/.well-known/nostr.json?name=_".to_owned()))
    );
    assert_eq!(nip05_lookup("example.com"), None);
    assert_eq!(nip05_lookup("@example.com"), None);
    assert_eq!(nip05_lookup("bob@"), None);
    assert_eq!(nip05_lookup("bob@a@b.com"), None);
    assert_eq!(nip05_lookup("bob@.example.com"), None);
    assert_eq!(nip05_lookup("bob@example.com."), None);
    assert_eq!(nip05_lookup("bo b@example.com"), None);
    assert_eq!(nip05_lookup("bob@exa_mple.com"), None);
}

#[test]
fn nip05_answer_confirms_the_key_ignoring_case() {
    assert!(nip05_confirms(Some("ABCdef"), "abcDEF"));
    assert!(!nip05_confirms(Some("abc"), "abd"));
    assert!(!nip05_confirms(None, "abc"));
}
