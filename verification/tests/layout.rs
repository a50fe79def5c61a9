use nostr_ratatui::picture::RasterImage;
use nostr_ratatui::app::{App, Command, TimelineTab, UiEvent};
use nostr_ratatui::cache::ImageCache;
use nostr_ratatui::chrome::{
    empty_timeline_message, footer_text, identity_label, reference_status, settings_area, tab_label,
};
use nostr_ratatui::emoji::{CustomEmoji, RenderedPart};
use nostr_ratatui::event::Event;
use nostr_ratatui::layout::{
    compact_content_line, compact_content_spans, detailed_content_layout, editor_view, items_in_view,
    post_image_max_height, timeline_item_rows, window_positions, TextSpan,
};
use ratatui_image::picker::{Picker, ProtocolType};
use ratatui_image::FontSize;

fn text_part(text: &str, mention: bool) -> RenderedPart {
    RenderedPart { text: text.to_owned(), mention, emoji: None }
}

fn texts(spans: &[TextSpan]) -> Vec<String> {
    spans.iter().map(|span| span.text.clone()).collect()
}

fn app_with_ready_emoji(url: &str) -> App {
    let mut picker = Picker::from_fontsize(FontSize::new(10, 20));
    picker.set_protocol_type(ProtocolType::Kitty);
    let mut app = App::new(true, Vec::new());
    app.set_image_cache(ImageCache::with_picker(picker, 1));
    let event = Event {
        id: "a".repeat(64),
        pubkey: "b".repeat(64),
        created_at: 1,
        kind: 1,
        tags: vec![vec!["emoji".to_owned(), "party".to_owned(), url.to_owned()]],
        content: ":party:".to_owned(),
    };
    app.on_ui_event(UiEvent::Event(event, None));
    for command in app.image_commands() {
        if let Command::FetchImage { key, url } = command {
            app.on_ui_event(UiEvent::Image { key, url, image: Some(RasterImage::new(image::DynamicImage::new_rgba8(16, 16))) });
        }
    }
    app
}

#[test]
fn quote_text_is_cut_to_the_character_budget() {
    let parts = vec![text_part("hello\nworld", false), text_part("@bob", true)];
    let spans = compact_content_spans(&parts, 9);
    assert_eq!(texts(&spans), vec!["hello ↵ w".to_owned(), "…".to_owned()]);
    let spans = compact_content_spans(&parts, 100);
    assert_eq!(texts(&spans), vec!["hello ↵ world".to_owned(), "@bob".to_owned()]);
    assert!(spans[1].mention);
    assert!(compact_content_spans(&parts, 0).iter().all(|span| span.text == "…"));
}

#[test]
fn one_row_keeps_what_fits_and_marks_the_cut() {
    let app = App::new(true, Vec::new());
    let line = compact_content_line(&app, &vec![text_part("abc日本", false)], 6);
    assert_eq!(texts(&line.spans), vec!["a", "b", "c", "日", "…"]);
    let line = compact_content_line(&app, &vec![text_part("abcdef", false)], 5);
    assert_eq!(texts(&line.spans), vec!["a", "b", "c", "d", "e"]);
    let line = compact_content_line(&app, &vec![text_part("a\nb", true)], 20);
    assert_eq!(texts(&line.spans), vec!["a", " ", "↵", " ", "b"]);
    assert!(line.spans.iter().all(|span| span.mention));
    assert!(line.images.is_empty());
}

#[test]
fn drawable_emoji_takes_two_cells_with_its_image() {
    let url = "https://example.com/party.png";
    let app = app_with_ready_emoji(url);
    let emoji = CustomEmoji { shortcode: "party".to_owned(), url: url.to_owned() };
    assert!(app.custom_emoji_ready(&emoji));
    let parts = vec![
        text_part("hi ", false),
        RenderedPart { text: ":party:".to_owned(), mention: false, emoji: Some(emoji.clone()) },
        text_part("!", false),
    ];
    let line = compact_content_line(&app, &parts, 20);
    assert_eq!(texts(&line.spans), vec!["h", "i", " ", "  ", "!"]);
    assert_eq!(line.images.len(), 1);
    assert_eq!((line.images[0].row, line.images[0].column), (0, 3));
    assert_eq!(line.images[0].emoji, emoji);

    let layout = detailed_content_layout(&app, &parts, 4);
    assert_eq!(layout.lines.len(), 2);
    assert_eq!(texts(&layout.lines[0]), vec!["h", "i", " "]);
    assert_eq!(texts(&layout.lines[1]), vec!["  ", "!"]);
    assert_eq!((layout.images[0].row, layout.images[0].column), (1, 0));

    let not_ready = App::new(true, Vec::new());
    let line = compact_content_line(&not_ready, &parts, 20);
    assert!(line.images.is_empty());
    assert_eq!(texts(&line.spans).concat(), "hi :party:!");
}

#[test]
fn detail_content_wraps_at_the_width_and_at_line_breaks() {
    let app = App::new(true, Vec::new());
    let layout = detailed_content_layout(&app, &vec![text_part("ab\ncd日", false)], 3);
    let rows: Vec<String> = layout.lines.iter().map(|line| texts(line).concat()).collect();
    assert_eq!(rows, vec!["ab".to_owned(), "cd".to_owned(), "日".to_owned()]);
    let layout = detailed_content_layout(&app, &Vec::new(), 0);
    assert_eq!(layout.lines.len(), 1);
    assert!(layout.lines[0].is_empty());
}

#[test]
fn timeline_item_rows_stack_in_order() {
    let rows = timeline_item_rows(true, true, true, 4);
    assert_eq!(
        (rows.avatar_row, rows.content_row, rows.image_row, rows.reaction_row, rows.height),
        (2, 3, 6, 10, 12)
    );
    let rows = timeline_item_rows(false, false, false, 0);
    assert_eq!(
        (rows.avatar_row, rows.content_row, rows.image_row, rows.reaction_row, rows.height),
        (0, 1, 2, 2, 4)
    );
}

#[test]
fn post_image_rows_leave_room_for_reactions() {
    assert_eq!(post_image_max_height(15, 3), 8);
    assert_eq!(post_image_max_height(8, 3), 3);
    assert_eq!(post_image_max_height(4, 3), 0);
    assert_eq!(post_image_max_height(10, 100_000), 0);
}

#[test]
fn window_positions_are_relative_to_the_rendered_window() {
    assert_eq!(window_positions(50, 40, 30, 45), (10, 5));
    assert_eq!(window_positions(10, 40, 30, 45), (0, 5));
    assert_eq!(window_positions(500, 40, 30, 45), (29, 5));
}

#[test]
fn only_items_that_fit_get_overlays() {
    let heights = vec![4, 4, 4, 12, 4];
    assert_eq!(items_in_view(&heights, 0, 1, 14), vec![(0, 1), (1, 5), (2, 9)]);
    assert_eq!(items_in_view(&heights, 1, 0, 20), vec![(1, 0), (2, 4), (3, 8)]);
    assert_eq!(items_in_view(&heights, 9, 0, 20), Vec::new());
}

#[test]
fn editor_view_keeps_the_cursor_row_visible() {
    let view = editor_view(6, 3, 10, 4);
    assert_eq!((view.scroll, view.cursor_x, view.cursor_y), (3, 3, 3));
    let view = editor_view(0, 50, 10, 4);
    assert_eq!((view.scroll, view.cursor_x, view.cursor_y), (0, 9, 0));
    let view = editor_view(2, 0, 0, 0);
    assert_eq!((view.scroll, view.cursor_x, view.cursor_y), (2, 0, 0));
}

#[test]
fn header_and_footer_texts() {
    assert_eq!(identity_label("read-only"), "read-only");
    assert_eq!(identity_label("npub1abcdefghijklmnopqrstuvwxyz"), "npub1abcdefghijklm…");
    assert_eq!(tab_label(TimelineTab::Following, 3), " 1 Following (3) ");
    assert_eq!(tab_label(TimelineTab::Global, 120), " 2 Global (120) ");
    assert_eq!(footer_text(true, 0, true, false), " SETTINGS  m/Esc close  q quit ");
    assert_eq!(footer_text(false, 2, false, true), " PAUSED · 2 new  INSERT ");
    assert_eq!(footer_text(false, 0, false, true), " PAUSED  INSERT ");
    assert!(footer_text(true, 5, false, false).starts_with(" LIVE  Tab/1/2 timeline"));
}

#[test]
fn empty_timelines_explain_themselves() {
    assert_eq!(empty_timeline_message(TimelineTab::Following, false), "Following timeline requires NOSTR_SECRET_KEY");
    assert_eq!(empty_timeline_message(TimelineTab::Following, true), "No notes from followed accounts yet");
    assert_eq!(empty_timeline_message(TimelineTab::Global, false), "No notes received yet");
}

#[test]
fn unknown_references_show_their_id_and_state() {
    assert_eq!(reference_status("note1abcdefghijklmnopqrstuvwxyz", true), "note1abcdefghijklmnopq… · loading…");
    assert_eq!(reference_status("abc", false), "abc · unavailable");
}

#[test]
fn settings_box_is_centred_and_bounded() {
    assert_eq!(settings_area(0, 0, 100, 40, 2), (14, 14, 72, 12));
    assert_eq!(settings_area(0, 0, 20, 5, 2), (2, 1, 16, 3));
    assert_eq!(settings_area(0, 0, 0, 0, 0), (0, 0, 1, 1));
}
