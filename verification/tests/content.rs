use nostr_ratatui::picture::RasterImage;
use nostr_ratatui::app::{App, Command, KeyCode, Key, Profile, TimelineTab, UiEvent};
use nostr_ratatui::cache::ImageCache;
use nostr_ratatui::emoji::{custom_emoji_references, CustomEmoji};
use nostr_ratatui::event::Event;
use nostr_ratatui::mentions::expand_mentions;
use nostr_ratatui::reactions::Reactions;
use nostr_ratatui::threads::reply_target_id;
use nostr_sdk::prelude::{
    EventBuilder, Keys, Kind, Nip19Event, Nip19Profile, RelayUrl, Tag, ToBech32, ToNostrUri,
};
use ratatui_image::picker::{Picker, ProtocolType};
use ratatui_image::FontSize;

fn lib_event(e: &nostr_sdk::Event) -> Event {
    Event {
        id: e.id.to_hex(),
        pubkey: e.pubkey.to_hex(),
        created_at: e.created_at.as_secs(),
        kind: e.kind.as_u16(),
        tags: e.tags.iter().map(|tag| tag.as_slice().to_vec()).collect(),
        content: e.content.clone(),
    }
}

fn kitty_cache() -> ImageCache {
    let mut picker = Picker::from_fontsize(FontSize::new(10, 20));
    picker.set_protocol_type(ProtocolType::Kitty);
    ImageCache::with_picker(picker, 1)
}

fn tags(items: &[&[&str]]) -> Vec<Vec<String>> {
    items.iter().map(|tag| tag.iter().map(|s| s.to_string()).collect()).collect()
}

fn text_of(parts: &[nostr_ratatui::emoji::RenderedPart]) -> String {
    parts.iter().map(|part| part.text.as_str()).collect()
}

#[test]
fn expands_nip08_indexed_mentions() {
    let tags = tags(&[&["p", "abc123"], &["e", "def456"]]);
    assert_eq!(expand_mentions("hello #[0], see #[1]", &tags), "hello @abc123, see @def456");
}

#[test]
fn leaves_invalid_mentions_untouched() {
    let tags = Vec::new();
    assert_eq!(expand_mentions("hello #[9]", &tags), "hello #[9]");
    assert_eq!(expand_mentions("hello #[", &tags), "hello #[");
}

#[test]
fn renders_nip21_profile_as_named_mention() {
    let mentioned = Keys::generate().public_key();
    let uri = Nip19Profile::new(mentioned, Vec::<RelayUrl>::new()).to_nostr_uri().unwrap();
    let event = lib_event(
        &EventBuilder::text_note(format!("hello {uri}!")).sign_with_keys(&Keys::generate()).unwrap(),
    );
    let mut app = App::new(true, Vec::new());
    app.profiles.insert(
        mentioned.to_hex(),
        Profile { display_name: Some("Alice".to_owned()), ..Profile::default() },
    );

    let rendered = app.rendered_content(&event);

    assert_eq!(text_of(&rendered.parts), "hello @Alice!");
    assert!(rendered.parts.iter().any(|part| part.mention && part.text == "@Alice"));
    assert!(rendered.quote.is_none());
}

#[test]
fn recognizes_tagged_nip30_custom_emoji() {
    let event = lib_event(
        &EventBuilder::text_note("hello :blob-cat: :missing:")
            .tags([Tag::parse(["emoji", "blob-cat", "https://example.com/blob-cat.png"]).unwrap()])
            .sign_with_keys(&Keys::generate())
            .unwrap(),
    );
    let app = App::new(true, Vec::new());

    let rendered = app.rendered_content(&event);
    let emoji = rendered.parts.iter().find_map(|part| part.emoji.as_ref()).unwrap();

    assert_eq!(emoji.shortcode, "blob-cat");
    assert_eq!(emoji.url, "https://example.com/blob-cat.png");
    assert_eq!(text_of(&rendered.parts), "hello :blob-cat: :missing:");
}

#[test]
fn custom_emoji_download_completion_becomes_renderable() {
    let url = "https://emoji.invalid/party.png";
    let event = lib_event(
        &EventBuilder::text_note(":party:")
            .tags([Tag::parse(["emoji", "party", url]).unwrap()])
            .sign_with_keys(&Keys::generate())
            .unwrap(),
    );
    let mut app = App::new(true, Vec::new());
    app.set_image_cache(kitty_cache());
    app.on_ui_event(UiEvent::Event(event.clone(), None));

    let command = app
        .image_commands()
        .into_iter()
        .find(|command| matches!(command, Command::FetchImage { .. }))
        .unwrap();
    let Command::FetchImage { key, url } = command else {
        unreachable!();
    };
    assert_eq!(url, "https://emoji.invalid/party.png");
    app.on_ui_event(UiEvent::Image { key, url, image: Some(RasterImage::new(image::DynamicImage::new_rgba8(16, 16))) });

    let rendered = app.rendered_content(&event);
    let emoji = rendered.parts.iter().find_map(|part| part.emoji.as_ref()).unwrap();
    assert!(app.custom_emoji_ready(emoji));
}

#[test]
fn extracts_supported_image_links_from_note_content() {
    let event = lib_event(
        &EventBuilder::text_note(
            "photo (https://cdn.example.com/Cat.JPEG?size=large). page https://example.com/about",
        )
        .sign_with_keys(&Keys::generate())
        .unwrap(),
    );
    let app = App::new(true, Vec::new());

    assert_eq!(
        app.rendered_content(&event).image_urls,
        vec!["https://cdn.example.com/Cat.JPEG?size=large"]
    );
}

#[test]
fn extracts_extensionless_nip92_image_links() {
    let image_url = "https://cdn.example.com/blob/abc123";
    let event = lib_event(
        &EventBuilder::text_note(format!("photo {image_url}"))
            .tags([
                Tag::parse(["imeta", &format!("url {image_url}"), "m image/png"]).unwrap(),
                Tag::parse(["imeta", "url http://example.com/unsafe", "m image/png"]).unwrap(),
            ])
            .sign_with_keys(&Keys::generate())
            .unwrap(),
    );
    let app = App::new(true, Vec::new());

    assert_eq!(app.rendered_content(&event).image_urls, vec![image_url]);
}

#[test]
fn post_image_download_completion_becomes_renderable() {
    let image_url = "https://cdn.example.com/photo.webp";
    let event = lib_event(
        &EventBuilder::text_note(format!("look {image_url}")).sign_with_keys(&Keys::generate()).unwrap(),
    );
    let mut app = App::new(true, Vec::new());
    app.set_image_cache(kitty_cache());
    app.on_ui_event(UiEvent::Event(event, None));

    let command = app
        .image_commands()
        .into_iter()
        .find(|command| matches!(command, Command::FetchImage { url, .. } if url == image_url))
        .unwrap();
    let Command::FetchImage { key, url } = command else {
        unreachable!();
    };
    app.on_ui_event(UiEvent::Image { key, url, image: Some(RasterImage::new(image::DynamicImage::new_rgba8(32, 32))) });

    assert_eq!(app.post_image_preview_size(image_url, 24, 8), Some((16, 8)));
}

#[test]
fn custom_emoji_parser_skips_url_colons_and_finds_later_shortcode() {
    let table = vec![CustomEmoji {
        shortcode: "party".to_owned(),
        url: "https://example.com/party.png".to_owned(),
    }];

    assert_eq!(
        custom_emoji_references("https://example.com :party:", &table),
        vec![(20, 27, "party".to_owned())]
    );
}

#[test]
fn custom_emoji_positions_are_byte_offsets() {
    let table = vec![CustomEmoji {
        shortcode: "party".to_owned(),
        url: "https://example.com/party.png".to_owned(),
    }];
    let content = "日 :party:";
    let refs = custom_emoji_references(content, &table);

    assert_eq!(refs, vec![(4, 11, "party".to_owned())]);
    assert_eq!(&content[refs[0].0..refs[0].1], ":party:");
}

#[test]
fn parses_nevent_and_renders_fetched_quote() {
    let quoted_signed = EventBuilder::text_note("quoted body").sign_with_keys(&Keys::generate()).unwrap();
    let uri = Nip19Event::from(&quoted_signed).to_nostr_uri().unwrap();
    let quoted = lib_event(&quoted_signed);
    let outer = lib_event(
        &EventBuilder::text_note(format!("my comment\n{uri}")).sign_with_keys(&Keys::generate()).unwrap(),
    );
    let mut app = App::new(true, Vec::new());

    let pending = app.rendered_content(&outer);
    assert_eq!(text_of(&pending.parts), "my comment");
    assert_eq!(pending.quote.as_ref().map(|quote| quote.event_id.clone()), Some(quoted.id.clone()));
    assert!(pending.quote.and_then(|quote| quote.event).is_none());

    app.on_ui_event(UiEvent::ReferencedEvent { event_id: quoted.id.clone(), event: Some(quoted.clone()) });
    let rendered = app.rendered_content(&outer);

    assert_eq!(
        rendered.quote.and_then(|quote| quote.event).map(|event| event.content),
        Some("quoted body".to_owned())
    );
}

#[test]
fn schedules_each_quoted_event_fetch_once() {
    let quoted = EventBuilder::text_note("quoted body").sign_with_keys(&Keys::generate()).unwrap();
    let uri = Nip19Event::from(&quoted).to_nostr_uri().unwrap();
    let outer = lib_event(&EventBuilder::text_note(uri).sign_with_keys(&Keys::generate()).unwrap());
    let mut app = App::new(true, Vec::new());
    app.on_ui_event(UiEvent::Event(outer, None));

    let first = app.reference_commands();
    let second = app.reference_commands();
    let quoted_id = quoted.id.to_hex();

    assert!(first.iter().any(|command| matches!(command, Command::FetchEvent(id) if *id == quoted_id)));
    assert!(!second.iter().any(|command| matches!(command, Command::FetchEvent(id) if *id == quoted_id)));
}

#[test]
fn fetches_and_exposes_the_parent_of_a_reply() {
    let parent_signed = EventBuilder::text_note("parent body").sign_with_keys(&Keys::generate()).unwrap();
    let reply = lib_event(
        &EventBuilder::text_note_reply("reply body", &parent_signed, None, None)
            .sign_with_keys(&Keys::generate())
            .unwrap(),
    );
    let parent = lib_event(&parent_signed);
    let mut app = App::new(true, Vec::new());
    app.on_ui_event(UiEvent::Event(reply.clone(), None));

    let pending = app.reply_display(&reply).unwrap();
    assert_eq!(pending.event_id, parent.id);
    assert!(pending.event.is_none());
    assert!(app
        .reference_commands()
        .iter()
        .any(|command| matches!(command, Command::FetchEvent(id) if *id == parent.id)));
    assert!(!app
        .reference_commands()
        .iter()
        .any(|command| matches!(command, Command::FetchEvent(id) if *id == parent.id)));

    app.on_ui_event(UiEvent::ReferencedEvent { event_id: parent.id.clone(), event: Some(parent.clone()) });

    assert_eq!(
        app.reply_display(&reply).and_then(|reply| reply.event).map(|event| event.content),
        Some("parent body".to_owned())
    );
}

#[test]
fn reply_chains_target_the_immediate_parent() {
    let root = EventBuilder::text_note("root").sign_with_keys(&Keys::generate()).unwrap();
    let parent = EventBuilder::text_note_reply("parent", &root, None, None)
        .sign_with_keys(&Keys::generate())
        .unwrap();
    let reply = EventBuilder::text_note_reply("reply", &parent, Some(&root), None)
        .sign_with_keys(&Keys::generate())
        .unwrap();

    assert_eq!(reply_target_id(&lib_event(&reply)), Some(parent.id.to_hex()));
}

#[test]
fn recognizes_legacy_positional_reply_tags() {
    let root = EventBuilder::text_note("root").sign_with_keys(&Keys::generate()).unwrap();
    let parent = EventBuilder::text_note("parent").sign_with_keys(&Keys::generate()).unwrap();
    let reply = EventBuilder::text_note("legacy reply")
        .tags([Tag::event(root.id), Tag::event(parent.id)])
        .sign_with_keys(&Keys::generate())
        .unwrap();

    assert_eq!(reply_target_id(&lib_event(&reply)), Some(parent.id.to_hex()));
}

#[test]
fn indexed_event_mentions_are_not_mistaken_for_replies() {
    let mentioned = EventBuilder::text_note("mentioned").sign_with_keys(&Keys::generate()).unwrap();
    let note = EventBuilder::text_note("see #[0]")
        .tags([Tag::event(mentioned.id)])
        .sign_with_keys(&Keys::generate())
        .unwrap();

    assert_eq!(reply_target_id(&lib_event(&note)), None);
}

#[test]
fn renders_embedded_repost_as_the_original_note() {
    let original = EventBuilder::text_note("original body").sign_with_keys(&Keys::generate()).unwrap();
    let reposter = Keys::generate();
    let repost = lib_event(&EventBuilder::repost(&original, None).sign_with_keys(&reposter).unwrap());
    let mut app = App::new(true, Vec::new());

    app.on_ui_event(UiEvent::Event(repost.clone(), None));
    let display = app.display_event(&repost);

    assert_eq!(display.event.id, original.id.to_hex());
    assert_eq!(display.event.content, "original body");
    assert_eq!(display.reposted_by, Some(reposter.public_key().to_hex()));
}

#[test]
fn fetches_and_renders_repost_with_missing_embedded_event() {
    let original_signed = EventBuilder::text_note("fetched body").sign_with_keys(&Keys::generate()).unwrap();
    let reposter = Keys::generate();
    let repost = lib_event(
        &EventBuilder::new(Kind::Repost, "")
            .tags([Tag::event(original_signed.id), Tag::public_key(original_signed.pubkey)])
            .sign_with_keys(&reposter)
            .unwrap(),
    );
    let original = lib_event(&original_signed);
    let mut app = App::new(true, Vec::new());
    app.on_ui_event(UiEvent::Event(repost.clone(), None));

    assert!(app
        .reference_commands()
        .iter()
        .any(|command| matches!(command, Command::FetchEvent(id) if *id == original.id)));

    app.on_ui_event(UiEvent::ReferencedEvent { event_id: original.id.clone(), event: Some(original.clone()) });
    let display = app.display_event(&repost);

    assert_eq!(display.event.id, original.id);
    assert_eq!(display.event.content, "fetched body");
    assert_eq!(display.reposted_by, Some(reposter.public_key().to_hex()));
}

#[test]
fn renders_generic_repost_and_targets_original_for_actions() {
    let original = EventBuilder::new(Kind::LongFormTextNote, "long-form body")
        .sign_with_keys(&Keys::generate())
        .unwrap();
    let reposter = Keys::generate();
    let signed = EventBuilder::repost(&original, None).sign_with_keys(&reposter).unwrap();
    assert_eq!(signed.kind, Kind::GenericRepost);
    let repost = lib_event(&signed);

    let mut app = App::new(false, Vec::new());
    app.select_tab(TimelineTab::Global);
    app.on_ui_event(UiEvent::Event(repost.clone(), None));

    let display = app.display_event(&repost);
    assert_eq!(display.event.id, original.id.to_hex());
    assert_eq!(display.reposted_by, Some(reposter.public_key().to_hex()));

    let command = app.on_key(Key::press(KeyCode::Char('f'))).unwrap();
    let original_id = original.id.to_hex();
    assert!(matches!(
        command,
        Command::React { event, reaction } if event.id == original_id && reaction == "+"
    ));
}

#[test]
fn reaction_summary_is_stable() {
    let mut reactions = Reactions::default();
    reactions.add("🔥");
    reactions.add("+");
    reactions.add("🔥");
    assert_eq!(reactions.summary(), "+1 🔥2");
}

#[test]
fn locally_forwarded_reaction_is_rendered_once_after_a_relay_echo() {
    let target_signed = EventBuilder::text_note("target").sign_with_keys(&Keys::generate()).unwrap();
    let reaction = lib_event(&EventBuilder::reaction(&target_signed, "+").sign_with_keys(&Keys::generate()).unwrap());
    let target = lib_event(&target_signed);
    let mut app = App::new(true, Vec::new());

    app.on_ui_event(UiEvent::Event(target.clone(), None));
    app.on_ui_event(UiEvent::Event(reaction.clone(), None));
    app.on_ui_event(UiEvent::Event(reaction, None));

    let rendered = app.rendered_reactions(&target).into_iter().map(|part| part.text).collect::<String>();
    assert_eq!(rendered, "+1");
}

#[test]
fn custom_reaction_is_exposed_as_a_renderable_emoji() {
    let event = lib_event(&EventBuilder::text_note("target").sign_with_keys(&Keys::generate()).unwrap());
    let mut reactions = Reactions::default();
    reactions.add(":party:");
    reactions.add(":party:");
    reactions.add_custom_emoji(CustomEmoji {
        shortcode: "party".to_owned(),
        url: "https://example.com/party.png".to_owned(),
    });
    let mut app = App::new(true, Vec::new());
    app.reactions.insert(event.id.clone(), reactions);

    let rendered = app.rendered_reactions(&event);

    assert_eq!(
        rendered.iter().find_map(|part| part.emoji.as_ref()).map(|emoji| emoji.shortcode.as_str()),
        Some("party")
    );
    assert_eq!(rendered.len(), 2);
    assert_eq!(rendered[1].text, "2");
    assert!(rendered[1].emoji.is_none());
}

#[test]
fn nip05_root_identifier_is_displayed_as_domain_only() {
    let pubkey = Keys::generate().public_key();
    let key = pubkey.to_hex();
    let address = "_@example.com".to_owned();
    let mut app = App::new(true, Vec::new());
    app.profiles.insert(key.clone(), Profile { nip05: Some(address.clone()), ..Profile::default() });

    assert_eq!(app.nip05_label(&key).as_deref(), Some("? example.com"));

    app.verified_nip05.insert(key.clone(), address);
    assert_eq!(app.nip05_label(&key).as_deref(), Some("✓ example.com"));
}

#[test]
fn dislikes_and_custom_reactions_are_summarised_in_order() {
    let mut reactions = Reactions::new();
    reactions.add("-");
    reactions.add("");
    reactions.add("b");
    reactions.add("a");
    reactions.add("b");
    assert_eq!(reactions.likes(), 1);
    assert_eq!(reactions.dislikes(), 1);
    assert_eq!(reactions.summary(), "+1 -1 a1 b2");
    assert_eq!(Reactions::default().summary(), "");
}

#[test]
fn author_name_prefers_display_name_then_name_then_short_key() {
    let public_key = Keys::generate().public_key();
    let key = public_key.to_hex();
    let npub = public_key.to_bech32().unwrap();
    let mut app = App::new(true, Vec::new());
    assert_eq!(app.author_name(&key), npub[..16].to_owned());
    app.profiles.insert(key.clone(), Profile { name: Some("bob".to_owned()), ..Profile::default() });
    assert_eq!(app.author_name(&key), "bob");
    app.profiles.insert(
        key.clone(),
        Profile { name: Some("bob".to_owned()), display_name: Some("Bob B".to_owned()), ..Profile::default() },
    );
    assert_eq!(app.author_name(&key), "Bob B");
}

#[test]
fn npub_profile_mention_without_profile_uses_a_short_npub() {
    let mentioned = Keys::generate().public_key();
    let npub = mentioned.to_bech32().unwrap();
    let event = lib_event(
        &EventBuilder::text_note(format!("hi nostr:{npub}")).sign_with_keys(&Keys::generate()).unwrap(),
    );
    let app = App::new(true, Vec::new());
    let rendered = app.rendered_content(&event);
    let mention = rendered.parts.iter().find(|part| part.mention).unwrap();
    assert!(mention.text.starts_with('@'));
    assert!(text_of(&rendered.parts).starts_with("hi @"));
}

#[test]
fn reactions_in_either_order_give_the_same_summary() {
    let mut first = Reactions::new();
    let mut second = Reactions::new();
    for value in ["🔥", "+", ":party:", "-", "🔥"] {
        first.add(value);
    }
    for value in ["🔥", "-", "🔥", ":party:", "+"] {
        second.add(value);
    }
    assert_eq!(first.summary(), second.summary());
    assert_eq!(first.summary(), "+1 -1 :party:1 🔥2");
}

#[test]
fn a_post_shows_at_most_four_distinct_images() {
    let event = lib_event(
        &EventBuilder::text_note(
            "https://a.example/1.png https://a.example/1.png https://a.example/2.gif \
             https://a.example/3.webp https://a.example/4.jpg https://a.example/5.png",
        )
        .sign_with_keys(&Keys::generate())
        .unwrap(),
    );
    let app = App::new(true, Vec::new());

    assert_eq!(
        app.rendered_content(&event).image_urls,
        vec![
            "https://a.example/1.png",
            "https://a.example/2.gif",
            "https://a.example/3.webp",
            "https://a.example/4.jpg",
        ]
    );
}

#[test]
fn rendered_parts_are_trimmed_joined_and_show_emoji_as_shortcodes() {
    let event = lib_event(
        &EventBuilder::text_note("  \n hi :party: there \n ")
            .tags([Tag::parse(["emoji", "party", "https://example.com/party.png"]).unwrap()])
            .sign_with_keys(&Keys::generate())
            .unwrap(),
    );
    let app = App::new(true, Vec::new());
    let parts = app.rendered_content(&event).parts;

    assert_eq!(parts.len(), 3);
    assert_eq!(parts[0].text, "hi ");
    assert!(parts[0].emoji.is_none());
    assert_eq!(parts[1].text, ":party:");
    assert!(!parts[1].mention);
    assert_eq!(parts[1].emoji.as_ref().map(|e| e.shortcode.as_str()), Some("party"));
    assert_eq!(parts[2].text, " there");
    assert!(parts[2].emoji.is_none());
}

#[test]
fn a_lone_indexed_mention_becomes_its_tag_mention() {
    let keys = Keys::generate();
    let hex = keys.public_key().to_hex();
    let npub = keys.public_key().to_bech32().unwrap();
    let with_tag = tags(&[&["p", hex.as_str()]]);

    assert_eq!(expand_mentions("#[0]", &with_tag), format!("@{npub}"));
    assert_eq!(expand_mentions("#[1]", &with_tag), "#[1]");
    assert_eq!(expand_mentions("#[x]", &with_tag), "#[x]");
}
