use image::DynamicImage;
use nostr_ratatui::cache::ImageCache;
use nostr_ratatui::picture::{decode_raster_image, CACHED_IMAGE_SIZE, RasterImage};
use nostr_ratatui::present::{kitty_delete_sequence, kitty_terminal_from_env_values};
use ratatui::buffer::Buffer;
use ratatui::layout::Rect;
use ratatui::widgets::StatefulWidget;
use ratatui_image::picker::{Picker, ProtocolType};
use ratatui_image::{FontSize, StatefulImage};

const MAX_CACHED_IMAGES: usize = 64;
const MAX_PENDING_IMAGES: usize = 8;

fn enabled_cache() -> ImageCache {
    let mut picker = Picker::from_fontsize(FontSize::new(10, 20));
    picker.set_protocol_type(ProtocolType::Kitty);
    ImageCache::with_picker(picker, 1)
}

fn disabled_cache_never_schedules_downloads() {
    let mut cache = ImageCache::disabled();
    assert!(!cache.request("pubkey", "https://example.com/avatar.png"));
}

fn enabled_cache_rejects_non_https_custom_emoji() {
    let mut cache = enabled_cache();
    assert!(!cache.request("emoji:party", "http://example.com/party.png"));
}

fn kitty_environment_is_a_capability_detection_fallback() {
    assert!(kitty_terminal_from_env_values(Some("xterm-kitty"), None, None));
    assert!(kitty_terminal_from_env_values(Some("tmux-256color"), None, Some("1")));
    assert!(kitty_terminal_from_env_values(Some("dumb"), Some("ghostty"), None));
    assert!(!kitty_terminal_from_env_values(Some("xterm-256color"), None, None));
}

fn delete_sequence_targets_each_image_id() {
    let output = kitty_delete_sequence(&vec![12, 34], false);
    assert!(output.contains("a=d,d=I,i=12"));
    assert!(output.contains("a=d,d=I,i=34"));
}

fn pending_downloads_are_bounded() {
    let mut cache = enabled_cache();
    for index in 0..MAX_PENDING_IMAGES {
        assert!(cache.request(&format!("pubkey-{index}"), &format!("https://example.com/{index}.png")));
    }
    assert!(!cache.request("one-too-many", "https://example.com/full.png"));
    assert_eq!(cache.pending_count(), MAX_PENDING_IMAGES);
}

fn completed_custom_emoji_is_ready_for_inline_rendering() {
    let mut cache = enabled_cache();
    let key = "emoji:https://example.com/party.png";
    let url = "https://example.com/party.png";
    assert!(cache.request(key, url));

    cache.complete(key.to_owned(), url.to_owned(), Some(RasterImage::new(DynamicImage::new_rgba8(16, 16))));

    assert!(cache.has_protocol(key, url));
    let mut buffer = Buffer::empty(Rect::new(0, 0, 2, 1));
    let protocol = cache.protocol_mut(key, url).unwrap();
    StatefulImage::default().render(Rect::new(0, 0, 2, 1), &mut buffer, protocol);
    assert!(buffer[(0, 0)].symbol().contains("\x1b_G"));
}

fn decoded_cache_evicts_and_releases_kitty_ids() {
    let mut cache = enabled_cache();
    for index in 0..MAX_CACHED_IMAGES + 3 {
        let pubkey = format!("pubkey-{index}");
        let url = format!("https://example.com/{index}.png");
        assert!(cache.request(&pubkey, &url));
        cache.complete(pubkey, url, Some(RasterImage::new(DynamicImage::new_rgba8(16, 16))));
    }

    assert_eq!(cache.cached_count(), MAX_CACHED_IMAGES);
    assert_eq!(cache.released_count(), 3);
}

#[test]
fn graphics_disabled_cache_never_schedules_downloads() {
    disabled_cache_never_schedules_downloads();
}

#[test]
fn tests_disabled_cache_never_schedules_downloads() {
    disabled_cache_never_schedules_downloads();
}

#[test]
fn graphics_enabled_cache_rejects_non_https_custom_emoji() {
    enabled_cache_rejects_non_https_custom_emoji();
}

#[test]
fn tests_enabled_cache_rejects_non_https_custom_emoji() {
    enabled_cache_rejects_non_https_custom_emoji();
}

#[test]
fn graphics_kitty_environment_is_a_capability_detection_fallback() {
    kitty_environment_is_a_capability_detection_fallback();
}

#[test]
fn tests_kitty_environment_is_a_capability_detection_fallback() {
    kitty_environment_is_a_capability_detection_fallback();
}

#[test]
fn graphics_delete_sequence_targets_each_image_id() {
    delete_sequence_targets_each_image_id();
}

#[test]
fn tests_delete_sequence_targets_each_image_id() {
    delete_sequence_targets_each_image_id();
}

#[test]
fn graphics_pending_downloads_are_bounded() {
    pending_downloads_are_bounded();
}

#[test]
fn tests_pending_downloads_are_bounded() {
    pending_downloads_are_bounded();
}

#[test]
fn graphics_completed_custom_emoji_is_ready_for_inline_rendering() {
    completed_custom_emoji_is_ready_for_inline_rendering();
}

#[test]
fn tests_completed_custom_emoji_is_ready_for_inline_rendering() {
    completed_custom_emoji_is_ready_for_inline_rendering();
}

#[test]
fn preview_size_uses_image_and_terminal_cell_aspect_ratios() {
    let mut cache = enabled_cache();
    let cases = [("wide", (128, 72), (24, 7)), ("square", (128, 128), (16, 8)), ("portrait", (64, 128), (8, 8))];

    for (name, (width, height), expected) in cases {
        let key = format!("post:{name}");
        let url = format!("https://example.com/{name}.png");
        assert!(cache.request(&key, &url));
        cache.complete(key.clone(), url.clone(), Some(RasterImage::new(DynamicImage::new_rgba8(width, height))));

        assert_eq!(cache.preview_size(&key, &url, 24, 8), Some(expected));
    }
}

#[test]
fn graphics_decoded_cache_evicts_and_releases_kitty_ids() {
    decoded_cache_evicts_and_releases_kitty_ids();
}

#[test]
fn tests_decoded_cache_evicts_and_releases_kitty_ids() {
    decoded_cache_evicts_and_releases_kitty_ids();
}

#[test]
fn a_failed_download_is_remembered_and_not_drawable() {
    let mut cache = enabled_cache();
    assert!(cache.request("post:x", "https://example.com/x.png"));
    cache.complete("post:x".to_owned(), "https://example.com/x.png".to_owned(), None);
    assert_eq!(cache.pending_count(), 0);
    assert!(!cache.has_protocol("post:x", "https://example.com/x.png"));
    assert!(!cache.request("post:x", "https://example.com/x.png"));
    assert_eq!(cache.preview_size("post:x", "https://example.com/x.png", 24, 8), None);
}

#[test]
fn a_completion_for_another_url_is_ignored() {
    let mut cache = enabled_cache();
    assert!(cache.request("avatar:a", "https://example.com/a.png"));
    cache.complete("avatar:a".to_owned(), "https://example.com/b.png".to_owned(), Some(RasterImage::new(DynamicImage::new_rgba8(4, 4))));
    assert_eq!(cache.pending_count(), 1);
    assert_eq!(cache.cached_count(), 0);
    assert!(!cache.request("avatar:a", "https://example.com/a.png"));
}

#[test]
fn clearing_releases_every_kitty_id_once() {
    let mut cache = enabled_cache();
    for index in 0..3 {
        let key = format!("avatar:{index}");
        let url = format!("https://example.com/{index}.png");
        assert!(cache.request(&key, &url));
        cache.complete(key, url, Some(RasterImage::new(DynamicImage::new_rgba8(4, 4))));
    }
    cache.clear();
    assert_eq!(cache.cached_count(), 0);
    let ids = cache.take_deleted_ids();
    assert_eq!(ids.len(), 3);
    assert!(cache.take_deleted_ids().is_empty());
}

#[test]
fn changed_source_url_drops_the_stale_image() {
    let mut cache = enabled_cache();
    assert!(cache.request("avatar:k", "https://example.com/old.png"));
    cache.complete("avatar:k".to_owned(), "https://example.com/old.png".to_owned(), Some(RasterImage::new(DynamicImage::new_rgba8(4, 4))));
    assert!(cache.has_protocol("avatar:k", "https://example.com/old.png"));
    cache.source_updated("avatar:k", Some("https://example.com/new.png"));
    assert!(!cache.has_protocol("avatar:k", "https://example.com/old.png"));
    assert_eq!(cache.released_count(), 1);
}

#[test]
fn tmux_delete_sequence_is_wrapped_for_passthrough() {
    let output = kitty_delete_sequence(&vec![7], true);
    assert!(output.starts_with("\x1bPtmux;"));
    assert!(output.contains("a=d,d=I,i=7"));
    assert!(output.ends_with("\x1b\\"));
}

fn png_of(width: u32, height: u32) -> Vec<u8> {
    let mut encoded = std::io::Cursor::new(Vec::new());
    DynamicImage::new_rgba8(width, height).write_to(&mut encoded, image::ImageFormat::Png).unwrap();
    encoded.into_inner()
}

#[test]
fn image_decoder_normalizes_retained_size() {
    let decoded = decode_raster_image(&png_of(512, 256)).unwrap();
    assert!(decoded.width() <= CACHED_IMAGE_SIZE);
    assert!(decoded.height() <= CACHED_IMAGE_SIZE);
}

#[test]
fn image_decoder_rejects_excessive_dimensions() {
    assert!(decode_raster_image(&png_of(2_049, 1)).is_err());
}

#[test]
fn raster_images_keep_their_aspect_ratio_and_limits() {
    let decoded = decode_raster_image(&png_of(512, 256)).unwrap();
    assert_eq!((decoded.width(), decoded.height()), (128, 64));
    assert!(decode_raster_image(&png_of(2_048, 1)).is_ok());
    assert!(decode_raster_image(b"not an image").is_err());
}

#[test]
fn kitty_ids_count_up_from_the_seed_and_skip_zero() {
    let mut picker = Picker::from_fontsize(FontSize::new(10, 20));
    picker.set_protocol_type(ProtocolType::Kitty);
    let mut cache = ImageCache::with_picker(picker, u32::MAX);
    for index in 0..2 {
        let key = format!("avatar:{index}");
        let url = format!("https://example.com/{index}.png");
        assert!(cache.request(&key, &url));
        cache.complete(key, url, Some(RasterImage::new(DynamicImage::new_rgba8(4, 4))));
    }
    cache.clear();
    assert_eq!(cache.take_deleted_ids(), vec![u32::MAX, 1]);
}

#[test]
fn a_refused_request_leaves_the_downloads_alone() {
    let mut cache = enabled_cache();
    assert!(cache.request("avatar:a", "https://example.com/a.png"));
    assert!(!cache.request("avatar:a", "https://example.com/other.png"));
    assert!(!cache.request("avatar:b", "http://example.com/b.png"));
    assert_eq!(cache.released_count(), 0);
    cache.complete("avatar:a".to_owned(), "https://example.com/a.png".to_owned(), Some(RasterImage::new(DynamicImage::new_rgba8(4, 4))));
    assert!(cache.has_protocol("avatar:a", "https://example.com/a.png"));
}
