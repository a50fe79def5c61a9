//! A bounded cache of terminal images, keyed by a logical image name.
//!
//! At most `MAX_PENDING_IMAGES` downloads are in flight and at most
//! `MAX_CACHED_IMAGES` decoded images are kept; the least recently used one is
//! evicted first. Kitty keeps transmitted image data in the terminal, so the
//! Kitty ids of dropped images are collected for the caller to delete.

use vstd::prelude::*;

use crate::media::{is_safe_https_url, is_safe_url};
use crate::picture::RasterImage;

use image::DynamicImage;
use ratatui::layout::Size;
use ratatui_image::picker::Capability;
use ratatui_image::picker::Picker;
use ratatui_image::protocol::kitty::StatefulKitty;
use ratatui_image::protocol::{StatefulProtocol, StatefulProtocolType};
use ratatui_image::{FontSize, Resize};

verus! {

/// The terminal-capability picker of `ratatui-image`.
#[verifier::external_type_specification]
#[verifier::external_body]
pub struct ExPicker(Picker);

/// A resizing terminal image of `ratatui-image`.
#[verifier::external_type_specification]
#[verifier::external_body]
pub struct ExStatefulProtocol(StatefulProtocol);

/// A decoded image of the `image` crate.
#[verifier::external_type_specification]
#[verifier::external_body]
pub struct ExDynamicImage(DynamicImage);

/// At most this many decoded images are kept.
pub const MAX_CACHED_IMAGES: usize = 64;

/// At most this many downloads are in flight.
pub const MAX_PENDING_IMAGES: usize = 8;

/// A drawable Kitty image with what it was made from: its Kitty id, the
/// size of its image in pixels and the font size of its cells.
struct KittyImage {
    protocol: StatefulProtocol,
    id: u32,
    width: u32,
    height: u32,
    font: (u16, u16),
}

/// Makes a Kitty resizing protocol for `image` with the image id `id` and
/// cells of `font` pixels (`StatefulProtocol::new` over `StatefulKitty::new`,
/// with the picker's tmux setting and compression capability), and records
/// the id, the image's size and the font beside it.
/// `Picker::new_resize_protocol` would draw the id itself, and `ratatui-image`
/// gives no way to read it back from the protocol, so the cache picks the id
/// and keeps it to free the image later.
#[verifier::external_body]
fn kitty_image(picker: &Picker, image: RasterImage, id: u32, font: (u16, u16)) -> (r: KittyImage)
    ensures
        r.id == id,
        r.width == image.size().0,
        r.height == image.size().1,
        r.font == font,
{
    let compress = picker.capabilities().contains(&Capability::KittyCompression);
    let kitty = StatefulKitty::new(id, picker.tmux_detected(), compress);
    let font_size = FontSize::new(font.0, font.1);
    let protocol = StatefulProtocol::new(image.image, font_size, None, StatefulProtocolType::Kitty(kitty));
    KittyImage { protocol, id, width: image.width, height: image.height, font }
}

/// `Picker::font_size`, as (width, height) in pixels. The picker is opaque
/// here, so nothing is stated of it.
#[verifier::external_body]
fn picker_font_size(picker: &Picker) -> (u16, u16) {
    let font = picker.font_size();
    (font.width, font.height)
}

/// The cell size that `Resize::Scale` gives (`Resize::size_for`) for an image
/// of `width` by `height` pixels drawn in cells of `font_width` by
/// `font_height` pixels into at most `max_width` by `max_height` cells.
pub uninterp spec fn cells_for(width: u32, height: u32, font_width: u16, font_height: u16, max_width: u16, max_height: u16) -> (u16, u16);

/// `StatefulProtocol::size_for` with `Resize::Scale`: the protocol holds the
/// image of `k.width` by `k.height` pixels at the font `k.font`, so the size
/// is that of [`cells_for`].
#[verifier::external_body]
fn scaled_size(k: &KittyImage, max_width: u16, max_height: u16) -> (r: (u16, u16))
    ensures
        r == cells_for(k.width, k.height, k.font.0, k.font.1, max_width, max_height),
{
    let size = k.protocol.size_for(Resize::Scale(None), Size::new(max_width, max_height));
    (size.width, size.height)
}

/// A cached image; entries that are not ready are negative entries (the
/// download failed). Its drawable image sits at the same position of the
/// cache's list of protocols.
struct CacheEntry {
    key: String,
    url: String,
    ready: bool,
    kitty_id: Option<u32>,
    size: Option<(u32, u32)>,
}

/// What the cache knows of one entry.
pub struct EntryView {
    pub key: Seq<char>,
    pub url: Seq<char>,
    pub ready: bool,
    pub kitty_id: Option<u32>,
    pub size: Option<(u32, u32)>,
}

/// The values of the entries.
spec fn entry_views(v: Seq<CacheEntry>) -> Seq<EntryView> {
    v.map_values(
        |e: CacheEntry| EntryView { key: e.key@, url: e.url@, ready: e.ready, kitty_id: e.kitty_id, size: e.size },
    )
}

/// The values of the pending downloads.
spec fn pending_views(v: Seq<(String, String)>) -> Seq<(Seq<char>, Seq<char>)> {
    v.map_values(|p: (String, String)| (p.0@, p.1@))
}

/// The position of the entry for `key`.
pub open spec fn entry_index(entries: Seq<EntryView>, key: Seq<char>) -> Option<int>
    decreases entries.len(),
{
    if entries.len() == 0 {
        None
    } else if entries.last().key == key {
        Some(entries.len() - 1)
    } else {
        entry_index(entries.drop_last(), key)
    }
}

/// The url that is pending for `key`.
pub open spec fn pending_url(pending: Seq<(Seq<char>, Seq<char>)>, key: Seq<char>) -> Option<Seq<char>>
    decreases pending.len(),
{
    if pending.len() == 0 {
        None
    } else if pending.last().0 == key {
        Some(pending.last().1)
    } else {
        pending_url(pending.drop_last(), key)
    }
}

/// The pending downloads without the one for `key`.
pub open spec fn without_pending(pending: Seq<(Seq<char>, Seq<char>)>, key: Seq<char>) -> Seq<(Seq<char>, Seq<char>)>
    decreases pending.len(),
{
    if pending.len() == 0 {
        pending
    } else if pending.last().0 == key {
        without_pending(pending.drop_last(), key)
    } else {
        without_pending(pending.drop_last(), key).push(pending.last())
    }
}

/// The entries without the one for `key`.
pub open spec fn without_entry(entries: Seq<EntryView>, key: Seq<char>) -> Seq<EntryView>
    decreases entries.len(),
{
    if entries.len() == 0 {
        entries
    } else if entries.last().key == key {
        without_entry(entries.drop_last(), key)
    } else {
        without_entry(entries.drop_last(), key).push(entries.last())
    }
}

/// The Kitty id of an entry, if it has one.
pub open spec fn ids_of(e: EntryView) -> Seq<u32> {
    match e.kitty_id {
        Some(id) => seq![id],
        None => seq![],
    }
}

/// The entries after storing `e`: any old entry for its key is dropped, `e`
/// becomes the most recently used, and the least recently used entry is
/// evicted when the bound is exceeded.
pub open spec fn after_insert(entries: Seq<EntryView>, e: EntryView) -> Seq<EntryView> {
    let r = without_entry(entries, e.key).push(e);
    if r.len() > MAX_CACHED_IMAGES {
        r.drop_first()
    } else {
        r
    }
}

/// The Kitty ids released by storing `e`.
pub open spec fn released_by_insert(entries: Seq<EntryView>, e: EntryView) -> Seq<u32> {
    let r = without_entry(entries, e.key).push(e);
    released(entries, e.key) + if r.len() > MAX_CACHED_IMAGES {
        ids_of(r[0])
    } else {
        seq![]
    }
}

/// The Kitty ids of all entries, in order.
pub open spec fn all_ids(entries: Seq<EntryView>) -> Seq<u32>
    decreases entries.len(),
{
    if entries.len() == 0 {
        seq![]
    } else {
        all_ids(entries.drop_last()) + ids_of(entries.last())
    }
}

/// The Kitty ids released by dropping the entry for `key`.
pub open spec fn released(entries: Seq<EntryView>, key: Seq<char>) -> Seq<u32> {
    match entry_index(entries, key) {
        Some(i) => match entries[i].kitty_id {
            Some(id) => seq![id],
            None => seq![],
        },
        None => seq![],
    }
}

/// The entries with the one for `key` moved to the most recently used end.
pub open spec fn touched(entries: Seq<EntryView>, key: Seq<char>) -> Seq<EntryView> {
    match entry_index(entries, key) {
        Some(i) => without_entry(entries, key).push(entries[i]),
        None => entries,
    }
}

/// The entry for `key` holds `url`.
pub open spec fn entry_matches(entries: Seq<EntryView>, key: Seq<char>, url: Seq<char>) -> bool {
    match entry_index(entries, key) {
        Some(i) => entries[i].url == url,
        None => false,
    }
}

/// The entry for `key` holds `url` and a usable image.
pub open spec fn entry_ready(entries: Seq<EntryView>, key: Seq<char>, url: Seq<char>) -> bool {
    match entry_index(entries, key) {
        Some(i) => entries[i].url == url && entries[i].ready,
        None => false,
    }
}

/// Keys occur at most once.
pub open spec fn distinct_entry_keys(entries: Seq<EntryView>) -> bool {
    forall|i: int, j: int| 0 <= i < j < entries.len() ==> #[trigger] entries[i].key != #[trigger] entries[j].key
}

/// Keys occur at most once.
pub open spec fn distinct_pending_keys(pending: Seq<(Seq<char>, Seq<char>)>) -> bool {
    forall|i: int, j: int| 0 <= i < j < pending.len() ==> #[trigger] pending[i].0 != #[trigger] pending[j].0
}

/// `entry_index` finds the last entry with the key, if any.
proof fn lemma_entry_index(entries: Seq<EntryView>, key: Seq<char>)
    ensures
        match entry_index(entries, key) {
            Some(i) => 0 <= i < entries.len() && entries[i].key == key && forall|j: int|
                i < j < entries.len() ==> (#[trigger] entries[j]).key != key,
            None => forall|j: int| 0 <= j < entries.len() ==> (#[trigger] entries[j]).key != key,
        },
    decreases entries.len(),
{
    if entries.len() > 0 {
        let t = entries.drop_last();
        lemma_entry_index(t, key);
        assert forall|j: int| 0 <= j < t.len() implies entries[j] == #[trigger] t[j] by {}
        if entries.last().key != key {
            match entry_index(t, key) {
                Some(i) => {
                    assert forall|j: int| i < j < entries.len() implies (#[trigger] entries[j]).key != key by {
                        if j < t.len() {
                            assert(entries[j] == t[j]);
                        }
                    }
                },
                None => {
                    assert forall|j: int| 0 <= j < entries.len() implies (#[trigger] entries[j]).key != key by {
                        if j < t.len() {
                            assert(entries[j] == t[j]);
                        }
                    }
                },
            }
        }
    }
}

/// Dropping the entry of a key: with distinct keys, one position is removed.
proof fn lemma_without_entry(entries: Seq<EntryView>, key: Seq<char>)
    requires
        distinct_entry_keys(entries),
    ensures
        match entry_index(entries, key) {
            Some(i) => without_entry(entries, key) == entries.remove(i),
            None => without_entry(entries, key) == entries,
        },
        distinct_entry_keys(without_entry(entries, key)),
        forall|j: int| 0 <= j < without_entry(entries, key).len() ==> (#[trigger] without_entry(entries, key)[j]).key != key,
    decreases entries.len(),
{
    lemma_entry_index(entries, key);
    if entries.len() > 0 {
        let t = entries.drop_last();
        assert(distinct_entry_keys(t)) by {
            assert forall|i: int, j: int| 0 <= i < j < t.len() implies #[trigger] t[i].key != #[trigger] t[j].key by {
                assert(t[i] == entries[i] && t[j] == entries[j]);
            }
        }
        lemma_without_entry(t, key);
        lemma_entry_index(t, key);
        if entries.last().key == key {
            assert(entry_index(t, key) is None) by {
                match entry_index(t, key) {
                    Some(i) => {
                        assert(entries[i] == t[i]);
                        assert(entries[i].key != entries[entries.len() - 1].key);
                    },
                    None => {},
                }
            }
            assert(entries.remove(entries.len() - 1) =~= t);
        } else {
            let w = without_entry(t, key);
            match entry_index(t, key) {
                Some(i) => {
                    assert(entries.remove(i) =~= t.remove(i).push(entries.last()));
                },
                None => {
                    assert(entries =~= t.push(entries.last()));
                },
            }
            let r = w.push(entries.last());
            assert forall|a: int, b: int| 0 <= a < b < r.len() implies #[trigger] r[a].key != #[trigger] r[b].key by {
                if b == w.len() {
                    match entry_index(t, key) {
                        Some(i) => {
                            let a2 = if a < i { a } else { a + 1 };
                            assert(w[a] == t.remove(i)[a]);
                            assert(t.remove(i)[a] == t[a2]);
                            assert(t[a2] == entries[a2]);
                        },
                        None => {
                            assert(w[a] == entries[a]);
                        },
                    }
                }
            }
        }
    }
}

/// Dropping the pending download of a key: with distinct keys, one position is removed.
proof fn lemma_without_pending(pending: Seq<(Seq<char>, Seq<char>)>, key: Seq<char>)
    requires
        distinct_pending_keys(pending),
    ensures
        distinct_pending_keys(without_pending(pending, key)),
        without_pending(pending, key).len() <= pending.len(),
        pending_url(without_pending(pending, key), key) is None,
        pending_url(pending, key) is None ==> without_pending(pending, key) == pending,
        pending_url(pending, key) is Some ==> without_pending(pending, key).len() == pending.len() - 1,
        forall|j: int| 0 <= j < without_pending(pending, key).len() ==> pending.contains(#[trigger] without_pending(pending, key)[j]),
    decreases pending.len(),
{
    if pending.len() > 0 {
        let t = pending.drop_last();
        assert(distinct_pending_keys(t)) by {
            assert forall|i: int, j: int| 0 <= i < j < t.len() implies #[trigger] t[i].0 != #[trigger] t[j].0 by {
                assert(t[i] == pending[i] && t[j] == pending[j]);
            }
        }
        lemma_without_pending(t, key);
        lemma_pending_url(t, key);
        let w = without_pending(t, key);
        assert forall|j: int| 0 <= j < w.len() implies pending.contains(#[trigger] w[j]) by {
            let k = choose|k: int| 0 <= k < t.len() && t[k] == w[j];
            assert(pending[k] == t[k]);
        }
        if pending.last().0 == key {
            assert(pending_url(t, key) is None) by {
                lemma_pending_url(t, key);
                if pending_url(t, key) is Some {
                    let k = choose|k: int| 0 <= k < t.len() && t[k].0 == key;
                    assert(pending[k] == t[k]);
                    assert(pending[k].0 != pending[pending.len() - 1].0);
                }
            }
        } else {
            let r = w.push(pending.last());
            assert(r.drop_last() =~= w);
            assert forall|a: int, b: int| 0 <= a < b < r.len() implies #[trigger] r[a].0 != #[trigger] r[b].0 by {
                if b == w.len() {
                    assert(pending.contains(w[a]));
                    let k = choose|k: int| 0 <= k < pending.len() && pending[k] == w[a];
                    if k == pending.len() - 1 {
                        assert(pending_url(w, key) is None);
                        lemma_pending_url(w, key);
                        assert(w[a].0 != key);
                    }
                }
            }
            assert forall|j: int| 0 <= j < r.len() implies pending.contains(#[trigger] r[j]) by {
                if j == w.len() {
                    assert(pending[pending.len() - 1] == r[j]);
                }
            }
            if pending_url(pending, key) is None {
                assert(pending =~= t.push(pending.last()));
            }
        }
    }
}

/// `pending_url` finds a download for the key exactly when one exists.
proof fn lemma_pending_url(pending: Seq<(Seq<char>, Seq<char>)>, key: Seq<char>)
    ensures
        pending_url(pending, key) is Some <==> exists|k: int| 0 <= k < pending.len() && #[trigger] pending[k].0 == key,
        pending_url(pending, key) is Some ==> exists|k: int| 0 <= k < pending.len() && #[trigger] pending[k] == (key, pending_url(pending, key)->0),
    decreases pending.len(),
{
    if pending.len() > 0 {
        let t = pending.drop_last();
        lemma_pending_url(t, key);
        if pending.last().0 == key {
            assert(pending[pending.len() - 1] == (key, pending.last().1));
        } else {
            if exists|k: int| 0 <= k < pending.len() && #[trigger] pending[k].0 == key {
                let k = choose|k: int| 0 <= k < pending.len() && #[trigger] pending[k].0 == key;
                assert(t[k] == pending[k]);
            }
            if pending_url(t, key) is Some {
                let k = choose|k: int| 0 <= k < t.len() && #[trigger] t[k] == (key, pending_url(t, key)->0);
                assert(pending[k] == t[k]);
            }
        }
    }
}

/// With distinct keys, dropping the download of a key removes its position.
proof fn lemma_without_pending_at(pending: Seq<(Seq<char>, Seq<char>)>, key: Seq<char>, i: int)
    requires
        distinct_pending_keys(pending),
        0 <= i < pending.len(),
        pending[i].0 == key,
    ensures
        without_pending(pending, key) == pending.remove(i),
    decreases pending.len(),
{
    let t = pending.drop_last();
    assert(distinct_pending_keys(t)) by {
        assert forall|a: int, b: int| 0 <= a < b < t.len() implies #[trigger] t[a].0 != #[trigger] t[b].0 by {
            assert(t[a] == pending[a] && t[b] == pending[b]);
        }
    }
    if i == pending.len() - 1 {
        lemma_pending_url(t, key);
        if pending_url(t, key) is Some {
            let k = choose|k: int| 0 <= k < t.len() && #[trigger] t[k].0 == key;
            assert(pending[k] == t[k]);
        }
        lemma_without_pending(t, key);
        assert(pending.remove(i) =~= t);
    } else {
        assert(t[i] == pending[i]);
        lemma_without_pending_at(t, key, i);
        assert(pending[pending.len() - 1].0 != key);
        assert(pending.remove(i) =~= t.remove(i).push(pending.last()));
    }
}

/// A completed download is drawable right away: after storing a ready entry,
/// its key holds its url and a usable image.
pub proof fn law_completed_image_is_ready(entries: Seq<EntryView>, e: EntryView)
    requires
        e.ready,
    ensures
        entry_ready(after_insert(entries, e), e.key, e.url),
        entry_index(after_insert(entries, e), e.key) == Some(after_insert(entries, e).len() - 1),
{
    let r = without_entry(entries, e.key).push(e);
    let x = after_insert(entries, e);
    if r.len() > MAX_CACHED_IMAGES {
        assert(x.last() == r.last());
    }
    assert(x.last() == e);
}

/// No entry carries `key`, so none is found for it.
proof fn lemma_no_entry_index(entries: Seq<EntryView>, key: Seq<char>)
    requires
        forall|j: int| 0 <= j < entries.len() ==> (#[trigger] entries[j]).key != key,
    ensures
        entry_index(entries, key) is None,
    decreases entries.len(),
{
    if entries.len() > 0 {
        assert(entries.last() == entries[entries.len() - 1]);
        lemma_no_entry_index(entries.drop_last(), key);
    }
}

/// A download is started exactly when images are on, the URL is safe, the
/// image is not already cached from that URL, no download for the key is in
/// flight and fewer than `MAX_PENDING_IMAGES` are. A started download is in
/// flight afterwards and any older image of the key is gone; a refused one
/// leaves the downloads and the released ids as they were and keeps every
/// cached entry (a hit only makes its entry the most recently used).
pub proof fn law_request_starts_only_new_safe_downloads(v: ImageCacheView, key: Seq<char>, url: Seq<char>)
    requires
        distinct_entry_keys(v.cached),
    ensures
        request_spec(v, key, url).1 == (v.enabled && is_safe_url(url) && !entry_matches(v.cached, key, url)
            && pending_url(v.in_flight, key) is None && v.in_flight.len() < MAX_PENDING_IMAGES),
        request_spec(v, key, url).1 ==> pending_url(request_spec(v, key, url).0.in_flight, key) == Some(url),
        request_spec(v, key, url).1 ==> entry_index(request_spec(v, key, url).0.cached, key) is None,
        !request_spec(v, key, url).1 ==> request_spec(v, key, url).0.in_flight == v.in_flight,
        !request_spec(v, key, url).1 ==> request_spec(v, key, url).0.released == v.released,
        !request_spec(v, key, url).1 ==> request_spec(v, key, url).0.cached.len() == v.cached.len(),
        !request_spec(v, key, url).1 ==> forall|e: EntryView| #[trigger] request_spec(v, key, url).0.cached.contains(e)
            <==> v.cached.contains(e),
{
    lemma_without_entry(v.cached, key);
    lemma_entry_index(v.cached, key);
    if request_spec(v, key, url).1 {
        lemma_no_entry_index(without_entry(v.cached, key), key);
    } else if v.enabled && is_safe_url(url) && entry_matches(v.cached, key, url) {
        let i = entry_index(v.cached, key)->0;
        let t = v.cached.remove(i).push(v.cached[i]);
        assert forall|e: EntryView| t.contains(e) <==> v.cached.contains(e) by {
            if v.cached.contains(e) {
                let j = choose|j: int| 0 <= j < v.cached.len() && v.cached[j] == e;
                if j < i {
                    assert(t[j] == e);
                } else if j == i {
                    assert(t[t.len() - 1] == e);
                } else {
                    assert(t[j - 1] == e);
                }
            }
            if t.contains(e) {
                let j = choose|j: int| 0 <= j < t.len() && t[j] == e;
                if j == t.len() - 1 {
                    assert(v.cached[i] == e);
                } else if j < i {
                    assert(v.cached[j] == e);
                } else {
                    assert(v.cached[j + 1] == e);
                }
            }
        }
    }
}

/// A download request: whether to fetch `url` as `key`, and the cache after.
pub open spec fn request_spec(v: ImageCacheView, key: Seq<char>, url: Seq<char>) -> (ImageCacheView, bool) {
    let safe = v.enabled && is_safe_url(url);
    if safe && entry_matches(v.cached, key, url) {
        (ImageCacheView { cached: touched(v.cached, key), ..v }, false)
    } else if safe && pending_url(v.in_flight, key) is None && v.in_flight.len() < MAX_PENDING_IMAGES {
        (
            ImageCacheView {
                cached: without_entry(v.cached, key),
                released: v.released + released(v.cached, key),
                in_flight: v.in_flight.push((key, url)),
                ..v
            },
            true,
        )
    } else {
        (v, false)
    }
}

/// The entry that a finished download of `url` for `key` becomes; `image`
/// is the size of the image that came back, if one did.
pub open spec fn finished_entry(v: ImageCacheView, key: Seq<char>, url: Seq<char>, image: Option<(u32, u32)>) -> EntryView {
    let ready = image is Some && v.enabled;
    EntryView {
        key,
        url,
        ready,
        kitty_id: if ready {
            Some(v.next_id)
        } else {
            None
        },
        size: if ready {
            image
        } else {
            None
        },
    }
}

/// The Kitty id handed out after `id`: the next one, skipping 0, which the
/// Kitty protocol reserves for images without an id.
pub open spec fn id_after(id: u32) -> u32 {
    if id == u32::MAX {
        1
    } else {
        (id + 1) as u32
    }
}

/// The first Kitty id of a cache made with `seed`: the seed itself, or 1 in
/// place of 0.
pub open spec fn first_id(seed: u32) -> u32 {
    if seed == 0 {
        1
    } else {
        seed
    }
}

/// The cache after the download of `url` for `key` finished (`image` is the
/// size of the image that came back, if one did); ignored unless exactly that
/// download is pending.
pub open spec fn complete_spec(v: ImageCacheView, key: Seq<char>, url: Seq<char>, image: Option<(u32, u32)>) -> ImageCacheView {
    if pending_url(v.in_flight, key) != Some(url) {
        v
    } else {
        let e = finished_entry(v, key, url, image);
        ImageCacheView {
            in_flight: without_pending(v.in_flight, key),
            cached: after_insert(v.cached, e),
            released: v.released + released_by_insert(v.cached, e),
            next_id: if e.ready {
                id_after(v.next_id)
            } else {
                v.next_id
            },
            enabled: v.enabled,
            font: v.font,
        }
    }
}

/// The cache after the source of `key` became `current` (`None`: no source):
/// a cached image from another source is dropped.
pub open spec fn source_updated_spec(v: ImageCacheView, key: Seq<char>, current: Option<Seq<char>>) -> ImageCacheView {
    let stale = match entry_index(v.cached, key) {
        Some(i) => current != Some(v.cached[i].url),
        None => false,
    };
    if stale {
        ImageCacheView { cached: without_entry(v.cached, key), released: v.released + released(v.cached, key), ..v }
    } else {
        v
    }
}

/// The size of a finished download's image, if one came back.
pub open spec fn raster_size(image: Option<RasterImage>) -> Option<(u32, u32)> {
    match image {
        Some(i) => Some(i.size()),
        None => None,
    }
}

/// The cell size of the cached image for `key` scaled into `max_width` by
/// `max_height` cells at the cache's font.
pub open spec fn preview_cells(v: ImageCacheView, key: Seq<char>, max_width: u16, max_height: u16) -> (u16, u16) {
    let size = v.cached[entry_index(v.cached, key)->0].size->0;
    cells_for(size.0, size.1, v.font.0, v.font.1, max_width, max_height)
}

/// The drawable image of an entry agrees with it: present exactly when the
/// entry is ready, with the entry's Kitty id and image size, at `font`.
spec fn image_matches(p: Option<KittyImage>, e: CacheEntry, font: (u16, u16)) -> bool {
    match p {
        Some(k) => e.ready && e.kitty_id == Some(k.id) && e.size == Some((k.width, k.height)) && k.font == font,
        None => !e.ready,
    }
}

/// A bounded terminal-image cache.
pub struct ImageCache {
    picker: Option<Picker>,
    entries: Vec<CacheEntry>,
    protocols: Vec<Option<KittyImage>>,
    pending: Vec<(String, String)>,
    deleted_ids: Vec<u32>,
    next_id: u32,
    font: (u16, u16),
}

/// Everything the cache holds, as values.
pub struct ImageCacheView {
    pub enabled: bool,
    pub cached: Seq<EntryView>,
    pub in_flight: Seq<(Seq<char>, Seq<char>)>,
    pub released: Seq<u32>,
    pub next_id: u32,
    pub font: (u16, u16),
}

impl View for ImageCache {
    type V = ImageCacheView;

    open spec fn view(&self) -> ImageCacheView {
        ImageCacheView {
            enabled: self.enabled(),
            cached: self.cached(),
            in_flight: self.in_flight(),
            released: self.released_ids(),
            next_id: self.next_image_id(),
            font: self.font_size(),
        }
    }
}

impl ImageCache {
    /// Whether images are shown at all.
    pub closed spec fn enabled(&self) -> bool {
        self.picker is Some
    }

    /// The cached images, least recently used first.
    pub closed spec fn cached(&self) -> Seq<EntryView> {
        entry_views(self.entries@)
    }

    /// The downloads in flight, as (key, url).
    pub closed spec fn in_flight(&self) -> Seq<(Seq<char>, Seq<char>)> {
        pending_views(self.pending@)
    }

    /// Kitty ids of dropped images, not yet handed out.
    pub closed spec fn released_ids(&self) -> Seq<u32> {
        self.deleted_ids@
    }

    /// The Kitty id the next image gets.
    pub closed spec fn next_image_id(&self) -> u32 {
        self.next_id
    }

    /// The font size, in pixels, of the cells images are drawn in.
    pub closed spec fn font_size(&self) -> (u16, u16) {
        self.font
    }

    /// The drawable image kept for `key`.
    pub closed spec fn drawable(&self, key: Seq<char>) -> StatefulProtocol {
        match entry_index(self.cached(), key) {
            Some(i) => self.protocols@[i]->0.protocol,
            None => arbitrary(),
        }
    }

    /// Each entry has a drawable image exactly when it is ready, made with the
    /// entry's Kitty id from an image of the entry's size, at the cache's font.
    pub closed spec fn protocols_match(&self) -> bool {
        &&& self.protocols@.len() == self.entries@.len()
        &&& forall|i: int| 0 <= i < self.entries@.len() ==> image_matches(#[trigger] self.protocols@[i], self.entries@[i], self.font)
    }

    /// Keys are distinct, images match their entries, and both bounds hold.
    pub open spec fn well_formed(&self) -> bool {
        &&& self.protocols_match()
        &&& distinct_entry_keys(self.cached())
        &&& distinct_pending_keys(self.in_flight())
        &&& self.cached().len() <= MAX_CACHED_IMAGES
        &&& self.in_flight().len() <= MAX_PENDING_IMAGES
        &&& self.next_image_id() != 0
    }

    /// A cache that shows no images and never schedules a download.
    pub fn disabled() -> (r: ImageCache)
        ensures
            r.well_formed(),
            !r.enabled(),
            r.cached() == Seq::<EntryView>::empty(),
            r.in_flight() == Seq::<(Seq<char>, Seq<char>)>::empty(),
            r.released_ids() == Seq::<u32>::empty(),
    {
        let r = ImageCache {
            picker: None,
            entries: Vec::new(),
            protocols: Vec::new(),
            pending: Vec::new(),
            deleted_ids: Vec::new(),
            next_id: 1,
            font: (0, 0),
        };
        assert(entry_views(r.entries@) =~= Seq::<EntryView>::empty());
        assert(pending_views(r.pending@) =~= Seq::<(Seq<char>, Seq<char>)>::empty());
        r
    }

    /// An empty cache that shows images through the Kitty protocol of `picker`.
    /// Its images get consecutive Kitty ids from `seed` on; a seed drawn at
    /// random keeps them apart from the images of other programs in the
    /// same terminal.
    pub fn with_picker(picker: Picker, seed: u32) -> (r: ImageCache)
        ensures
            r.well_formed(),
            r.enabled(),
            r.cached() == Seq::<EntryView>::empty(),
            r.in_flight() == Seq::<(Seq<char>, Seq<char>)>::empty(),
            r.released_ids() == Seq::<u32>::empty(),
            r.next_image_id() == first_id(seed),
    {
        let font = picker_font_size(&picker);
        let r = ImageCache {
            picker: Some(picker),
            entries: Vec::new(),
            protocols: Vec::new(),
            pending: Vec::new(),
            deleted_ids: Vec::new(),
            next_id: if seed == 0 {
                1
            } else {
                seed
            },
            font,
        };
        assert(entry_views(r.entries@) =~= Seq::<EntryView>::empty());
        assert(pending_views(r.pending@) =~= Seq::<(Seq<char>, Seq<char>)>::empty());
        r
    }

    /// Whether images are shown at all.
    pub fn is_enabled(&self) -> (r: bool)
        ensures
            r == self.enabled(),
    {
        self.picker.is_some()
    }

    /// The number of cached images.
    pub fn cached_count(&self) -> (r: usize)
        ensures
            r == self.cached().len(),
    {
        self.entries.len()
    }

    /// The number of downloads in flight.
    pub fn pending_count(&self) -> (r: usize)
        ensures
            r == self.in_flight().len(),
    {
        self.pending.len()
    }

    /// The number of Kitty ids waiting to be deleted.
    pub fn released_count(&self) -> (r: usize)
        ensures
            r == self.released_ids().len(),
    {
        self.deleted_ids.len()
    }
}

impl ImageCache {
    /// The position of the entry for `key`.
    fn find_entry(&self, key: &String) -> (r: Option<usize>)
        ensures
            match entry_index(self.cached(), key@) {
                Some(i) => 0 <= i < self.entries.len() && r == Some(i as usize),
                None => r is None,
            },
            match r {
                Some(i) => {
                    &&& i < self.entries@.len()
                    &&& self.cached()[i as int].key == key@
                    &&& self.cached()[i as int].url == self.entries@[i as int].url@
                    &&& self.cached()[i as int].ready == self.entries@[i as int].ready
                },
                None => true,
            },
    {
        proof {
            lemma_entry_index(self.cached(), key@);
            assert forall|j: int| 0 <= j < self.entries@.len() implies #[trigger] self.cached()[j] == (EntryView {
                key: self.entries@[j].key@,
                url: self.entries@[j].url@,
                ready: self.entries@[j].ready,
                kitty_id: self.entries@[j].kitty_id,
                size: self.entries@[j].size,
            }) by {}
        }
        let ghost all = self.cached();
        let mut i: usize = self.entries.len();
        assert(all.take(i as int) =~= all);
        while i > 0
            invariant
                i <= self.entries@.len(),
                all == self.cached(),
                entry_index(all, key@) == entry_index(all.take(i as int), key@),
            decreases i,
        {
            assert(all.take(i as int).drop_last() =~= all.take(i - 1));
            assert(all.take(i as int).last() == all[i - 1]);
            if self.entries[i - 1].key == *key {
                return Some(i - 1);
            }
            i = i - 1;
        }
        None
    }

    /// The position of the download pending for `key`.
    fn find_pending(&self, key: &String) -> (r: Option<usize>)
        ensures
            match pending_url(self.in_flight(), key@) {
                Some(u) => r is Some && r->0 < self.in_flight().len() && self.in_flight()[r->0 as int] == (key@, u),
                None => r is None,
            },
    {
        let ghost all = self.in_flight();
        let mut i: usize = self.pending.len();
        assert(all.take(i as int) =~= all);
        while i > 0
            invariant
                i <= self.pending@.len(),
                all == self.in_flight(),
                pending_url(all, key@) == pending_url(all.take(i as int), key@),
            decreases i,
        {
            assert(all.take(i as int).drop_last() =~= all.take(i - 1));
            assert(all.take(i as int).last() == all[i - 1]);
            if self.pending[i - 1].0 == *key {
                return Some(i - 1);
            }
            i = i - 1;
        }
        None
    }

    /// Drops the entry for `key`, releasing its Kitty id.
    fn remove_entry(&mut self, key: &String)
        requires
            old(self).well_formed(),
        ensures
            final(self).well_formed(),
            final(self).cached() == without_entry(old(self).cached(), key@),
            final(self).released_ids() == old(self).released_ids() + released(old(self).cached(), key@),
            final(self).in_flight() == old(self).in_flight(),
            final(self).enabled() == old(self).enabled(),
            final(self).next_image_id() == old(self).next_image_id(),
            final(self).font_size() == old(self).font_size(),
    {
        proof {
            lemma_without_entry(self.cached(), key@);
            lemma_entry_index(self.cached(), key@);
        }
        match self.find_entry(key) {
            Some(i) => {
                let ghost before = self.entries@;
                let ghost before_p = self.protocols@;
                let entry = self.entries.remove(i);
                self.protocols.remove(i);
                assert(entry_views(self.entries@) =~= entry_views(before).remove(i as int));
                assert forall|j: int| 0 <= j < self.entries@.len() implies image_matches(#[trigger] self.protocols@[j], self.entries@[j], self.font) by {
                    let j2 = if j < i { j } else { j + 1 };
                    assert(self.protocols@[j] == before_p[j2] && self.entries@[j] == before[j2]);
                }
                match entry.kitty_id {
                    Some(id) => {
                        self.deleted_ids.push(id);
                    },
                    None => {},
                }
                proof {
                    let v = self.cached();
                    assert forall|a: int, b: int| 0 <= a < b < v.len() implies #[trigger] v[a].key != #[trigger] v[b].key by {
                        let a2 = if a < i { a } else { a + 1 };
                        let b2 = if b < i { b } else { b + 1 };
                        assert(v[a] == entry_views(before)[a2] && v[b] == entry_views(before)[b2]);
                    }
                }
                assert(self.released_ids() =~= old(self).released_ids() + released(old(self).cached(), key@));
            },
            None => {
                assert(self.released_ids() =~= old(self).released_ids() + released(old(self).cached(), key@));
            },
        }
    }

    /// Marks the entry at `i` as the most recently used.
    fn touch_at(&mut self, i: usize)
        requires
            old(self).well_formed(),
            i < old(self).cached().len(),
        ensures
            final(self).well_formed(),
            final(self).cached() == touched(old(self).cached(), old(self).cached()[i as int].key),
            final(self).protocols@.len() == old(self).protocols@.len(),
            final(self).protocols@[final(self).protocols@.len() - 1] == old(self).protocols@[i as int],
            final(self).released_ids() == old(self).released_ids(),
            final(self).in_flight() == old(self).in_flight(),
            final(self).enabled() == old(self).enabled(),
            final(self).next_image_id() == old(self).next_image_id(),
            final(self).font_size() == old(self).font_size(),
    {
        let ghost before = self.entries@;
        let ghost key = self.cached()[i as int].key;
        proof {
            lemma_entry_index(self.cached(), key);
            lemma_without_entry(self.cached(), key);
            if entry_index(self.cached(), key) != Some(i as int) {
                match entry_index(self.cached(), key) {
                    Some(j) => {
                        if j < i {
                            assert(self.cached()[j].key != self.cached()[i as int].key);
                        } else {
                            assert(self.cached()[j].key != self.cached()[i as int].key);
                        }
                    },
                    None => {},
                }
            }
        }
        let ghost before_p = self.protocols@;
        let entry = self.entries.remove(i);
        self.entries.push(entry);
        let protocol = self.protocols.remove(i);
        self.protocols.push(protocol);
        assert(entry_views(self.entries@) =~= entry_views(before).remove(i as int).push(entry_views(before)[i as int]));
        assert forall|j: int| 0 <= j < self.entries@.len() implies image_matches(#[trigger] self.protocols@[j], self.entries@[j], self.font) by {
            if j == self.entries@.len() - 1 {
                assert(self.protocols@[j] == before_p[i as int] && self.entries@[j] == before[i as int]);
            } else {
                let j2 = if j < i { j } else { j + 1 };
                assert(self.protocols@[j] == before_p[j2] && self.entries@[j] == before[j2]);
            }
        }
        proof {
            let v = self.cached();
            let w = entry_views(before).remove(i as int);
            assert forall|a: int, b: int| 0 <= a < b < v.len() implies #[trigger] v[a].key != #[trigger] v[b].key by {
                if b == v.len() - 1 {
                    assert(v[b] == entry_views(before)[i as int]);
                    assert(v[a] == w[a]);
                } else {
                    assert(v[a] == w[a] && v[b] == w[b]);
                }
            }
        }
    }

    /// Drops least recently used entries until at most `MAX_CACHED_IMAGES` remain.
    fn evict_to_limit(&mut self)
        requires
            old(self).protocols_match(),
            distinct_entry_keys(old(self).cached()),
            distinct_pending_keys(old(self).in_flight()),
            old(self).in_flight().len() <= MAX_PENDING_IMAGES,
            old(self).cached().len() <= MAX_CACHED_IMAGES + 1,
            old(self).next_image_id() != 0,
        ensures
            final(self).well_formed(),
            final(self).cached() == if old(self).cached().len() > MAX_CACHED_IMAGES {
                old(self).cached().drop_first()
            } else {
                old(self).cached()
            },
            final(self).released_ids() == old(self).released_ids() + if old(self).cached().len() > MAX_CACHED_IMAGES {
                ids_of(old(self).cached()[0])
            } else {
                seq![]
            },
            final(self).in_flight() == old(self).in_flight(),
            final(self).enabled() == old(self).enabled(),
            final(self).next_image_id() == old(self).next_image_id(),
            final(self).font_size() == old(self).font_size(),
    {
        let ghost before = self.cached();
        let ghost ids = self.released_ids();
        while self.entries.len() > MAX_CACHED_IMAGES
            invariant
                self.protocols_match(),
                distinct_entry_keys(self.cached()),
                distinct_pending_keys(self.in_flight()),
                self.in_flight() == old(self).in_flight(),
                self.in_flight().len() <= MAX_PENDING_IMAGES,
                self.enabled() == old(self).enabled(),
                self.next_image_id() == old(self).next_image_id(),
                self.font_size() == old(self).font_size(),
                before == old(self).cached(),
                before.len() <= MAX_CACHED_IMAGES + 1,
                ids == old(self).released_ids(),
                (self.cached() == before && self.released_ids() == ids) || (before.len() > MAX_CACHED_IMAGES
                    && self.cached() == before.drop_first() && self.released_ids() == ids + ids_of(before[0])),
                self.cached().len() <= MAX_CACHED_IMAGES + 1,
            decreases self.entries.len(),
        {
            let ghost here = self.entries@;
            let ghost here_p = self.protocols@;
            assert(self.cached() == before);
            assert(self.released_ids() == ids);
            assert(before[0] == entry_views(here)[0]);
            let entry = self.entries.remove(0);
            self.protocols.remove(0);
            assert forall|j: int| 0 <= j < self.entries@.len() implies image_matches(#[trigger] self.protocols@[j], self.entries@[j], self.font) by {
                assert(self.protocols@[j] == here_p[j + 1] && self.entries@[j] == here[j + 1]);
            }
            assert(entry_views(self.entries@) =~= entry_views(here).drop_first());
            match entry.kitty_id {
                Some(id) => {
                    self.deleted_ids.push(id);
                },
                None => {},
            }
            assert(self.released_ids() =~= ids + ids_of(before[0]));
            proof {
                let v = self.cached();
                assert forall|a: int, b: int| 0 <= a < b < v.len() implies #[trigger] v[a].key != #[trigger] v[b].key by {
                    assert(v[a] == entry_views(here)[a + 1] && v[b] == entry_views(here)[b + 1]);
                }
            }
        }
        assert(self.released_ids() =~= ids + seq![] || self.released_ids() == ids + ids_of(before[0]));
    }
}

impl ImageCache {
    /// Asks to download `url` as the image `key`. True means the caller should
    /// fetch it: images are enabled, the url is a safe https link, the key does
    /// not already hold that url, nothing is pending for the key, and fewer than
    /// `MAX_PENDING_IMAGES` downloads are in flight. A cached hit is marked as
    /// recently used instead.
    pub fn request(&mut self, key: &str, url: &str) -> (r: bool)
        requires
            old(self).well_formed(),
        ensures
            final(self).well_formed(),
            (final(self)@, r) == request_spec(old(self)@, key@, url@),
    {
        if !self.is_enabled() || !is_safe_https_url(url) {
            return false;
        }
        let key: String = key.to_owned();
        let url: String = url.to_owned();
        match self.find_entry(&key) {
            Some(i) => {
                if self.entries[i].url == url {
                    proof {
                        lemma_entry_index(self.cached(), key@);
                    }
                    self.touch_at(i);
                    return false;
                }
            },
            None => {},
        }
        let pending = self.find_pending(&key);
        if pending.is_some() || self.pending.len() >= MAX_PENDING_IMAGES {
            return false;
        }
        self.remove_entry(&key);
        let ghost before = self.pending@;
        let ghost kv = (key@, url@);
        proof {
            lemma_pending_url(self.in_flight(), key@);
        }
        self.pending.push((key, url));
        assert(pending_views(self.pending@) =~= pending_views(before).push(kv));
        proof {
            let v = self.in_flight();
            assert forall|a: int, b: int| 0 <= a < b < v.len() implies #[trigger] v[a].0 != #[trigger] v[b].0 by {
                if b == v.len() - 1 {
                    assert(v[a] == pending_views(before)[a]);
                }
            }
        }
        true
    }

    /// Stores the result of the download of `url` for `key`. Ignored unless
    /// exactly that download is pending; a missing image is kept as a
    /// negative entry.
    pub fn complete(&mut self, key: String, url: String, image: Option<RasterImage>)
        requires
            old(self).well_formed(),
        ensures
            final(self).well_formed(),
            final(self)@ == complete_spec(old(self)@, key@, url@, raster_size(image)),
    {
        let found = self.find_pending(&key);
        let position = match found {
            Some(p) => p,
            None => {
                return;
            },
        };
        if self.pending[position].1 != url {
            return;
        }
        proof {
            lemma_without_pending_at(self.in_flight(), key@, position as int);
        }
        let ghost before = self.pending@;
        self.pending.remove(position);
        assert(pending_views(self.pending@) =~= pending_views(before).remove(position as int));
        proof {
            lemma_without_pending(pending_views(before), key@);
        }
        let ghost given = raster_size(image);
        let mut kitty_id: Option<u32> = None;
        let mut size: Option<(u32, u32)> = None;
        let font = self.font;
        let protocol = match image {
            Some(image) => match &self.picker {
                Some(picker) => {
                    let id = self.next_id;
                    kitty_id = Some(id);
                    size = Some((image.width(), image.height()));
                    self.next_id = if id == u32::MAX {
                        1
                    } else {
                        id + 1
                    };
                    Some(kitty_image(picker, image, id, font))
                },
                None => None,
            },
            None => None,
        };
        self.remove_entry(&key);
        let ghost e = EntryView { key: key@, url: url@, ready: protocol is Some, kitty_id, size };
        assert(e == finished_entry(old(self)@, key@, url@, given));
        let ghost mid = self.entries@;
        proof {
            lemma_without_entry(old(self).cached(), key@);
        }
        let ready = protocol.is_some();
        let ghost mid_p = self.protocols@;
        self.entries.push(CacheEntry { key, url, ready, kitty_id, size });
        self.protocols.push(protocol);
        assert(entry_views(self.entries@) =~= entry_views(mid).push(e));
        assert forall|j: int| 0 <= j < self.entries@.len() implies image_matches(#[trigger] self.protocols@[j], self.entries@[j], self.font) by {
            if j < mid.len() {
                assert(self.protocols@[j] == mid_p[j] && self.entries@[j] == mid[j]);
            }
        }
        proof {
            let v = self.cached();
            assert forall|a: int, b: int| 0 <= a < b < v.len() implies #[trigger] v[a].key != #[trigger] v[b].key by {
                if b == v.len() - 1 {
                    assert(v[a] == entry_views(mid)[a]);
                }
            }
        }
        self.evict_to_limit();
        assert(self.released_ids() =~= old(self).released_ids() + released_by_insert(old(self).cached(), e));
    }

    /// Drops the image `key` when its source no longer is `current_url`.
    pub fn source_updated(&mut self, key: &str, current_url: Option<&str>)
        requires
            old(self).well_formed(),
        ensures
            final(self).well_formed(),
            final(self)@ == source_updated_spec(
                old(self)@,
                key@,
                match current_url {
                    Some(u) => Some(u@),
                    None => None,
                },
            ),
    {
        let key: String = key.to_owned();
        match self.find_entry(&key) {
            Some(i) => {
                let stale = match current_url {
                    Some(u) => {
                        let u: String = u.to_owned();
                        self.entries[i].url != u
                    },
                    None => true,
                };
                if stale {
                    self.remove_entry(&key);
                }
            },
            None => {},
        }
    }

    /// Whether the image `key` is cached for `url` and can be drawn.
    pub fn has_protocol(&self, key: &str, url: &str) -> (r: bool)
        ensures
            r == entry_ready(self.cached(), key@, url@),
    {
        let key_text: String = key.to_owned();
        let url_text: String = url.to_owned();
        let found = self.find_entry(&key_text);
        match found {
            Some(i) => {
                let same = self.entries[i].url == url_text;
                let ready = self.entries[i].ready;
                assert(same == (self.cached()[i as int].url == url@));
                assert(ready == self.cached()[i as int].ready);
                same && ready
            },
            None => false,
        }
    }

    /// The drawable image `key` for `url`, marked as recently used.
    pub fn protocol_mut(&mut self, key: &str, url: &str) -> (r: Option<&mut StatefulProtocol>)
        requires
            old(self).well_formed(),
        ensures
            r is Some == entry_ready(old(self).cached(), key@, url@),
            r matches Some(p) ==> *p == old(self).drawable(key@) && final(self).drawable(key@) == *final(p),
            final(self).well_formed(),
            final(self)@ == if entry_ready(old(self).cached(), key@, url@) {
                ImageCacheView { cached: touched(old(self).cached(), key@), ..old(self)@ }
            } else {
                old(self)@
            },
    {
        let key_text: String = key.to_owned();
        let url_text: String = url.to_owned();
        let found = self.find_entry(&key_text);
        let i = match found {
            Some(i) => i,
            None => {
                return None;
            },
        };
        if !(self.entries[i].url == url_text && self.entries[i].ready) {
            return None;
        }
        let ghost entry = self.cached()[i as int];
        self.touch_at(i);
        proof {
            lemma_entry_index(old(self).cached(), key@);
            lemma_without_entry(old(self).cached(), key@);
        }
        let last = self.entries.len() - 1;
        assert(self.cached()[last as int] == entry);
        proof {
            assert(image_matches(self.protocols@[last as int], self.entries@[last as int], self.font));
            lemma_entry_index(old(self).cached(), key@);
            assert(self.protocols@[last as int] == old(self).protocols@[i as int]);
        }
        match &mut self.protocols[last] {
            Some(k) => Some(&mut k.protocol),
            None => None,
        }
    }

    /// The cell size of the image `key` for `url` scaled into `max_width` by
    /// `max_height` cells, when it is cached and drawable.
    pub fn preview_size(&self, key: &str, url: &str, max_width: u16, max_height: u16) -> (r: Option<(u16, u16)>)
        requires
            self.well_formed(),
        ensures
            r == if entry_ready(self.cached(), key@, url@) {
                Some(preview_cells(self@, key@, max_width, max_height))
            } else {
                None
            },
    {
        proof {
            lemma_entry_index(self.cached(), key@);
        }
        let key_text: String = key.to_owned();
        let url_text: String = url.to_owned();
        let found = self.find_entry(&key_text);
        match found {
            Some(i) => {
                if self.entries[i].url != url_text {
                    return None;
                }
                proof {
                    assert(image_matches(self.protocols@[i as int], self.entries@[i as int], self.font));
                    assert(self.cached()[i as int] == entry_views(self.entries@)[i as int]);
                }
                match &self.protocols[i] {
                    Some(k) => Some(scaled_size(k, max_width, max_height)),
                    None => None,
                }
            },
            None => None,
        }
    }

    /// Hands out the Kitty ids of dropped images, forgetting them.
    pub fn take_deleted_ids(&mut self) -> (r: Vec<u32>)
        requires
            old(self).well_formed(),
        ensures
            final(self).well_formed(),
            r@ == old(self).released_ids(),
            final(self).released_ids() == Seq::<u32>::empty(),
            final(self).cached() == old(self).cached(),
            final(self).in_flight() == old(self).in_flight(),
            final(self).enabled() == old(self).enabled(),
            final(self).next_image_id() == old(self).next_image_id(),
            final(self).font_size() == old(self).font_size(),
    {
        let mut ids: Vec<u32> = Vec::new();
        std::mem::swap(&mut ids, &mut self.deleted_ids);
        ids
    }

    /// Drops every image and pending download, releasing all Kitty ids.
    pub fn clear(&mut self)
        requires
            old(self).well_formed(),
        ensures
            final(self).well_formed(),
            final(self).cached() == Seq::<EntryView>::empty(),
            final(self).in_flight() == Seq::<(Seq<char>, Seq<char>)>::empty(),
            final(self).released_ids() == old(self).released_ids() + all_ids(old(self).cached()),
            final(self).enabled() == old(self).enabled(),
            final(self).next_image_id() == old(self).next_image_id(),
            final(self).font_size() == old(self).font_size(),
    {
        let ghost all = self.cached();
        let ghost ids0 = self.released_ids();
        let mut k: usize = 0;
        assert(all.take(0) =~= Seq::<EntryView>::empty());
        while k < self.entries.len()
            invariant
                k <= self.entries@.len(),
                all == self.cached(),
                self.released_ids() == ids0 + all_ids(all.take(k as int)),
                self.entries == old(self).entries,
                self.enabled() == old(self).enabled(),
                self.next_image_id() == old(self).next_image_id(),
                self.font_size() == old(self).font_size(),
                self.in_flight() == old(self).in_flight(),
            decreases self.entries.len() - k,
        {
            assert(all.take(k + 1).drop_last() =~= all.take(k as int));
            assert(all.take(k + 1).last() == all[k as int]);
            assert(all[k as int] == entry_views(self.entries@)[k as int]);
            match self.entries[k].kitty_id {
                Some(id) => {
                    self.deleted_ids.push(id);
                },
                None => {},
            }
            assert(self.released_ids() =~= ids0 + all_ids(all.take(k + 1)));
            k = k + 1;
        }
        assert(all.take(k as int) =~= all);
        self.entries = Vec::new();
        self.protocols = Vec::new();
        self.pending = Vec::new();
        assert(entry_views(self.entries@) =~= Seq::<EntryView>::empty());
        assert(pending_views(self.pending@) =~= Seq::<(Seq<char>, Seq<char>)>::empty());
    }
}

} // verus!
