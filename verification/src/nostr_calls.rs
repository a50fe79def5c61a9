//! Calls into the `nostr-sdk` crate: key and identifier encodings, NIP-21 URIs,
//! tag standardization and signed-event decoding.

use vstd::prelude::*;

use crate::event::{Event, EventView};
use crate::text::opt_chars;

use nostr_sdk::nips::nip10::Marker;
use nostr_sdk::nips::nip21::Nip21;
use nostr_sdk::{EventId, JsonUtil, PublicKey, Tag, TagStandard, Tags, ToBech32};

verus! {

/// The NIP-10 marker of an `e` tag.
#[derive(PartialEq, Eq, Structural, Clone, Copy, Debug)]
pub enum ThreadMarker {
    Root,
    Reply,
}

/// What a NIP-21 `nostr:` URI refers to; keys and ids are lowercase hex.
pub enum NostrUri {
    Pubkey(String),
    Profile(String),
    Note(String),
    Event(String),
    Address,
}

/// The mathematical value of a [`NostrUri`].
pub enum NostrUriView {
    Pubkey(Seq<char>),
    Profile(Seq<char>),
    Note(Seq<char>),
    Event(Seq<char>),
    Address,
}

impl View for NostrUri {
    type V = NostrUriView;

    open spec fn view(&self) -> NostrUriView {
        match self {
            NostrUri::Pubkey(k) => NostrUriView::Pubkey(k@),
            NostrUri::Profile(k) => NostrUriView::Profile(k@),
            NostrUri::Note(i) => NostrUriView::Note(i@),
            NostrUri::Event(i) => NostrUriView::Event(i@),
            NostrUri::Address => NostrUriView::Address,
        }
    }
}

/// The hex form of the public key that `PublicKey::parse` reads from `text`
/// (hex, `npub` or `nostr:` URI), or `None` where it fails.
pub uninterp spec fn public_key_from_text(text: Seq<char>) -> Option<Seq<char>>;

/// The `npub` encoding (`ToBech32::to_bech32`) of the key with hex form `hex`.
pub uninterp spec fn npub_of(hex: Seq<char>) -> Option<Seq<char>>;

/// The hex form of the event id that `EventId::parse` reads from `text`.
pub uninterp spec fn event_id_from_text(text: Seq<char>) -> Option<Seq<char>>;

/// The `note` encoding (`ToBech32::to_bech32`) of the event id with hex form `hex`.
pub uninterp spec fn note_of(hex: Seq<char>) -> Option<Seq<char>>;

/// What `Nip21::parse` reads from `uri`.
pub uninterp spec fn nip21_of(uri: Seq<char>) -> Option<NostrUriView>;

/// The event id and marker of a tag that `TagStandard` reads as an event reference.
pub uninterp spec fn event_reference_of(values: Seq<Seq<char>>) -> Option<(Seq<char>, Option<ThreadMarker>)>;

/// The first event id that `Tags::event_ids` yields for a tag list.
pub uninterp spec fn first_event_id_of(tags: Seq<Seq<Seq<char>>>) -> Option<Seq<char>>;

/// The event that `Event::from_json` decodes from `json`, with whether
/// `Event::verify` accepts its id and signature.
pub uninterp spec fn event_from_json(json: Seq<char>) -> Option<(EventView, bool)>;

/// `PublicKey::parse`: the key's hex form, or `None` where parsing fails.
#[verifier::external_body]
pub(crate) fn parse_public_key(text: &str) -> (r: Option<String>)
    ensures
        opt_chars(r) == public_key_from_text(text@),
{
    PublicKey::parse(text).ok().map(|key| key.to_hex())
}

/// `PublicKey::to_bech32` for the key whose hex form is `hex`.
#[verifier::external_body]
pub(crate) fn public_key_npub(hex: &str) -> (r: Option<String>)
    ensures
        opt_chars(r) == npub_of(hex@),
{
    PublicKey::from_hex(hex).ok().and_then(|key| key.to_bech32().ok())
}

/// `EventId::parse`: the id's hex form, or `None` where parsing fails.
#[verifier::external_body]
pub(crate) fn parse_event_id(text: &str) -> (r: Option<String>)
    ensures
        opt_chars(r) == event_id_from_text(text@),
{
    EventId::parse(text).ok().map(|id| id.to_hex())
}

/// `EventId::to_bech32` for the id whose hex form is `hex`.
#[verifier::external_body]
pub(crate) fn event_id_note(hex: &str) -> (r: Option<String>)
    ensures
        opt_chars(r) == note_of(hex@),
{
    EventId::from_hex(hex).ok().and_then(|id| id.to_bech32().ok())
}

/// `Nip21::parse`, each variant carried over with its key or id in hex.
#[verifier::external_body]
pub(crate) fn parse_nostr_uri(uri: &str) -> (r: Option<NostrUri>)
    ensures
        r matches Some(u) ==> nip21_of(uri@) == Some(u@),
        r is None ==> nip21_of(uri@) is None,
{
    match Nip21::parse(uri) {
        Ok(Nip21::Pubkey(key)) => Some(NostrUri::Pubkey(key.to_hex())),
        Ok(Nip21::Profile(profile)) => Some(NostrUri::Profile(profile.public_key.to_hex())),
        Ok(Nip21::EventId(id)) => Some(NostrUri::Note(id.to_hex())),
        Ok(Nip21::Event(event)) => Some(NostrUri::Event(event.event_id.to_hex())),
        Ok(Nip21::Coordinate(_)) => Some(NostrUri::Address),
        Err(_) => None,
    }
}

/// `Tag::as_standardized` on the tag with these values, where it yields
/// `TagStandard::Event`: the event id in hex and the NIP-10 marker.
#[verifier::external_body]
pub(crate) fn standardized_event_reference(values: &Vec<String>) -> (r: Option<(String, Option<ThreadMarker>)>)
    ensures
        r matches Some(p) ==> event_reference_of(values.deep_view()) == Some((p.0@, p.1)),
        r is None ==> event_reference_of(values.deep_view()) is None,
{
    let tag = match Tag::parse(values.clone()) {
        Ok(tag) => tag,
        Err(_) => return None,
    };
    match tag.as_standardized() {
        Some(TagStandard::Event { event_id, marker, .. }) => Some((
            event_id.to_hex(),
            match marker {
                Some(Marker::Root) => Some(ThreadMarker::Root),
                Some(Marker::Reply) => Some(ThreadMarker::Reply),
                None => None,
            },
        )),
        _ => None,
    }
}

/// The first item of `Tags::event_ids` for this tag list, in hex.
#[verifier::external_body]
pub(crate) fn first_tagged_event_id(tags: &Vec<Vec<String>>) -> (r: Option<String>)
    ensures
        opt_chars(r) == first_event_id_of(tags.deep_view()),
{
    match Tags::parse(tags.clone()) {
        Ok(tags) => tags.event_ids().next().map(|id| id.to_hex()),
        Err(_) => None,
    }
}

/// `Event::from_json`, with the result of `Event::verify` on what it decoded:
/// two outside calls chained, the second on the first's result, so the name
/// [`event_from_json`] covers both and still depends on `json` alone.
#[verifier::external_body]
pub(crate) fn decode_event_json(json: &str) -> (r: Option<(Event, bool)>)
    ensures
        r matches Some(p) ==> event_from_json(json@) == Some((p.0@, p.1)),
        r is None ==> event_from_json(json@) is None,
{
    let event = nostr_sdk::Event::from_json(json).ok()?;
    let valid = event.verify().is_ok();
    let tags = event.tags.iter().map(|tag| tag.as_slice().to_vec()).collect();
    let id = event.id.to_hex();
    let pubkey = event.pubkey.to_hex();
    let (created_at, kind) = (event.created_at.as_secs(), event.kind.as_u16());
    Some((Event { id, pubkey, created_at, kind, tags, content: event.content }, valid))
}

/// `text` itself, or its encoding where there is one.
pub open spec fn encoded_or(encoded: Option<Seq<char>>, text: Seq<char>) -> Seq<char> {
    match encoded {
        Some(e) => e,
        None => text,
    }
}

/// The `npub` form of the key with hex form `hex`, or the hex where it cannot
/// be encoded.
pub fn display_public_key(hex: &str) -> (r: String)
    ensures
        r@ == encoded_or(npub_of(hex@), hex@),
{
    match public_key_npub(hex) {
        Some(npub) => npub,
        None => hex.to_owned(),
    }
}

/// The `note` form of the event id with hex form `hex`, or the hex where it
/// cannot be encoded.
pub fn display_event_id(hex: &str) -> (r: String)
    ensures
        r@ == encoded_or(note_of(hex@), hex@),
{
    match event_id_note(hex) {
        Some(note) => note,
        None => hex.to_owned(),
    }
}

} // verus!
