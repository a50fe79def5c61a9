//! How events refer to one another: reposts (NIP-18) and replies (NIP-10).

use vstd::prelude::*;

use crate::event::{Event, EventView, KIND_GENERIC_REPOST, KIND_REPOST, KIND_TEXT_NOTE};
use crate::mentions::{indexed_tag_references, mention_indices_from};
use crate::nostr_calls::{
    decode_event_json, event_from_json, event_reference_of, first_event_id_of,
    first_tagged_event_id, standardized_event_reference, ThreadMarker,
};
use crate::text::opt_chars;

verus! {

/// The event is a repost of a note or of any other kind.
pub open spec fn is_repost_spec(e: EventView) -> bool {
    e.kind == KIND_REPOST || e.kind == KIND_GENERIC_REPOST
}

/// The event a repost points at: the first event id in its tags.
pub open spec fn repost_target_spec(e: EventView) -> Option<Seq<char>> {
    if is_repost_spec(e) {
        first_event_id_of(e.tags)
    } else {
        None
    }
}

/// The original event embedded as JSON in a repost's content: it must decode,
/// carry a valid id and signature, and match the tagged target when there is one.
pub open spec fn embedded_repost_spec(e: EventView) -> Option<EventView> {
    if !is_repost_spec(e) {
        None
    } else {
        match event_from_json(e.content) {
            Some((original, valid)) => if valid && (repost_target_spec(e) is None
                || repost_target_spec(e) == Some(original.id)) {
                Some(original)
            } else {
                None
            },
            None => None,
        }
    }
}

/// Among the first `n` tags, the first event reference marked `m`.
pub open spec fn first_marked(tags: Seq<Seq<Seq<char>>>, n: int, m: ThreadMarker) -> Option<Seq<char>>
    decreases n,
{
    if n <= 0 {
        None
    } else {
        match first_marked(tags, n - 1, m) {
            Some(id) => Some(id),
            None => match event_reference_of(tags[n - 1]) {
                Some((id, Some(mark))) => if mark == m {
                    Some(id)
                } else {
                    None
                },
                _ => None,
            },
        }
    }
}

/// Among the first `n` tags, the last unmarked event reference whose index is
/// not used by an indexed mention.
pub open spec fn last_unmarked(tags: Seq<Seq<Seq<char>>>, n: int, mentioned: Set<usize>) -> Option<Seq<char>>
    decreases n,
{
    if n <= 0 {
        None
    } else {
        match event_reference_of(tags[n - 1]) {
            Some((id, None)) => if !mentioned.contains((n - 1) as usize) {
                Some(id)
            } else {
                last_unmarked(tags, n - 1, mentioned)
            },
            _ => last_unmarked(tags, n - 1, mentioned),
        }
    }
}

/// The immediate parent of a text note: the first `reply`-marked reference, else
/// the first `root`-marked one, else the last unmarked one that is not an
/// indexed mention.
pub open spec fn reply_target_spec(e: EventView) -> Option<Seq<char>> {
    if e.kind != KIND_TEXT_NOTE {
        None
    } else {
        let n = e.tags.len() as int;
        match first_marked(e.tags, n, ThreadMarker::Reply) {
            Some(id) => Some(id),
            None => match first_marked(e.tags, n, ThreadMarker::Root) {
                Some(id) => Some(id),
                None => last_unmarked(e.tags, n, mention_indices_from(e.content, 0)),
            },
        }
    }
}

/// The event is a repost.
pub fn is_repost(event: &Event) -> (r: bool)
    ensures
        r == is_repost_spec(event@),
{
    event.kind == KIND_REPOST || event.kind == KIND_GENERIC_REPOST
}

/// The id of the event that a repost points at.
pub fn repost_target_id(event: &Event) -> (r: Option<String>)
    ensures
        opt_chars(r) == repost_target_spec(event@),
{
    if is_repost(event) {
        first_tagged_event_id(&event.tags)
    } else {
        None
    }
}

/// The original event embedded in a repost, when it is present and valid.
pub fn embedded_repost(event: &Event) -> (r: Option<Event>)
    ensures
        r matches Some(o) ==> embedded_repost_spec(event@) == Some(o@),
        r is None ==> embedded_repost_spec(event@) is None,
{
    if !is_repost(event) {
        return None;
    }
    let (original, valid) = match decode_event_json(event.content.as_str()) {
        Some(decoded) => decoded,
        None => return None,
    };
    if !valid {
        return None;
    }
    match repost_target_id(event) {
        None => Some(original),
        Some(target) => if target == original.id {
            Some(original)
        } else {
            None
        },
    }
}

/// `v` holds `x`.
pub fn contains_index(v: &Vec<usize>, x: usize) -> (r: bool)
    ensures
        r == v@.contains(x),
{
    let mut i: usize = 0;
    while i < v.len()
        invariant
            i <= v.len(),
            forall|j: int| 0 <= j < i ==> v@[j] != x,
        decreases v.len() - i,
    {
        if v[i] == x {
            return true;
        }
        i = i + 1;
    }
    false
}

/// Finds the immediate parent of a NIP-10 reply. Marked tags take precedence;
/// unmarked tags use the deprecated positional convention where the last `e`
/// tag is the event being replied to.
pub fn reply_target_id(event: &Event) -> (r: Option<String>)
    ensures
        opt_chars(r) == reply_target_spec(event@),
{
    if event.kind != KIND_TEXT_NOTE {
        return None;
    }
    let ghost tags = event.tags.deep_view();
    let mentioned = indexed_tag_references(event.content.as_str());
    let ghost mset = mention_indices_from(event.content@, 0);
    let mut reply: Option<String> = None;
    let mut root: Option<String> = None;
    let mut legacy: Option<String> = None;
    let mut i: usize = 0;
    while i < event.tags.len()
        invariant
            i <= event.tags.len(),
            tags == event.tags.deep_view(),
            forall|k: usize| mentioned@.contains(k) <==> mset.contains(k),
            opt_chars(reply) == first_marked(tags, i as int, ThreadMarker::Reply),
            opt_chars(root) == first_marked(tags, i as int, ThreadMarker::Root),
            opt_chars(legacy) == last_unmarked(tags, i as int, mset),
        decreases event.tags.len() - i,
    {
        assert(tags[i as int] == event.tags[i as int].deep_view());
        match standardized_event_reference(&event.tags[i]) {
            Some((id, marker)) => match marker {
                Some(ThreadMarker::Reply) => {
                    if reply.is_none() {
                        reply = Some(id);
                    }
                },
                Some(ThreadMarker::Root) => {
                    if root.is_none() {
                        root = Some(id);
                    }
                },
                None => {
                    if !contains_index(&mentioned, i) {
                        legacy = Some(id);
                    }
                },
            },
            None => {},
        }
        i = i + 1;
    }
    match reply {
        Some(id) => Some(id),
        None => match root {
            Some(id) => Some(id),
            None => legacy,
        },
    }
}

} // verus!
