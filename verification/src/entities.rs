//! NIP-21 `nostr:` URIs and bare `@npub1…` mentions inside note content.

use vstd::prelude::*;

use crate::mentions::nostr_scheme;
use crate::nostr_calls::{nip21_of, parse_nostr_uri, parse_public_key, public_key_from_text, NostrUri, NostrUriView};
use crate::text::{find_exec, find_from, lemma_find_from, matches_at, matches_at_exec, push_range, string_of};

verus! {

/// What a content entity refers to; keys and ids are lowercase hex.
pub enum EntityKind {
    Pubkey(String),
    Event(String),
}

/// The mathematical value of an [`EntityKind`].
pub enum EntityKindView {
    Pubkey(Seq<char>),
    Event(Seq<char>),
}

impl View for EntityKind {
    type V = EntityKindView;

    open spec fn view(&self) -> EntityKindView {
        match self {
            EntityKind::Pubkey(k) => EntityKindView::Pubkey(k@),
            EntityKind::Event(i) => EntityKindView::Event(i@),
        }
    }
}

/// A reference found in content: the character range it covers and what it names.
pub struct ContentEntity {
    pub start: usize,
    pub end: usize,
    pub kind: EntityKind,
}

/// The mathematical value of a [`ContentEntity`].
pub struct ContentEntityView {
    pub start: int,
    pub end: int,
    pub kind: EntityKindView,
}

impl View for ContentEntity {
    type V = ContentEntityView;

    open spec fn view(&self) -> ContentEntityView {
        ContentEntityView { start: self.start as int, end: self.end as int, kind: self.kind@ }
    }
}

/// The values of a list of entities.
pub open spec fn entity_views(v: Seq<ContentEntity>) -> Seq<ContentEntityView> {
    v.map_values(|e: ContentEntity| e@)
}

/// The characters `@npub1`.
pub open spec fn at_npub() -> Seq<char> {
    seq!['@', 'n', 'p', 'u', 'b', '1']
}

/// A character that continues an entity token: a lowercase ASCII letter or a
/// digit, and a colon inside `nostr:` URIs.
pub open spec fn token_char(c: char, colon: bool) -> bool {
    ('a' <= c && c <= 'z') || ('0' <= c && c <= '9') || (colon && c == ':')
}

/// The end of the run of token characters that starts at `i`.
pub open spec fn token_end(c: Seq<char>, i: int, colon: bool) -> int
    decreases c.len() - i,
{
    if 0 <= i < c.len() && token_char(c[i], colon) {
        token_end(c, i + 1, colon)
    } else {
        i
    }
}

/// A token run never ends before it starts, nor after the text.
pub proof fn lemma_token_end(c: Seq<char>, i: int, colon: bool)
    requires
        0 <= i <= c.len(),
    ensures
        i <= token_end(c, i, colon) <= c.len(),
        i < c.len() && token_char(c[i], colon) ==> i < token_end(c, i, colon),
        forall|j: int| i <= j < token_end(c, i, colon) ==> token_char(#[trigger] c[j], colon),
        token_end(c, i, colon) < c.len() ==> !token_char(c[token_end(c, i, colon)], colon),
    decreases c.len() - i,
{
    if 0 <= i < c.len() && token_char(c[i], colon) {
        lemma_token_end(c, i + 1, colon);
    }
}

/// Where the next candidate starts: the earlier of `nostr:` and `@npub1`.
pub open spec fn next_candidate(c: Seq<char>, cursor: int) -> Option<int> {
    match (find_from(c, nostr_scheme(), cursor), find_from(c, at_npub(), cursor)) {
        (Some(a), Some(b)) => Some(if a <= b { a } else { b }),
        (Some(a), None) => Some(a),
        (None, Some(b)) => Some(b),
        (None, None) => None,
    }
}

/// What the candidate at `start` names: a bare `@npub1…` token is read as a key;
/// a `nostr:` token names a key (`npub`, `nprofile`) or an event (`note`,
/// `nevent`), and an address (`naddr`) is not an entity.
pub open spec fn candidate_kind(c: Seq<char>, start: int) -> Option<EntityKindView> {
    if matches_at(c, at_npub(), start) {
        let token = c.subrange(start + 1, token_end(c, start + 1, false));
        match public_key_from_text(token) {
            Some(k) => Some(EntityKindView::Pubkey(k)),
            None => None,
        }
    } else {
        match nip21_of(c.subrange(start, token_end(c, start, true))) {
            Some(NostrUriView::Pubkey(k)) => Some(EntityKindView::Pubkey(k)),
            Some(NostrUriView::Profile(k)) => Some(EntityKindView::Pubkey(k)),
            Some(NostrUriView::Note(i)) => Some(EntityKindView::Event(i)),
            Some(NostrUriView::Event(i)) => Some(EntityKindView::Event(i)),
            _ => None,
        }
    }
}

/// Where the candidate at `start` ends.
pub open spec fn candidate_end(c: Seq<char>, start: int) -> int {
    if matches_at(c, at_npub(), start) {
        token_end(c, start + 1, false)
    } else {
        token_end(c, start, true)
    }
}

/// A candidate position lies inside the text and the token there is non-empty.
pub proof fn lemma_candidate(c: Seq<char>, cursor: int)
    requires
        0 <= cursor <= c.len(),
    ensures
        next_candidate(c, cursor) matches Some(s) ==> {
            &&& cursor <= s < c.len()
            &&& s < candidate_end(c, s) <= c.len()
            &&& (matches_at(c, at_npub(), s) ==> s + 1 < candidate_end(c, s))
            &&& (matches_at(c, at_npub(), s) || matches_at(c, nostr_scheme(), s))
        },
{
    lemma_find_from(c, nostr_scheme(), cursor);
    lemma_find_from(c, at_npub(), cursor);
    if let Some(s) = next_candidate(c, cursor) {
        if matches_at(c, at_npub(), s) {
            assert(c.subrange(s, s + 6)[1] == at_npub()[1]);
            assert(c[s + 1] == 'n');
            lemma_token_end(c, s + 1, false);
        } else {
            if find_from(c, nostr_scheme(), cursor) == Some(s) {
                assert(c.subrange(s, s + 6)[0] == nostr_scheme()[0]);
            } else {
                assert(matches_at(c, at_npub(), s));
            }
            assert(c[s] == 'n');
            lemma_token_end(c, s, true);
        }
    }
}

/// The entities of `c[cursor..]`, in order: at each candidate, a recognised
/// token becomes an entity and the scan resumes after it; otherwise the scan
/// resumes just past the candidate's prefix.
pub open spec fn entities_from(c: Seq<char>, cursor: int) -> Seq<ContentEntityView>
    decreases c.len() - cursor,
{
    if cursor < 0 || cursor >= c.len() {
        seq![]
    } else {
        match next_candidate(c, cursor) {
            None => seq![],
            Some(start) => {
                proof {
                    lemma_candidate(c, cursor);
                }
                let end = candidate_end(c, start);
                match candidate_kind(c, start) {
                    Some(kind) => seq![ContentEntityView { start, end, kind }] + entities_from(c, end),
                    None => entities_from(
                        c,
                        start + if matches_at(c, at_npub(), start) {
                            1int
                        } else {
                            6int
                        },
                    ),
                }
            },
        }
    }
}

/// Entities lie inside the text after the cursor, in order, without overlap.
pub proof fn lemma_entities_ordered(c: Seq<char>, cursor: int)
    requires
        0 <= cursor,
    ensures
        forall|k: int| 0 <= k < entities_from(c, cursor).len() ==> {
            let e = #[trigger] entities_from(c, cursor)[k];
            cursor <= e.start < e.end <= c.len()
        },
        forall|k: int| 0 <= k < entities_from(c, cursor).len() - 1 ==> (#[trigger] entities_from(c, cursor)[k]).end
            <= entities_from(c, cursor)[k + 1].start,
    decreases c.len() - cursor,
{
    if cursor < c.len() {
        lemma_candidate(c, cursor);
        match next_candidate(c, cursor) {
            None => {},
            Some(start) => {
                let end = candidate_end(c, start);
                match candidate_kind(c, start) {
                    Some(kind) => {
                        lemma_entities_ordered(c, end);
                        let head = ContentEntityView { start, end, kind };
                        let rest = entities_from(c, end);
                        let all = seq![head] + rest;
                        assert(entities_from(c, cursor) == all);
                        assert forall|k: int| 0 <= k < all.len() implies {
                            let e = #[trigger] all[k];
                            cursor <= e.start < e.end <= c.len()
                        } by {
                            if k > 0 {
                                assert(all[k] == rest[k - 1]);
                            }
                        }
                        assert forall|k: int| 0 <= k < all.len() - 1 implies (#[trigger] all[k]).end <= all[k + 1].start by {
                            assert(all[k + 1] == rest[k]);
                            if k > 0 {
                                assert(all[k] == rest[k - 1]);
                            }
                        }
                    },
                    None => {
                        let next = start + if matches_at(c, at_npub(), start) {
                            1int
                        } else {
                            6int
                        };
                        lemma_entities_ordered(c, next);
                    },
                }
            },
        }
    }
}

/// A token run stops at the first character that cannot continue it.
proof fn lemma_token_end_before(c: Seq<char>, i: int, j: int, colon: bool)
    requires
        0 <= i <= j < c.len(),
        !token_char(c[j], colon),
    ensures
        token_end(c, i, colon) <= j,
    decreases j - i,
{
    if i < j && token_char(c[i], colon) {
        lemma_token_end_before(c, i + 1, j, colon);
    }
}

/// The scan from any cursor at or before a `nostr:` URI token that starts a
/// word reaches that token.
proof fn lemma_uri_reached(c: Seq<char>, cursor: int, s: int, id: Seq<char>)
    requires
        0 <= cursor <= s,
        matches_at(c, nostr_scheme(), s),
        s == 0 || !token_char(c[s - 1], true),
        nip21_of(c.subrange(s, token_end(c, s, true))) == Some(NostrUriView::Note(id))
            || nip21_of(c.subrange(s, token_end(c, s, true))) == Some(NostrUriView::Event(id)),
    ensures
        entities_from(c, cursor).contains(
            ContentEntityView { start: s, end: token_end(c, s, true), kind: EntityKindView::Event(id) },
        ),
    decreases s - cursor,
{
    let target = ContentEntityView { start: s, end: token_end(c, s, true), kind: EntityKindView::Event(id) };
    lemma_candidate(c, cursor);
    lemma_find_from(c, nostr_scheme(), cursor);
    lemma_find_from(c, at_npub(), cursor);
    assert(c.subrange(s, s + 6)[0] == nostr_scheme()[0]);
    assert(c[s] == 'n');
    let start = next_candidate(c, cursor)->0;
    assert(start <= s);
    let r = entities_from(c, cursor);
    if start == s {
        assert(!matches_at(c, at_npub(), s)) by {
            if matches_at(c, at_npub(), s) {
                assert(c.subrange(s, s + 6)[0] == at_npub()[0]);
            }
        }
        assert(r[0] == target);
    } else {
        assert(s >= 1);
        assert(!token_char(c[s - 1], false));
        let end = candidate_end(c, start);
        let next = match candidate_kind(c, start) {
            Some(kind) => end,
            None => start + if matches_at(c, at_npub(), start) {
                1int
            } else {
                6int
            },
        };
        if matches_at(c, at_npub(), start) {
            if start + 1 == s {
                assert(c.subrange(start, start + 6)[2] == at_npub()[2]);
                assert(c.subrange(s, s + 6)[1] == nostr_scheme()[1]);
                assert(false);
            }
            lemma_token_end_before(c, start + 1, s - 1, false);
        } else {
            assert(matches_at(c, nostr_scheme(), start));
            lemma_token_end_before(c, start, s - 1, true);
            if s < start + 6 {
                let k = s - start;
                assert(c.subrange(start, start + 6)[k] == nostr_scheme()[k]);
                assert(c[s] == nostr_scheme()[k]);
            }
        }
        assert(next <= s);
        assert(cursor < next);
        lemma_uri_reached(c, next, s, id);
        match candidate_kind(c, start) {
            Some(kind) => {
                let head = ContentEntityView { start, end, kind };
                let rest = entities_from(c, end);
                assert(r == seq![head] + rest);
                let j = choose|j: int| 0 <= j < rest.len() && rest[j] == target;
                assert(r[j + 1] == target);
            },
            None => {},
        }
    }
}

/// A `nostr:` URI token that starts a word and parses as a NIP-19 note (or
/// event) names that note: the content's entities hold an event entity with
/// its id over exactly that token.
pub proof fn law_note_uri_is_an_event_entity(c: Seq<char>, s: int, id: Seq<char>)
    requires
        0 <= s,
        matches_at(c, nostr_scheme(), s),
        s == 0 || !token_char(c[s - 1], true),
        nip21_of(c.subrange(s, token_end(c, s, true))) == Some(NostrUriView::Note(id))
            || nip21_of(c.subrange(s, token_end(c, s, true))) == Some(NostrUriView::Event(id)),
    ensures
        entities_from(c, 0).contains(
            ContentEntityView { start: s, end: token_end(c, s, true), kind: EntityKindView::Event(id) },
        ),
{
    lemma_uri_reached(c, 0, s, id);
}

/// The end of the run of token characters in `c` from `i`.
fn token_end_exec(c: &Vec<char>, i: usize, colon: bool) -> (r: usize)
    requires
        i <= c.len(),
    ensures
        r as int == token_end(c@, i as int, colon),
{
    let mut j = i;
    while j < c.len() && (('a' <= c[j] && c[j] <= 'z') || ('0' <= c[j] && c[j] <= '9') || (colon && c[j] == ':'))
        invariant
            i <= j <= c.len(),
            token_end(c@, i as int, colon) == token_end(c@, j as int, colon),
        decreases c.len() - j,
    {
        j = j + 1;
    }
    j
}

/// The NIP-21 entities and `@npub1…` mentions of `content`, with character ranges.
pub fn content_entities(content: &Vec<char>) -> (r: Vec<ContentEntity>)
    ensures
        entity_views(r@) == entities_from(content@, 0),
{
    let c = content;
    let scheme: Vec<char> = vec!['n', 'o', 's', 't', 'r', ':'];
    let npub: Vec<char> = vec!['@', 'n', 'p', 'u', 'b', '1'];
    assert(scheme@ =~= nostr_scheme());
    assert(npub@ =~= at_npub());
    let mut entities: Vec<ContentEntity> = Vec::new();
    let mut cursor: usize = 0;
    while cursor < c.len()
        invariant
            cursor <= c.len(),
            scheme@ == nostr_scheme(),
            npub@ == at_npub(),
            entity_views(entities@) + entities_from(c@, cursor as int) == entities_from(c@, 0),
        ensures
            cursor >= c.len() || next_candidate(c@, cursor as int) is None,
        decreases c.len() - cursor,
    {
        proof {
            lemma_candidate(c@, cursor as int);
        }
        let a = find_exec(c, &scheme, cursor);
        let b = find_exec(c, &npub, cursor);
        let start = match (a, b) {
            (Some(x), Some(y)) => if x <= y { x } else { y },
            (Some(x), None) => x,
            (None, Some(y)) => y,
            (None, None) => break,
        };
        let is_npub = matches_at_exec(c, &npub, start);
        let end = if is_npub { token_end_exec(c, start + 1, false) } else { token_end_exec(c, start, true) };
        let kind = if is_npub {
            let mut token: Vec<char> = Vec::new();
            push_range(&mut token, c, start + 1, end);
            match parse_public_key(string_of(&token).as_str()) {
                Some(k) => Some(EntityKind::Pubkey(k)),
                None => None,
            }
        } else {
            let mut token: Vec<char> = Vec::new();
            push_range(&mut token, c, start, end);
            match parse_nostr_uri(string_of(&token).as_str()) {
                Some(NostrUri::Pubkey(k)) => Some(EntityKind::Pubkey(k)),
                Some(NostrUri::Profile(k)) => Some(EntityKind::Pubkey(k)),
                Some(NostrUri::Note(i)) => Some(EntityKind::Event(i)),
                Some(NostrUri::Event(i)) => Some(EntityKind::Event(i)),
                _ => None,
            }
        };
        match kind {
            Some(kind) => {
                let ghost before = entities@;
                entities.push(ContentEntity { start, end, kind });
                assert(entity_views(entities@) =~= entity_views(before).push(entities@.last()@));
                assert(entity_views(before).push(entities@.last()@) + entities_from(c@, end as int)
                    =~= entity_views(before) + (seq![entities@.last()@] + entities_from(c@, end as int)));
                cursor = end;
            },
            None => {
                cursor = if is_npub { start + 1 } else { start + 6 };
            },
        }
    }
    assert(entities_from(c@, cursor as int) =~= seq![]);
    assert(entity_views(entities@) + seq![] =~= entity_views(entities@));
    entities
}

} // verus!
