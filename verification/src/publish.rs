//! Preparing a note for publishing: NIP-19 mentions in the text become
//! NIP-08 indexed mentions backed by `p` and `e` tags.

use vstd::prelude::*;

use crate::nostr_calls::{event_id_from_text, parse_event_id, parse_public_key, public_key_from_text};
use crate::present::{decimal, push_decimal};
use crate::text::{chars_of, find_exec, find_from, lemma_find_from, matches_at, push_all, push_range, same_chars, string_of};

verus! {

/// The characters `@npub1`.
pub open spec fn at_npub_prefix() -> Seq<char> {
    seq!['@', 'n', 'p', 'u', 'b', '1']
}

/// The characters `nostr:npub1`.
pub open spec fn uri_npub_prefix() -> Seq<char> {
    seq!['n', 'o', 's', 't', 'r', ':', 'n', 'p', 'u', 'b', '1']
}

/// The characters `nostr:note1`.
pub open spec fn uri_note_prefix() -> Seq<char> {
    seq!['n', 'o', 's', 't', 'r', ':', 'n', 'o', 't', 'e', '1']
}

/// The earliest mention at or after `pos`, with which prefix starts it
/// (0: `@npub1`, 1: `nostr:npub1`, 2: `nostr:note1`; the first prefix wins a tie).
pub open spec fn earliest_mention(c: Seq<char>, pos: int) -> Option<(int, int)> {
    let a = find_from(c, at_npub_prefix(), pos);
    let b = find_from(c, uri_npub_prefix(), pos);
    let d = find_from(c, uri_note_prefix(), pos);
    let ab = match (a, b) {
        (Some(x), Some(y)) => if y < x {
            Some((y, 1int))
        } else {
            Some((x, 0int))
        },
        (Some(x), None) => Some((x, 0int)),
        (None, Some(y)) => Some((y, 1int)),
        (None, None) => None,
    };
    match (ab, d) {
        (Some(p), Some(z)) => if z < p.0 {
            Some((z, 2int))
        } else {
            Some(p)
        },
        (Some(p), None) => Some(p),
        (None, Some(z)) => Some((z, 2int)),
        (None, None) => None,
    }
}

/// A character of a mention token: an ASCII letter or digit, `@` or `:`.
pub open spec fn mention_char(ch: char) -> bool {
    ('a' <= ch && ch <= 'z') || ('A' <= ch && ch <= 'Z') || ('0' <= ch && ch <= '9') || ch == '@' || ch == ':'
}

/// The end of the run of mention characters from `i`.
pub open spec fn mention_end(c: Seq<char>, i: int) -> int
    decreases c.len() - i,
{
    if 0 <= i < c.len() && mention_char(c[i]) {
        mention_end(c, i + 1)
    } else {
        i
    }
}

/// A mention run stays inside the text and is non-empty at a mention character.
pub proof fn lemma_mention_end(c: Seq<char>, i: int)
    requires
        0 <= i <= c.len(),
    ensures
        i <= mention_end(c, i) <= c.len(),
        i < c.len() && mention_char(c[i]) ==> i < mention_end(c, i),
    decreases c.len() - i,
{
    if 0 <= i < c.len() && mention_char(c[i]) {
        lemma_mention_end(c, i + 1);
    }
}

/// The characters `nostr:`.
pub open spec fn nostr_prefix() -> Seq<char> {
    seq!['n', 'o', 's', 't', 'r', ':']
}

/// The NIP-19 text of a mention token: without a leading `@` or `nostr:`.
pub open spec fn nip19_text(token: Seq<char>) -> Seq<char> {
    if token.len() > 0 && token[0] == '@' {
        token.skip(1)
    } else if matches_at(token, nostr_prefix(), 0) {
        token.skip(6)
    } else {
        token
    }
}

/// The tag a mention stands for: `["p", key]` for an `npub`, `["e", id]` for a
/// `note`, when the NIP-19 text parses.
pub open spec fn mention_tag(is_key: bool, nip19: Seq<char>) -> Option<Seq<Seq<char>>> {
    if is_key {
        match public_key_from_text(nip19) {
            Some(hex) => Some(seq![seq!['p'], hex]),
            None => None,
        }
    } else {
        match event_id_from_text(nip19) {
            Some(hex) => Some(seq![seq!['e'], hex]),
            None => None,
        }
    }
}

/// The first position of `k` in `keys`.
pub open spec fn index_of(keys: Seq<Seq<char>>, k: Seq<char>) -> Option<int>
    decreases keys.len(),
{
    if keys.len() == 0 {
        None
    } else {
        match index_of(keys.drop_last(), k) {
            Some(i) => Some(i),
            None => if keys.last() == k {
                Some(keys.len() - 1)
            } else {
                None
            },
        }
    }
}

/// The indexed mention `#[i]`.
pub open spec fn indexed_mention(i: nat) -> Seq<char> {
    seq!['#', '['] + decimal(i) + seq![']']
}

/// The converted text so far, the NIP-19 texts that got a tag, and the tags.
pub struct Nip08 {
    pub out: Seq<char>,
    pub keys: Seq<Seq<char>>,
    pub tags: Seq<Seq<Seq<char>>>,
}

/// One mention converted: the text before it is kept; a mention whose NIP-19
/// text parses becomes `#[i]` with the index of its tag (a new tag for a new
/// NIP-19 text); any other mention is kept as it is.
pub open spec fn mention_step(c: Seq<char>, pos: int, start: int, which: int, st: Nip08) -> Nip08 {
    let token = c.subrange(start, mention_end(c, start));
    let nip = nip19_text(token);
    let out1 = st.out + c.subrange(pos, start);
    match mention_tag(which != 2, nip) {
        Some(tag) => match index_of(st.keys, nip) {
            Some(i) => Nip08 { out: out1 + indexed_mention(i as nat), ..st },
            None => Nip08 { out: out1 + indexed_mention(st.tags.len()), keys: st.keys.push(nip), tags: st.tags.push(tag) },
        },
        None => Nip08 { out: out1 + token, ..st },
    }
}

/// The rest of `c` from `pos` converted: each mention whose NIP-19 text
/// parses becomes `#[i]`, where `i` is the index of its tag (one tag per
/// distinct NIP-19 text, in order of first use); other text is kept.
pub open spec fn nip08_from(c: Seq<char>, pos: int, st: Nip08) -> Nip08
    decreases c.len() - pos,
{
    if pos < 0 || pos > c.len() {
        st
    } else {
        match earliest_mention(c, pos) {
            None => Nip08 { out: st.out + c.subrange(pos, c.len() as int), ..st },
            Some((start, which)) => {
                proof {
                    lemma_earliest(c, pos);
                }
                nip08_from(c, mention_end(c, start), mention_step(c, pos, start, which, st))
            },
        }
    }
}

/// A mention starts at or after `pos`, on a mention character, so its run is
/// non-empty.
pub proof fn lemma_earliest(c: Seq<char>, pos: int)
    requires
        0 <= pos <= c.len(),
    ensures
        earliest_mention(c, pos) matches Some((start, which)) ==> {
            &&& pos <= start < c.len()
            &&& 0 <= which <= 2
            &&& start < mention_end(c, start) <= c.len()
        },
{
    lemma_find_from(c, at_npub_prefix(), pos);
    lemma_find_from(c, uri_npub_prefix(), pos);
    lemma_find_from(c, uri_note_prefix(), pos);
    if let Some((start, which)) = earliest_mention(c, pos) {
        if which == 0 {
            assert(c.subrange(start, start + 6)[0] == at_npub_prefix()[0]);
        } else if which == 1 {
            assert(c.subrange(start, start + 11)[0] == uri_npub_prefix()[0]);
        } else {
            assert(c.subrange(start, start + 11)[0] == uri_note_prefix()[0]);
        }
        lemma_mention_end(c, start);
    }
}

/// The end of the mention run from `i`.
fn mention_end_exec(c: &Vec<char>, i: usize) -> (r: usize)
    requires
        i <= c.len(),
    ensures
        r == mention_end(c@, i as int),
{
    let mut j = i;
    while j < c.len() && (('a' <= c[j] && c[j] <= 'z') || ('A' <= c[j] && c[j] <= 'Z') || ('0' <= c[j] && c[j] <= '9')
        || c[j] == '@' || c[j] == ':')
        invariant
            i <= j <= c.len(),
            mention_end(c@, i as int) == mention_end(c@, j as int),
        decreases c.len() - j,
    {
        j = j + 1;
    }
    j
}

/// The position of `k` in `keys`.
fn find_key(keys: &Vec<Vec<char>>, k: &Vec<char>) -> (r: Option<usize>)
    ensures
        match index_of(crate::media::char_rows(keys@), k@) {
            Some(i) => 0 <= i < keys.len() && r == Some(i as usize),
            None => r is None,
        },
{
    let ghost rows = crate::media::char_rows(keys@);
    let mut i: usize = 0;
    while i < keys.len()
        invariant
            i <= keys.len(),
            rows == crate::media::char_rows(keys@),
            index_of(rows.take(i as int), k@) is None,
        decreases keys.len() - i,
    {
        assert(rows.take(i + 1).drop_last() =~= rows.take(i as int));
        assert(rows.take(i + 1).last() == keys@[i as int]@);
        if same_chars(&keys[i], k) {
            proof {
                lemma_index_prefix(rows, k@, i + 1);
                lemma_index_of(rows, k@);
            }
            return Some(i);
        }
        i = i + 1;
    }
    assert(rows.take(i as int) =~= rows);
    None
}

/// A position found in a prefix is the position in the whole list.
proof fn lemma_index_prefix(keys: Seq<Seq<char>>, k: Seq<char>, n: int)
    requires
        0 <= n <= keys.len(),
        index_of(keys.take(n), k) is Some,
    ensures
        index_of(keys, k) == index_of(keys.take(n), k),
    decreases keys.len() - n,
{
    if n < keys.len() {
        assert(keys.take(n + 1).drop_last() =~= keys.take(n));
        lemma_index_prefix(keys, k, n + 1);
    } else {
        assert(keys.take(n) =~= keys);
    }
}

/// A position found by `index_of` lies in the list.
proof fn lemma_index_of(keys: Seq<Seq<char>>, k: Seq<char>)
    ensures
        index_of(keys, k) matches Some(i) ==> 0 <= i < keys.len(),
    decreases keys.len(),
{
    if keys.len() > 0 {
        lemma_index_of(keys.drop_last(), k);
    }
}

/// A text that `index_of` does not find is not in the list.
proof fn lemma_index_of_none(keys: Seq<Seq<char>>, k: Seq<char>)
    requires
        index_of(keys, k) is None,
    ensures
        !keys.contains(k),
    decreases keys.len(),
{
    if keys.len() > 0 {
        lemma_index_of_none(keys.drop_last(), k);
        assert forall|i: int| 0 <= i < keys.len() implies keys[i] != k by {
            if i < keys.len() - 1 {
                assert(keys[i] == keys.drop_last()[i]);
            }
        }
    }
}

/// The state of a conversion is sound: one tag per NIP-19 text, each text
/// once, each tag the one its text stands for.
pub open spec fn nip08_sound(st: Nip08) -> bool {
    &&& st.keys.no_duplicates()
    &&& st.keys.len() == st.tags.len()
    &&& forall|i: int| 0 <= i < st.keys.len() ==> (mention_tag(true, #[trigger] st.keys[i]) == Some(st.tags[i])
        || mention_tag(false, st.keys[i]) == Some(st.tags[i]))
}

proof fn lemma_nip08_sound(c: Seq<char>, pos: int, st: Nip08)
    requires
        nip08_sound(st),
    ensures
        nip08_sound(nip08_from(c, pos, st)),
    decreases c.len() - pos,
{
    if 0 <= pos <= c.len() {
        if let Some((start, which)) = earliest_mention(c, pos) {
            lemma_earliest(c, pos);
            let token = c.subrange(start, mention_end(c, start));
            let nip = nip19_text(token);
            let next = mention_step(c, pos, start, which, st);
            if mention_tag(which != 2, nip) is Some && index_of(st.keys, nip) is None {
                lemma_index_of_none(st.keys, nip);
                assert forall|a: int, b: int| 0 <= a < b < next.keys.len() implies next.keys[a] != next.keys[b] by {
                    if b == st.keys.len() {
                        assert(st.keys.contains(st.keys[a]));
                    }
                }
                assert forall|i: int| 0 <= i < next.keys.len() implies (mention_tag(true, #[trigger] next.keys[i])
                    == Some(next.tags[i]) || mention_tag(false, next.keys[i]) == Some(next.tags[i])) by {
                    if i < st.keys.len() {
                        assert(next.keys[i] == st.keys[i] && next.tags[i] == st.tags[i]);
                    }
                }
            }
            lemma_nip08_sound(c, mention_end(c, start), next);
        }
    }
}

/// Converting mentions to NIP-08 makes one tag per distinct NIP-19 text,
/// each the `p` or `e` tag that text stands for, and leaves content without
/// any mention exactly as it was, with no tags.
pub proof fn law_nip08_tags_are_distinct_and_sound(c: Seq<char>)
    ensures
        nip08_sound(nip08_from(c, 0, Nip08 { out: seq![], keys: seq![], tags: seq![] })),
        earliest_mention(c, 0) is None ==> nip08_from(c, 0, Nip08 { out: seq![], keys: seq![], tags: seq![] }).out == c,
        earliest_mention(c, 0) is None ==> nip08_from(c, 0, Nip08 { out: seq![], keys: seq![], tags: seq![] }).tags.len() == 0,
{
    let init = Nip08 { out: seq![], keys: seq![], tags: seq![] };
    lemma_nip08_sound(c, 0, init);
    if earliest_mention(c, 0) is None {
        assert(Seq::<char>::empty() + c.subrange(0, c.len() as int) =~= c);
    }
}

/// The tag `[name, value]`.
fn tag_of(name: char, value: String) -> (r: Vec<String>)
    ensures
        r.deep_view() == seq![seq![name], value@],
{
    let mut n: Vec<char> = Vec::new();
    n.push(name);
    let mut r: Vec<String> = Vec::new();
    r.push(string_of(&n));
    r.push(value);
    assert(r.deep_view() =~= seq![seq![name], value@]);
    r
}

/// Converts the mention at `start` (found from `pos`, with prefix `which`),
/// appending to the text and tags; returns where the mention ends.
fn convert_mention(
    c: &Vec<char>,
    pos: usize,
    start: usize,
    which: u8,
    out: &mut Vec<char>,
    keys: &mut Vec<Vec<char>>,
    tags: &mut Vec<Vec<String>>,
) -> (end: usize)
    requires
        pos <= start < c.len(),
        which <= 2,
        crate::media::char_rows(old(keys)@).len() == old(tags).deep_view().len(),
    ensures
        end == mention_end(c@, start as int),
        crate::media::char_rows(final(keys)@).len() == final(tags).deep_view().len(),
        (Nip08 { out: final(out)@, keys: crate::media::char_rows(final(keys)@), tags: final(tags).deep_view() })
            == mention_step(
            c@,
            pos as int,
            start as int,
            which as int,
            Nip08 { out: old(out)@, keys: crate::media::char_rows(old(keys)@), tags: old(tags).deep_view() },
        ),
{
    proof {
        lemma_mention_end(c@, start as int);
    }
    let end = mention_end_exec(c, start);
    let mut token: Vec<char> = Vec::new();
    push_range(&mut token, c, start, end);
    let nip: Vec<char> = if token.len() > 0 && token[0] == '@' {
        let mut v = Vec::new();
        push_range(&mut v, &token, 1, token.len());
        assert(token@.subrange(1, token@.len() as int) =~= token@.skip(1));
        v
    } else if token.len() >= 6 && token[0] == 'n' && token[1] == 'o' && token[2] == 's' && token[3] == 't'
        && token[4] == 'r' && token[5] == ':' {
        let mut v = Vec::new();
        push_range(&mut v, &token, 6, token.len());
        assert(token@.subrange(0, 6) =~= nostr_prefix());
        assert(token@.subrange(6, token@.len() as int) =~= token@.skip(6));
        v
    } else {
        proof {
            if matches_at(token@, nostr_prefix(), 0) {
                assert(token@.subrange(0, 6)[0] == 'n');
                assert(token@.subrange(0, 6)[1] == 'o');
                assert(token@.subrange(0, 6)[2] == 's');
                assert(token@.subrange(0, 6)[3] == 't');
                assert(token@.subrange(0, 6)[4] == 'r');
                assert(token@.subrange(0, 6)[5] == ':');
            }
        }
        crate::text::copy_chars(&token)
    };
    assert(nip@ == nip19_text(token@));
    let nip_text = string_of(&nip);
    let tag: Option<Vec<String>> = if which != 2 {
        match parse_public_key(nip_text.as_str()) {
            Some(hex) => Some(tag_of('p', hex)),
            None => None,
        }
    } else {
        match parse_event_id(nip_text.as_str()) {
            Some(hex) => Some(tag_of('e', hex)),
            None => None,
        }
    };
    let ghost out0 = out@;
    push_range(out, c, pos, start);
    assert(token@ == c@.subrange(start as int, end as int));
    assert(out@ == out0 + c@.subrange(pos as int, start as int));
    match tag {
        Some(tag) => {
            assert(tag.deep_view() == mention_tag(which != 2, nip@)->0);
            proof {
                lemma_index_of(crate::media::char_rows(keys@), nip@);
            }
            match find_key(keys, &nip) {
                Some(i) => {
                    let ghost before = out@;
                    out.push('#');
                    out.push('[');
                    push_decimal(out, i as u64);
                    out.push(']');
                    assert(out@ =~= before + indexed_mention(i as nat));
                },
                None => {
                    let index = tags.len();
                    let ghost before = out@;
                    out.push('#');
                    out.push('[');
                    push_decimal(out, index as u64);
                    out.push(']');
                    assert(out@ =~= before + indexed_mention(index as nat));
                    let ghost rows = crate::media::char_rows(keys@);
                    let ghost tv = tags.deep_view();
                    keys.push(nip);
                    tags.push(tag);
                    assert(crate::media::char_rows(keys@) =~= rows.push(nip@));
                    assert(tags.deep_view() =~= tv.push(mention_tag(which != 2, nip@)->0));
                },
            }
        },
        None => {
            push_all(out, &token);
        },
    }
    end
}

/// The tags of the NIP-19 mentions of `content` and the content with each
/// such mention replaced by its NIP-08 index.
pub fn nip08_mentions(content: &str) -> (r: (String, Vec<Vec<String>>))
    ensures
        r.0@ == nip08_from(content@, 0, Nip08 { out: seq![], keys: seq![], tags: seq![] }).out,
        r.1.deep_view() == nip08_from(content@, 0, Nip08 { out: seq![], keys: seq![], tags: seq![] }).tags,
{
    let c = chars_of(content);
    let at_npub: Vec<char> = vec!['@', 'n', 'p', 'u', 'b', '1'];
    let uri_npub: Vec<char> = vec!['n', 'o', 's', 't', 'r', ':', 'n', 'p', 'u', 'b', '1'];
    let uri_note: Vec<char> = vec!['n', 'o', 's', 't', 'r', ':', 'n', 'o', 't', 'e', '1'];
    assert(at_npub@ =~= at_npub_prefix());
    assert(uri_npub@ =~= uri_npub_prefix());
    assert(uri_note@ =~= uri_note_prefix());
    let ghost init = Nip08 { out: seq![], keys: seq![], tags: seq![] };
    let mut out: Vec<char> = Vec::new();
    let mut keys: Vec<Vec<char>> = Vec::new();
    let mut tags: Vec<Vec<String>> = Vec::new();
    let mut pos: usize = 0;
    assert(crate::media::char_rows(keys@) =~= Seq::<Seq<char>>::empty());
    assert(out@ =~= Seq::<char>::empty());
    assert(tags.deep_view() =~= Seq::<Seq<Seq<char>>>::empty());
    loop
        invariant_except_break
            pos <= c.len(),
            at_npub@ == at_npub_prefix(),
            uri_npub@ == uri_npub_prefix(),
            uri_note@ == uri_note_prefix(),
            c@ == content@,
            crate::media::char_rows(keys@).len() == tags.deep_view().len(),
            nip08_from(c@, pos as int, Nip08 { out: out@, keys: crate::media::char_rows(keys@), tags: tags.deep_view() })
                == nip08_from(c@, 0, init),
        ensures
            (Nip08 { out: out@, keys: crate::media::char_rows(keys@), tags: tags.deep_view() }) == nip08_from(c@, 0, init),
        decreases c.len() - pos,
    {
        proof {
            lemma_earliest(c@, pos as int);
        }
        let a = find_exec(&c, &at_npub, pos);
        let b = find_exec(&c, &uri_npub, pos);
        let d = find_exec(&c, &uri_note, pos);
        let ab: Option<(usize, u8)> = match (a, b) {
            (Some(x), Some(y)) => if y < x {
                Some((y, 1))
            } else {
                Some((x, 0))
            },
            (Some(x), None) => Some((x, 0)),
            (None, Some(y)) => Some((y, 1)),
            (None, None) => None,
        };
        let found: Option<(usize, u8)> = match (ab, d) {
            (Some(p), Some(z)) => if z < p.0 {
                Some((z, 2))
            } else {
                Some(p)
            },
            (Some(p), None) => Some(p),
            (None, Some(z)) => Some((z, 2)),
            (None, None) => None,
        };
        let (start, which) = match found {
            Some(f) => f,
            None => {
                push_range(&mut out, &c, pos, c.len());
                break;
            },
        };
        assert(earliest_mention(c@, pos as int) == Some((start as int, which as int)));
        let end = convert_mention(&c, pos, start, which, &mut out, &mut keys, &mut tags);
        pos = end;
    }
    (string_of(&out), tags)
}

} // verus!
