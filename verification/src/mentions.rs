//! NIP-08 indexed mentions (`#[n]`) in note content.

use vstd::prelude::*;

use crate::nostr_calls::{
    event_id_from_text, event_id_note, note_of, npub_of, parse_event_id, parse_public_key,
    public_key_from_text, public_key_npub,
};
use crate::text::{
    chars_of, find_exec, find_from, lemma_find_from, matches_at, parse_usize, parsed_usize, prefix, push_all,
    push_range, string_of,
};

verus! {

/// The characters `#[` that open an indexed mention.
pub open spec fn open_marker() -> Seq<char> {
    seq!['#', '[']
}

/// The character `]` that closes an indexed mention.
pub open spec fn close_marker() -> Seq<char> {
    seq![']']
}

/// The characters `nostr:`.
pub open spec fn nostr_scheme() -> Seq<char> {
    seq!['n', 'o', 's', 't', 'r', ':']
}

/// The tag's name is exactly the one character `c`.
pub open spec fn tag_named(tag: Seq<Seq<char>>, c: char) -> bool {
    tag.len() > 0 && tag[0] == seq![c]
}

/// What an indexed mention of `tag` (which has a value) is shown as: an `@npub`
/// for a `p` tag whose value is a key, a `nostr:note` URI for an `e` tag whose
/// value is an event id, and otherwise `@` and the value's first 16 characters.
pub open spec fn tag_mention(tag: Seq<Seq<char>>) -> Seq<char> {
    let value = tag[1];
    let fallback = seq!['@'] + prefix(value, 16);
    if tag_named(tag, 'p') {
        match public_key_from_text(value) {
            Some(hex) => match npub_of(hex) {
                Some(npub) => seq!['@'] + npub,
                None => fallback,
            },
            None => fallback,
        }
    } else if tag_named(tag, 'e') {
        match event_id_from_text(value) {
            Some(hex) => match note_of(hex) {
                Some(note) => nostr_scheme() + note,
                None => fallback,
            },
            None => fallback,
        }
    } else {
        fallback
    }
}

/// The replacement of the mention whose index text is `index`: present when the
/// index parses, names a tag, and that tag has a value.
pub open spec fn mention_replacement(index: Seq<char>, tags: Seq<Seq<Seq<char>>>) -> Option<Seq<char>> {
    match parsed_usize(index) {
        Some(i) => if i < tags.len() && tags[i as int].len() >= 2 {
            Some(tag_mention(tags[i as int]))
        } else {
            None
        },
        None => None,
    }
}

/// `c[pos..]` with each complete `#[index]` replaced by its mention; an index
/// that names no usable tag is kept as written, and text after an unclosed
/// `#[` is kept unchanged.
pub open spec fn expansion_from(c: Seq<char>, pos: int, tags: Seq<Seq<Seq<char>>>) -> Seq<char>
    decreases c.len() - pos,
{
    if pos < 0 || pos > c.len() {
        seq![]
    } else {
        match find_from(c, open_marker(), pos) {
            None => c.subrange(pos, c.len() as int),
            Some(start) => match find_from(c, close_marker(), start + 2) {
                None => c.subrange(pos, c.len() as int),
                Some(close) => {
                    proof {
                        lemma_find_from(c, open_marker(), pos);
                        lemma_find_from(c, close_marker(), start + 2);
                    }
                    c.subrange(pos, start) + match mention_replacement(c.subrange(start + 2, close), tags) {
                        Some(r) => r,
                        None => c.subrange(start, close + 1),
                    } + expansion_from(c, close + 1, tags)
                },
            },
        }
    }
}

/// The first match at or after `from` is at `k` when `k` matches and no
/// position between does.
proof fn lemma_find_first(s: Seq<char>, pat: Seq<char>, from: int, k: int)
    requires
        0 <= from <= k,
        matches_at(s, pat, k),
        forall|j: int| from <= j < k ==> !matches_at(s, pat, j),
    ensures
        find_from(s, pat, from) == Some(k),
    decreases k - from,
{
    if from < k {
        lemma_find_first(s, pat, from + 1, k);
    }
}

/// A lone indexed mention `#[d]` is expanded to its tag's mention when `d`
/// parses to the index of a tag with a value, and is kept as written
/// otherwise.
pub proof fn law_single_mention(d: Seq<char>, tags: Seq<Seq<Seq<char>>>)
    requires
        !d.contains(']'),
    ensures
        expansion_from(open_marker() + d + close_marker(), 0, tags) == match mention_replacement(d, tags) {
            Some(r) => r,
            None => open_marker() + d + close_marker(),
        },
{
    let c = open_marker() + d + close_marker();
    let close: int = d.len() + 2int;
    assert(c.subrange(0, 2) =~= open_marker());
    lemma_find_first(c, open_marker(), 0, 0);
    assert(c.subrange(close, close + 1) =~= close_marker());
    assert forall|j: int| 2 <= j < close implies !matches_at(c, close_marker(), j) by {
        assert(c[j] == d[j - 2]);
        if matches_at(c, close_marker(), j) {
            assert(c.subrange(j, j + 1)[0] == c[j]);
            assert(d.contains(']'));
        }
    }
    lemma_find_first(c, close_marker(), 2, close);
    assert(c.subrange(2, close) =~= d);
    assert(c.subrange(0, 0) =~= Seq::<char>::empty());
    assert(c.subrange(0, close + 1) =~= c);
    assert(expansion_from(c, close + 1, tags) =~= Seq::<char>::empty());
}

/// The decimal text of `n` is all digits and reads back as `n`.
pub proof fn lemma_decimal_reads_back(n: nat)
    ensures
        crate::present::decimal(n).len() > 0,
        crate::text::all_digits(crate::present::decimal(n)),
        crate::text::digits_value(crate::present::decimal(n)) == n,
    decreases n,
{
    let d = crate::present::decimal(n);
    if n >= 10 {
        lemma_decimal_reads_back(n / 10);
        let front = crate::present::decimal(n / 10);
        assert(d == front.push(crate::present::digit_char(n % 10)));
        assert(d.drop_last() =~= front);
        assert forall|i: int| 0 <= i < d.len() implies crate::text::is_digit(#[trigger] d[i]) by {
            if i < front.len() {
                assert(d[i] == front[i]);
            }
        }
    }
    let last = n % 10;
    assert(crate::present::digit_char(last) as int - '0' as int == last);
    assert(d.last() == crate::present::digit_char(last));
    assert(crate::text::digits_value(d) == crate::text::digits_value(d.drop_last()) * 10 + last);
    if n < 10 {
        assert(d.drop_last() =~= Seq::<char>::empty());
    } else {
        assert((n / 10) * 10 + n % 10 == n) by (nonlinear_arith);
    }
}

/// An indexed mention `#[i]` written with the decimal index `i` is expanded
/// to the mention of tag `i` when that tag exists and has a value, and is
/// kept as written otherwise.
pub proof fn law_indexed_mention(i: usize, tags: Seq<Seq<Seq<char>>>)
    ensures
        expansion_from(open_marker() + crate::present::decimal(i as nat) + close_marker(), 0, tags) == if i < tags.len()
            && tags[i as int].len() >= 2 {
            tag_mention(tags[i as int])
        } else {
            open_marker() + crate::present::decimal(i as nat) + close_marker()
        },
{
    let d = crate::present::decimal(i as nat);
    lemma_decimal_reads_back(i as nat);
    assert(!d.contains(']')) by {
        if d.contains(']') {
            let k = choose|k: int| 0 <= k < d.len() && d[k] == ']';
            assert(crate::text::is_digit(d[k]));
        }
    }
    assert(d.len() > 1 ==> d[0] != '+') by {
        if d.len() > 1 {
            assert(crate::text::is_digit(d[0]));
        }
    }
    assert(crate::text::unsigned_digits(d) == d);
    assert(crate::text::parsed_usize(d) == Some(i));
    law_single_mention(d, tags);
}

/// The indices that complete `#[index]` mentions in `c[pos..]` name.
pub open spec fn mention_indices_from(c: Seq<char>, pos: int) -> Set<usize>
    decreases c.len() - pos,
{
    if pos < 0 || pos > c.len() {
        Set::empty()
    } else {
        match find_from(c, open_marker(), pos) {
            None => Set::empty(),
            Some(start) => match find_from(c, close_marker(), start + 2) {
                None => Set::empty(),
                Some(close) => {
                    proof {
                        lemma_find_from(c, open_marker(), pos);
                        lemma_find_from(c, close_marker(), start + 2);
                    }
                    let here = match parsed_usize(c.subrange(start + 2, close)) {
                        Some(i) => set![i],
                        None => Set::empty(),
                    };
                    here + mention_indices_from(c, close + 1)
                },
            },
        }
    }
}

/// `s` is exactly the one character `c`.
pub fn is_one_char(s: &String, c: char) -> (r: bool)
    ensures
        r == (s@ == seq![c]),
{
    let v = chars_of(s.as_str());
    if v.len() == 1 && v[0] == c {
        assert(v@ =~= seq![c]);
        true
    } else {
        false
    }
}

/// How the indexed mention of `tag` is shown.
fn mention_text(tag: &Vec<String>) -> (r: Vec<char>)
    requires
        tag.len() >= 2,
    ensures
        r@ == tag_mention(tag.deep_view()),
{
    let ghost t = tag.deep_view();
    let value = &tag[1];
    let value_chars = chars_of(value.as_str());
    let mut fallback: Vec<char> = vec!['@'];
    let n = if value_chars.len() < 16 { value_chars.len() } else { 16 };
    push_range(&mut fallback, &value_chars, 0, n);
    assert(fallback@ =~= seq!['@'] + prefix(t[1], 16));
    let is_p = is_one_char(&tag[0], 'p');
    let is_e = is_one_char(&tag[0], 'e');
    if is_p {
        if let Some(hex) = parse_public_key(value.as_str()) {
            if let Some(npub) = public_key_npub(hex.as_str()) {
                let mut r: Vec<char> = vec!['@'];
                push_all(&mut r, &chars_of(npub.as_str()));
                assert(r@ =~= seq!['@'] + npub@);
                return r;
            }
        }
        fallback
    } else if is_e {
        if let Some(hex) = parse_event_id(value.as_str()) {
            if let Some(note) = event_id_note(hex.as_str()) {
                let mut r: Vec<char> = vec!['n', 'o', 's', 't', 'r', ':'];
                push_all(&mut r, &chars_of(note.as_str()));
                assert(r@ =~= nostr_scheme() + note@);
                return r;
            }
        }
        fallback
    } else {
        fallback
    }
}

/// Replaces NIP-08 indexed mentions `#[n]` with readable references to the
/// tagged profile or event.
pub fn expand_mentions(content: &str, tags: &Vec<Vec<String>>) -> (r: String)
    ensures
        r@ == expansion_from(content@, 0, tags.deep_view()),
{
    let c = chars_of(content);
    let open: Vec<char> = vec!['#', '['];
    let close_pat: Vec<char> = vec![']'];
    assert(open@ =~= open_marker());
    assert(close_pat@ =~= close_marker());
    let ghost t = tags.deep_view();
    let mut out: Vec<char> = Vec::new();
    let mut pos: usize = 0;
    loop
        invariant_except_break
            out@ + expansion_from(c@, pos as int, t) == expansion_from(c@, 0, t),
        invariant
            c@ == content@,
            open@ == open_marker(),
            close_pat@ == close_marker(),
            t == tags.deep_view(),
            pos <= c.len(),
        ensures
            out@ == expansion_from(c@, 0, t),
        decreases c.len() - pos,
    {
        proof {
            lemma_find_from(c@, open_marker(), pos as int);
        }
        let start = match find_exec(&c, &open, pos) {
            Some(s) => s,
            None => {
                let ghost before = out@;
                push_range(&mut out, &c, pos, c.len());
                assert(out@ =~= before + expansion_from(c@, pos as int, t));
                break;
            },
        };
        proof {
            lemma_find_from(c@, close_marker(), start + 2);
        }
        let close = match find_exec(&c, &close_pat, start + 2) {
            Some(e) => e,
            None => {
                let ghost before = out@;
                push_range(&mut out, &c, pos, c.len());
                assert(out@ =~= before + expansion_from(c@, pos as int, t));
                break;
            },
        };
        let ghost before = out@;
        push_range(&mut out, &c, pos, start);
        let index = parse_usize(&c, start + 2, close);
        let mut replaced = false;
        if let Some(i) = index {
            if i < tags.len() && tags[i].len() >= 2 {
                let m = mention_text(&tags[i]);
                push_all(&mut out, &m);
                replaced = true;
            }
        }
        if !replaced {
            push_range(&mut out, &c, start, close + 1);
        }
        assert(out@ =~= before + c@.subrange(pos as int, start as int) + match mention_replacement(
            c@.subrange(start + 2, close as int),
            t,
        ) {
            Some(r) => r,
            None => c@.subrange(start as int, close + 1),
        });
        pos = close + 1;
    }
    let r = string_of(&out);
    r
}

/// The tag indices that complete `#[index]` mentions in `content` name.
pub fn indexed_tag_references(content: &str) -> (r: Vec<usize>)
    ensures
        forall|i: usize| r@.contains(i) <==> mention_indices_from(content@, 0).contains(i),
{
    let c = chars_of(content);
    let open: Vec<char> = vec!['#', '['];
    let close_pat: Vec<char> = vec![']'];
    assert(open@ =~= open_marker());
    assert(close_pat@ =~= close_marker());
    let mut found: Vec<usize> = Vec::new();
    let mut pos: usize = 0;
    loop
        invariant_except_break
            found@.to_set() + mention_indices_from(c@, pos as int) == mention_indices_from(c@, 0),
        invariant
            c@ == content@,
            open@ == open_marker(),
            close_pat@ == close_marker(),
            pos <= c.len(),
        ensures
            found@.to_set() == mention_indices_from(c@, 0),
        decreases c.len() - pos,
    {
        proof {
            lemma_find_from(c@, open_marker(), pos as int);
        }
        let start = match find_exec(&c, &open, pos) {
            Some(s) => s,
            None => {
                assert(found@.to_set() + Set::empty() =~= found@.to_set());
                break;
            },
        };
        proof {
            lemma_find_from(c@, close_marker(), start + 2);
        }
        let close = match find_exec(&c, &close_pat, start + 2) {
            Some(e) => e,
            None => {
                assert(found@.to_set() + Set::empty() =~= found@.to_set());
                break;
            },
        };
        let ghost before = found@;
        if let Some(i) = parse_usize(&c, start + 2, close) {
            found.push(i);
            proof {
                before.lemma_push_to_set_commute(i);
            }
        }
        pos = close + 1;
    }
    proof {
        assert forall|i: usize| found@.contains(i) <==> mention_indices_from(content@, 0).contains(i) by {
            assert(found@.contains(i) <==> found@.to_set().contains(i));
        }
    }
    found
}

} // verus!
