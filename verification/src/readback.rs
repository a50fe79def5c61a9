//! Reading back a published note: the NIP-08 mentions that publishing writes
//! expand, on display, to the profiles and notes that the author mentioned.

use vstd::prelude::*;

use crate::mentions::{close_marker, expansion_from, mention_replacement, open_marker, tag_mention};
use crate::present::decimal;
use crate::publish::{
    at_npub_prefix, earliest_mention, index_of, indexed_mention, lemma_earliest, mention_char, mention_end,
    mention_step, mention_tag, nip08_from, nip19_text, nostr_prefix, uri_note_prefix, uri_npub_prefix, Nip08,
};
use crate::text::{
    all_digits, digits_value, find_from, is_digit, lemma_find_from, matches_at, parsed_usize, unsigned_digits,
};

verus! {

/// A digit character reads back as its value.
proof fn lemma_digit_char(k: nat)
    requires
        k < 10,
    ensures
        is_digit(crate::present::digit_char(k)),
        crate::present::digit_char(k) as int - '0' as int == k,
{
}

/// The decimal digits of `n` read back as `n`.
proof fn lemma_decimal_reads_back(n: nat)
    ensures
        decimal(n).len() > 0,
        all_digits(decimal(n)),
        digits_value(decimal(n)) == n,
    decreases n,
{
    if n >= 10 {
        lemma_decimal_reads_back(n / 10);
        lemma_digit_char(n % 10);
        let d = decimal(n / 10);
        assert(decimal(n) == d.push(crate::present::digit_char(n % 10)));
        assert(decimal(n).drop_last() =~= d);
        assert(decimal(n).last() == crate::present::digit_char(n % 10));
        assert(digits_value(decimal(n)) == digits_value(d) * 10 + ((decimal(n).last() as int - '0' as int) as nat));
        assert(n == (n / 10) * 10 + n % 10);
    } else {
        lemma_digit_char(n);
        assert(decimal(n).drop_last() =~= Seq::<char>::empty());
        assert(decimal(n).last() == crate::present::digit_char(n));
        assert(digits_value(decimal(n)) == digits_value(Seq::<char>::empty()) * 10 + ((decimal(n).last() as int - '0' as int) as nat));
    }
}

/// `#[n]` names the index `n` when it fits in `usize`.
proof fn lemma_decimal_parses(n: nat)
    requires
        n <= usize::MAX,
    ensures
        parsed_usize(decimal(n)) == Some(n as usize),
{
    lemma_decimal_reads_back(n);
    assert(is_digit(decimal(n)[0]));
    assert(unsigned_digits(decimal(n)) == decimal(n));
}

/// Searching in `a + b` from inside `b` finds what searching `b` finds.
proof fn lemma_find_shift(a: Seq<char>, b: Seq<char>, p: Seq<char>, x: int)
    requires
        0 <= x,
        p.len() > 0,
    ensures
        find_from(a + b, p, a.len() + x) == match find_from(b, p, x) {
            Some(j) => Some(j + a.len()),
            None => None,
        },
    decreases b.len() - x,
{
    let s = a + b;
    if x + p.len() > b.len() {
    } else {
        assert(s.subrange(a.len() + x, a.len() + x + p.len()) =~= b.subrange(x, x + p.len()));
        if !matches_at(b, p, x) {
            lemma_find_shift(a, b, p, x + 1);
        }
    }
}

/// A search may start past positions where nothing matches.
proof fn lemma_find_skip(s: Seq<char>, p: Seq<char>, from: int, k: int)
    requires
        0 <= from <= k,
        forall|j: int| from <= j < k ==> !#[trigger] matches_at(s, p, j),
    ensures
        find_from(s, p, from) == find_from(s, p, k),
    decreases k - from,
{
    if from < k {
        lemma_find_skip(s, p, from + 1, k);
        if from + p.len() > s.len() {
            lemma_find_from(s, p, k);
        }
    }
}

/// Expanding `a + b` from inside `b` is expanding `b`.
proof fn lemma_expansion_shift(a: Seq<char>, b: Seq<char>, x: int, tags: Seq<Seq<Seq<char>>>)
    requires
        0 <= x <= b.len(),
    ensures
        expansion_from(a + b, a.len() + x, tags) == expansion_from(b, x, tags),
    decreases b.len() - x,
{
    let s = a + b;
    lemma_find_shift(a, b, open_marker(), x);
    lemma_find_from(b, open_marker(), x);
    match find_from(b, open_marker(), x) {
        None => {
            assert(s.subrange(a.len() + x, s.len() as int) =~= b.subrange(x, b.len() as int));
        },
        Some(start) => {
            lemma_find_shift(a, b, close_marker(), start + 2);
            lemma_find_from(b, close_marker(), start + 2);
            match find_from(b, close_marker(), start + 2) {
                None => {
                    assert(s.subrange(a.len() + x, s.len() as int) =~= b.subrange(x, b.len() as int));
                },
                Some(close) => {
                    assert(s.subrange(a.len() + x, a.len() + start) =~= b.subrange(x, start));
                    assert(s.subrange(a.len() + start + 2, a.len() + close) =~= b.subrange(start + 2, close));
                    assert(s.subrange(a.len() + start, a.len() + close + 1) =~= b.subrange(start, close + 1));
                    lemma_expansion_shift(a, b, close + 1, tags);
                },
            }
        },
    }
}

/// No `#[` starts in `s` before `n`.
pub open spec fn unmarked_before(s: Seq<char>, n: int) -> bool {
    forall|j: int| 0 <= j < n ==> !#[trigger] matches_at(s, open_marker(), j)
}

/// Text with no `#[` in front of the rest is kept as it is.
proof fn lemma_expansion_plain(a: Seq<char>, b: Seq<char>, tags: Seq<Seq<Seq<char>>>)
    requires
        unmarked_before(a + b, a.len() as int),
    ensures
        expansion_from(a + b, 0, tags) == a + expansion_from(b, 0, tags),
{
    let s = a + b;
    lemma_find_skip(s, open_marker(), 0, a.len() as int);
    lemma_find_from(s, open_marker(), a.len() as int);
    lemma_expansion_shift(a, b, 0, tags);
    match find_from(s, open_marker(), 0) {
        None => {
            assert(s.subrange(0, s.len() as int) =~= a + s.subrange(a.len() as int, s.len() as int));
        },
        Some(start) => {
            lemma_find_from(s, close_marker(), start + 2);
            match find_from(s, close_marker(), start + 2) {
                None => {
                    assert(s.subrange(0, s.len() as int) =~= a + s.subrange(a.len() as int, s.len() as int));
                },
                Some(close) => {
                    assert(s.subrange(0, start) =~= a + s.subrange(a.len() as int, start));
                },
            }
        },
    }
}

/// An indexed mention of a tag with a value expands to that tag's mention.
proof fn lemma_expansion_indexed(i: nat, b: Seq<char>, tags: Seq<Seq<Seq<char>>>)
    requires
        i <= usize::MAX,
        i < tags.len(),
        tags[i as int].len() >= 2,
    ensures
        expansion_from(indexed_mention(i) + b, 0, tags) == tag_mention(tags[i as int]) + expansion_from(b, 0, tags),
{
    let m = indexed_mention(i);
    let d = decimal(i);
    let s = m + b;
    lemma_decimal_reads_back(i);
    lemma_decimal_parses(i);
    assert(s.subrange(0, 2) =~= open_marker());
    assert(matches_at(s, open_marker(), 0));
    let close: int = 2 + d.len() as int;
    assert(s[close] == ']');
    assert(s.subrange(close, close + 1) =~= close_marker());
    assert forall|j: int| 2 <= j < close implies !#[trigger] matches_at(s, close_marker(), j) by {
        assert(s[j] == d[j - 2]);
        assert(is_digit(d[j - 2]));
        assert(s.subrange(j, j + 1)[0] == s[j]);
    }
    lemma_find_skip(s, close_marker(), 2, close);
    assert(find_from(s, close_marker(), close) == Some(close));
    assert(s.subrange(2, close) =~= d);
    assert(mention_replacement(d, tags) == Some(tag_mention(tags[i as int])));
    assert(s.subrange(0, 0) =~= Seq::<char>::empty());
    lemma_expansion_shift(m, b, 0, tags);
    assert(m.len() == close + 1);
}

/// The characters `npub1`.
pub open spec fn npub_start() -> Seq<char> {
    seq!['n', 'p', 'u', 'b', '1']
}

/// The NIP-19 text names a key (an `npub`) rather than a note.
pub open spec fn names_key(nip: Seq<char>) -> bool {
    matches_at(nip, npub_start(), 0)
}

/// The prefix that starts a mention of each kind.
pub open spec fn mention_prefix(which: int) -> Seq<char> {
    if which == 0 {
        at_npub_prefix()
    } else if which == 1 {
        uri_npub_prefix()
    } else {
        uri_note_prefix()
    }
}

/// The earliest mention starts with its prefix.
proof fn lemma_earliest_matches(c: Seq<char>, pos: int)
    requires
        0 <= pos <= c.len(),
    ensures
        earliest_mention(c, pos) matches Some((start, which)) ==> matches_at(c, mention_prefix(which), start),
{
    lemma_find_from(c, at_npub_prefix(), pos);
    lemma_find_from(c, uri_npub_prefix(), pos);
    lemma_find_from(c, uri_note_prefix(), pos);
}

/// A run of mention characters reaches past `n` of them.
proof fn lemma_run_covers(c: Seq<char>, i: int, n: int)
    requires
        0 <= i,
        0 <= n,
        i + n <= c.len(),
        forall|j: int| i <= j < i + n ==> mention_char(#[trigger] c[j]),
    ensures
        mention_end(c, i) >= i + n,
    decreases n,
{
    crate::publish::lemma_mention_end(c, i);
    if n > 0 {
        assert(mention_char(c[i]));
        assert(mention_end(c, i) == mention_end(c, i + 1));
        lemma_run_covers(c, i + 1, n - 1);
    }
}

/// A mention's NIP-19 text names a key exactly when it is an `npub` mention.
proof fn lemma_mention_kind(c: Seq<char>, pos: int)
    requires
        0 <= pos <= c.len(),
        earliest_mention(c, pos) is Some,
    ensures
        ({
            let (start, which) = earliest_mention(c, pos)->0;
            let token = c.subrange(start, mention_end(c, start));
            &&& names_key(nip19_text(token)) == (which != 2)
            &&& token.len() > 0
            &&& (token[0] == '@' || token[0] == 'n')
        }),
{
    lemma_earliest(c, pos);
    lemma_earliest_matches(c, pos);
    let (start, which) = earliest_mention(c, pos)->0;
    let p = mention_prefix(which);
    assert(c.subrange(start, start + p.len()) =~= p);
    assert forall|j: int| start <= j < start + p.len() implies mention_char(#[trigger] c[j]) by {
        assert(c[j] == c.subrange(start, start + p.len())[j - start]);
    }
    lemma_run_covers(c, start, p.len() as int);
    let end = mention_end(c, start);
    let token = c.subrange(start, end);
    assert forall|k: int| 0 <= k < p.len() implies #[trigger] token[k] == p[k] by {
        assert(token[k] == c[start + k]);
        assert(c[start + k] == c.subrange(start, start + p.len())[k]);
    }
    let nip = nip19_text(token);
    if which == 0 {
        assert(token[0] == '@');
        assert(nip =~= token.skip(1));
        assert(nip.subrange(0, 5) =~= npub_start());
    } else {
        assert(token[0] == 'n');
        assert(token.subrange(0, 6) =~= nostr_prefix());
        assert(nip =~= token.skip(6));
        if which == 1 {
            assert(nip.subrange(0, 5) =~= npub_start());
        } else {
            assert(nip[1] == 'o');
            assert(nip.subrange(0, 5)[1] == nip[1]);
        }
    }
}

/// What a mention shows once it is published and read back: the mention of
/// the tag it stands for, or the token itself when it names nothing.
pub open spec fn mention_shown(token: Seq<char>, which: int) -> Seq<char> {
    match mention_tag(which != 2, nip19_text(token)) {
        Some(tag) => tag_mention(tag),
        None => token,
    }
}

/// The rest of `c` from `pos` as it reads back: each mention shown as
/// [`mention_shown`] says, all other text as written.
pub open spec fn shown_from(c: Seq<char>, pos: int) -> Seq<char>
    decreases c.len() - pos,
{
    if pos < 0 || pos > c.len() {
        seq![]
    } else {
        match earliest_mention(c, pos) {
            None => c.subrange(pos, c.len() as int),
            Some((start, which)) => {
                proof {
                    lemma_earliest(c, pos);
                }
                c.subrange(pos, start) + mention_shown(c.subrange(start, mention_end(c, start)), which) + shown_from(
                    c,
                    mention_end(c, start),
                )
            },
        }
    }
}

/// Each tag so far is the one that its NIP-19 text stands for.
pub open spec fn tags_match_keys(st: Nip08) -> bool {
    &&& st.keys.len() == st.tags.len()
    &&& forall|j: int| 0 <= j < st.keys.len() ==> mention_tag(names_key(#[trigger] st.keys[j]), st.keys[j]) == Some(st.tags[j])
}

/// A found key is at its position.
proof fn lemma_index_found(keys: Seq<Seq<char>>, k: Seq<char>)
    ensures
        index_of(keys, k) matches Some(i) ==> 0 <= i < keys.len() && keys[i] == k,
    decreases keys.len(),
{
    if keys.len() > 0 {
        lemma_index_found(keys.drop_last(), k);
    }
}

/// What converting from a position gives, relative to the state it started from.
pub open spec fn converted(c: Seq<char>, pos: int, st: Nip08, f: Nip08) -> bool {
    &&& st.out.len() <= f.out.len()
    &&& f.out.subrange(0, st.out.len() as int) == st.out
    &&& st.tags.len() <= f.tags.len() <= st.tags.len() + (c.len() - pos)
    &&& f.tags.subrange(0, st.tags.len() as int) == st.tags
    &&& tags_match_keys(f)
    &&& expansion_from(f.out.skip(st.out.len() as int), 0, f.tags) == shown_from(c, pos)
}

/// What a mention turns into when it is published.
pub open spec fn published_piece(c: Seq<char>, start: int, which: int, st: Nip08) -> Seq<char> {
    let token = c.subrange(start, mention_end(c, start));
    let nip = nip19_text(token);
    match mention_tag(which != 2, nip) {
        Some(tag) => match index_of(st.keys, nip) {
            Some(i) => indexed_mention(i as nat),
            None => indexed_mention(st.tags.len()),
        },
        None => token,
    }
}

/// The piece a mention turns into reads back as the mention shows.
proof fn lemma_piece_reads_back(c: Seq<char>, pos: int, st: Nip08, r2: Seq<char>, tags: Seq<Seq<Seq<char>>>)
    requires
        0 <= pos <= c.len(),
        earliest_mention(c, pos) is Some,
        tags_match_keys(st),
        st.tags.len() + (c.len() - pos) <= usize::MAX + 1,
        ({
            let (start, which) = earliest_mention(c, pos)->0;
            let st2 = mention_step(c, pos, start, which, st);
            &&& st2.tags.len() <= tags.len()
            &&& tags.subrange(0, st2.tags.len() as int) == st2.tags
        }),
    ensures
        ({
            let (start, which) = earliest_mention(c, pos)->0;
            let token = c.subrange(start, mention_end(c, start));
            expansion_from(published_piece(c, start, which, st) + r2, 0, tags) == mention_shown(token, which)
                + expansion_from(r2, 0, tags)
        }),
{
    lemma_earliest(c, pos);
    lemma_mention_kind(c, pos);
    let (start, which) = earliest_mention(c, pos)->0;
    let end = mention_end(c, start);
    let token = c.subrange(start, end);
    let nip = nip19_text(token);
    let st2 = mention_step(c, pos, start, which, st);
    lemma_index_found(st.keys, nip);
    match mention_tag(which != 2, nip) {
        Some(tag) => {
            let i: int = match index_of(st.keys, nip) {
                Some(i) => i,
                None => st.tags.len() as int,
            };
            assert(st2.tags[i] == tag);
            assert(tags[i] == tags.subrange(0, st2.tags.len() as int)[i]);
            lemma_expansion_indexed(i as nat, r2, tags);
        },
        None => {
            assert forall|j: int| 0 <= j < token.len() implies !#[trigger] matches_at(token + r2, open_marker(), j) by {
                if matches_at(token + r2, open_marker(), j) {
                    lemma_mention_end_chars(c, start, start + j);
                    assert((token + r2)[j] == c[start + j]);
                    assert((token + r2).subrange(j, j + 2)[0] == (token + r2)[j]);
                }
            }
            lemma_expansion_plain(token, r2, tags);
        },
    }
}

/// Text before a mention has no `#[` of its own, nor one with the piece after it.
proof fn lemma_before_mention_unmarked(c: Seq<char>, pos: int, start: int, b: Seq<char>)
    requires
        0 <= pos <= start <= c.len(),
        unmarked_before(c, c.len() as int),
        b.len() > 0,
        b[0] != '[',
    ensures
        unmarked_before(c.subrange(pos, start) + b, start - pos),
{
    let a = c.subrange(pos, start);
    assert forall|j: int| 0 <= j < a.len() implies !#[trigger] matches_at(a + b, open_marker(), j) by {
        if matches_at(a + b, open_marker(), j) {
            let w = (a + b).subrange(j, j + 2);
            assert(w[0] == '#' && w[1] == '[');
            if j + 1 < a.len() {
                assert(c.subrange(pos + j, pos + j + 2) =~= w);
                assert(matches_at(c, open_marker(), pos + j));
            } else {
                assert(w[1] == b[0]);
            }
        }
    }
}

/// With no mention left, the rest of `c` is kept and reads back as written.
proof fn lemma_read_back_plain(c: Seq<char>, pos: int, st: Nip08)
    requires
        0 <= pos <= c.len(),
        unmarked_before(c, c.len() as int),
        tags_match_keys(st),
        earliest_mention(c, pos) is None,
    ensures
        converted(c, pos, st, nip08_from(c, pos, st)),
{
    let f = nip08_from(c, pos, st);
    let r = c.subrange(pos, c.len() as int);
    assert(f.out == st.out + r);
    assert(f.tags == st.tags);
    assert(f.out.skip(st.out.len() as int) =~= r);
    assert(f.out.subrange(0, st.out.len() as int) =~= st.out);
    assert(f.tags.subrange(0, st.tags.len() as int) =~= st.tags);
    assert(unmarked_before(r + seq![], r.len() as int)) by {
        assert forall|j: int| 0 <= j < r.len() implies !#[trigger] matches_at(r + seq![], open_marker(), j) by {
            if matches_at(r + seq![], open_marker(), j) {
                assert((r + seq![]).subrange(j, j + 2) =~= c.subrange(pos + j, pos + j + 2));
                assert(matches_at(c, open_marker(), pos + j));
            }
        }
    }
    lemma_expansion_plain(r, seq![], f.tags);
    assert(r + seq![] =~= r);
    assert(expansion_from(Seq::<char>::empty(), 0, f.tags) == Seq::<char>::empty()) by {
        assert(Seq::<char>::empty().subrange(0, 0) =~= Seq::<char>::empty());
    }
}

/// One mention converted, then the rest: what the rest gives extends to `pos`.
#[verifier::spinoff_prover]
proof fn lemma_read_back_step(c: Seq<char>, pos: int, st: Nip08, f: Nip08)
    requires
        0 <= pos <= c.len(),
        unmarked_before(c, c.len() as int),
        tags_match_keys(st),
        st.tags.len() + (c.len() - pos) <= usize::MAX + 1,
        earliest_mention(c, pos) is Some,
        ({
            let (start, which) = earliest_mention(c, pos)->0;
            let end = mention_end(c, start);
            &&& pos <= start < end <= c.len()
            &&& shown_from(c, pos) == c.subrange(pos, start) + mention_shown(c.subrange(start, end), which)
                + shown_from(c, end)
            &&& converted(c, end, mention_step(c, pos, start, which, st), f)
        }),
    ensures
        converted(c, pos, st, f),
{
    lemma_mention_kind(c, pos);
    let (start, which) = earliest_mention(c, pos)->0;
    let end = mention_end(c, start);
    let token = c.subrange(start, end);
    let nip = nip19_text(token);
    let st2 = mention_step(c, pos, start, which, st);
    lemma_index_found(st.keys, nip);
    let r2 = f.out.skip(st2.out.len() as int);
    let a = c.subrange(pos, start);
    let piece = published_piece(c, start, which, st);
    assert(st2.out =~= st.out + a + piece);
    assert(st2.tags.len() <= st.tags.len() + 1);
    assert(f.out =~= st2.out + r2) by {
        assert(f.out =~= f.out.subrange(0, st2.out.len() as int) + r2);
    }
    assert(f.out.subrange(0, st.out.len() as int) =~= st.out);
    assert(f.tags.subrange(0, st.tags.len() as int) =~= st.tags) by {
        assert forall|j: int| 0 <= j < st.tags.len() implies #[trigger] f.tags[j] == st.tags[j] by {
            assert(f.tags[j] == f.tags.subrange(0, st2.tags.len() as int)[j]);
            assert(st2.tags[j] == st.tags[j]);
        }
    }
    lemma_piece_reads_back(c, pos, st, r2, f.tags);
    let b = piece + r2;
    assert(f.out.skip(st.out.len() as int) =~= a + b);
    assert(b[0] == piece[0]);
    lemma_before_mention_unmarked(c, pos, start, b);
    lemma_expansion_plain(a, b, f.tags);
    assert(st.tags.len() <= st2.tags.len());
    assert(st.out.len() <= f.out.len());
    assert(st.tags.len() <= f.tags.len() <= st.tags.len() + (c.len() - pos));
    assert(tags_match_keys(f));
    assert(expansion_from(b, 0, f.tags) == mention_shown(token, which) + shown_from(c, end));
    assert(expansion_from(f.out.skip(st.out.len() as int), 0, f.tags) == shown_from(c, pos));
}

/// Converting the rest of `c` from `pos` extends what was converted so far,
/// keeps each tag matched to its text, and what it writes reads back as the
/// rest of `c` shows.
proof fn lemma_read_back_from(c: Seq<char>, pos: int, st: Nip08)
    requires
        0 <= pos <= c.len(),
        unmarked_before(c, c.len() as int),
        tags_match_keys(st),
        st.tags.len() + (c.len() - pos) <= usize::MAX + 1,
    ensures
        converted(c, pos, st, nip08_from(c, pos, st)),
    decreases c.len() - pos,
{
    match earliest_mention(c, pos) {
        None => {
            lemma_read_back_plain(c, pos, st);
        },
        Some((start, which)) => {
            lemma_earliest(c, pos);
            lemma_mention_kind(c, pos);
            let end = mention_end(c, start);
            let nip = nip19_text(c.subrange(start, end));
            let st2 = mention_step(c, pos, start, which, st);
            lemma_index_found(st.keys, nip);
            assert(tags_match_keys(st2));
            assert(st2.tags.len() <= st.tags.len() + 1);
            lemma_read_back_from(c, end, st2);
            lemma_read_back_step(c, pos, st, nip08_from(c, end, st2));
        },
    }
}

/// Every character of a mention run is a mention character.
proof fn lemma_mention_end_chars(c: Seq<char>, i: int, j: int)
    requires
        0 <= i <= j < mention_end(c, i),
    ensures
        mention_char(c[j]),
        c[j] != '#',
    decreases j - i,
{
    if i < j {
        lemma_mention_end_chars(c, i + 1, j);
    }
}

/// A note published with NIP-08 mentions reads back as it was written, each
/// mention shown as the profile or note that its tag names: expanding the
/// published text with the published tags gives [`shown_from`]. This holds
/// for any text with no `#[` of its own.
pub proof fn law_published_mentions_read_back(content: Seq<char>)
    requires
        unmarked_before(content, content.len() as int),
        content.len() <= usize::MAX,
    ensures
        ({
            let published = nip08_from(content, 0, Nip08 { out: seq![], keys: seq![], tags: seq![] });
            expansion_from(published.out, 0, published.tags) == shown_from(content, 0)
        }),
{
    let init = Nip08 { out: seq![], keys: seq![], tags: seq![] };
    lemma_read_back_from(content, 0, init);
    let f = nip08_from(content, 0, init);
    assert(f.out.skip(0) =~= f.out);
}

} // verus!
