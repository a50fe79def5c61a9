//! NIP-30 custom emoji: the shortcodes an event declares and where its text
//! uses them, and the rendered parts that show them.

use vstd::prelude::*;

use crate::text::{
    chars_of, find_exec, find_from, lemma_find_from, push_range, same_chars, string_of,
    is_whitespace, trim_end_chars, trim_end_spec, trim_start_chars, trim_start_spec,
};

verus! {

/// A custom emoji: its shortcode and image URL.
#[derive(Debug, Clone, PartialEq, Eq)]
pub struct CustomEmoji {
    pub shortcode: String,
    pub url: String,
}

/// The mathematical value of a [`CustomEmoji`].
pub struct CustomEmojiView {
    pub shortcode: Seq<char>,
    pub url: Seq<char>,
}

impl View for CustomEmoji {
    type V = CustomEmojiView;

    open spec fn view(&self) -> CustomEmojiView {
        CustomEmojiView { shortcode: self.shortcode@, url: self.url@ }
    }
}

impl CustomEmoji {
    /// A copy of this emoji.
    pub fn duplicate(&self) -> (r: CustomEmoji)
        ensures
            r@ == self@,
    {
        CustomEmoji { shortcode: self.shortcode.clone(), url: self.url.clone() }
    }
}

/// The values of a list of emoji.
pub open spec fn emoji_views(v: Seq<CustomEmoji>) -> Seq<CustomEmojiView> {
    v.map_values(|e: CustomEmoji| e@)
}

/// The URL of the first entry of `table[i..]` with this shortcode.
pub open spec fn lookup_from(table: Seq<CustomEmojiView>, i: int, shortcode: Seq<char>) -> Option<Seq<char>>
    decreases table.len() - i,
{
    if i < 0 || i >= table.len() {
        None
    } else if table[i].shortcode == shortcode {
        Some(table[i].url)
    } else {
        lookup_from(table, i + 1, shortcode)
    }
}

/// The URL that a shortcode table gives for `shortcode`.
pub open spec fn lookup(table: Seq<CustomEmojiView>, shortcode: Seq<char>) -> Option<Seq<char>> {
    lookup_from(table, 0, shortcode)
}

/// The URL that `table` gives for `shortcode`.
pub fn lookup_emoji(table: &Vec<CustomEmoji>, shortcode: &String) -> (r: Option<String>)
    ensures
        r matches Some(u) ==> lookup(emoji_views(table@), shortcode@) == Some(u@),
        r is None ==> lookup(emoji_views(table@), shortcode@) is None,
{
    let ghost t = emoji_views(table@);
    let mut i: usize = 0;
    while i < table.len()
        invariant
            i <= table.len(),
            t == emoji_views(table@),
            lookup(t, shortcode@) == lookup_from(t, i as int, shortcode@),
        decreases table.len() - i,
    {
        if table[i].shortcode == *shortcode {
            return Some(table[i].url.clone());
        }
        i = i + 1;
    }
    None
}

/// A shortcode is 1 to 64 ASCII letters, digits, `-` or `_`.
pub open spec fn valid_shortcode(s: Seq<char>) -> bool {
    &&& 0 < s.len() <= 64
    &&& forall|i: int| 0 <= i < s.len() ==> shortcode_char(#[trigger] s[i])
}

/// A character allowed in a shortcode.
pub open spec fn shortcode_char(c: char) -> bool {
    ('a' <= c && c <= 'z') || ('A' <= c && c <= 'Z') || ('0' <= c && c <= '9') || c == '-' || c == '_'
}

/// The characters `emoji`.
pub open spec fn emoji_tag_name() -> Seq<char> {
    seq!['e', 'm', 'o', 'j', 'i']
}

/// The shortcode table that the first `n` tags declare: each `emoji` tag with a
/// valid shortcode and a URL, the first declaration of a shortcode winning.
pub open spec fn emoji_table_of(tags: Seq<Seq<Seq<char>>>, n: int) -> Seq<CustomEmojiView>
    decreases n,
{
    if n <= 0 {
        seq![]
    } else {
        let prev = emoji_table_of(tags, n - 1);
        let tag = tags[n - 1];
        if tag.len() >= 3 && tag[0] == emoji_tag_name() && valid_shortcode(tag[1]) && lookup(prev, tag[1]) is None {
            prev.push(CustomEmojiView { shortcode: tag[1], url: tag[2] })
        } else {
            prev
        }
    }
}

/// The shortcode table that a tag list declares.
pub open spec fn emoji_table(tags: Seq<Seq<Seq<char>>>) -> Seq<CustomEmojiView> {
    emoji_table_of(tags, tags.len() as int)
}

/// `s` is a valid shortcode.
fn is_valid_shortcode(s: &String) -> (r: bool)
    ensures
        r == valid_shortcode(s@),
{
    let c = chars_of(s.as_str());
    if c.len() == 0 || c.len() > 64 {
        return false;
    }
    let mut i: usize = 0;
    while i < c.len()
        invariant
            i <= c.len(),
            c@ == s@,
            forall|j: int| 0 <= j < i ==> shortcode_char(#[trigger] c@[j]),
        decreases c.len() - i,
    {
        let ch = c[i];
        if !(('a' <= ch && ch <= 'z') || ('A' <= ch && ch <= 'Z') || ('0' <= ch && ch <= '9')
            || ch == '-' || ch == '_') {
            assert(!shortcode_char(s@[i as int]));
            return false;
        }
        i = i + 1;
    }
    true
}

/// The shortcodes that the `emoji` tags of a tag list declare, with their URLs.
pub fn custom_emoji_tags(tags: &Vec<Vec<String>>) -> (r: Vec<CustomEmoji>)
    ensures
        emoji_views(r@) == emoji_table(tags.deep_view()),
{
    let ghost t = tags.deep_view();
    let name: Vec<char> = vec!['e', 'm', 'o', 'j', 'i'];
    assert(name@ =~= emoji_tag_name());
    let mut table: Vec<CustomEmoji> = Vec::new();
    let mut i: usize = 0;
    while i < tags.len()
        invariant
            i <= tags.len(),
            t == tags.deep_view(),
            name@ == emoji_tag_name(),
            emoji_views(table@) =~= emoji_table_of(t, i as int),
        decreases tags.len() - i,
    {
        let tag = &tags[i];
        assert(t[i as int] == tag.deep_view());
        if tag.len() >= 3 {
            assert(tag.deep_view()[0] == tag[0]@);
            assert(tag.deep_view()[1] == tag[1]@);
            assert(tag.deep_view()[2] == tag[2]@);
            if same_chars(&chars_of(tag[0].as_str()), &name) && is_valid_shortcode(&tag[1]) {
                if lookup_emoji(&table, &tag[1]).is_none() {
                    let ghost before = table@;
                    table.push(CustomEmoji { shortcode: tag[1].clone(), url: tag[2].clone() });
                    assert(emoji_views(table@) =~= emoji_views(before).push(
                        CustomEmojiView { shortcode: t[i as int][1], url: t[i as int][2] },
                    ));
                }
            }
        }
        i = i + 1;
    }
    table
}

/// A shortcode occurrence: its start, its end (after the closing colon) and the
/// shortcode; positions are character indices.
pub type EmojiRef = (int, int, Seq<char>);

/// The shortcode occurrences in `c[cursor..]`: scanning for a colon, the text up to
/// the next colon is a reference when the table declares it; otherwise the scan
/// resumes just after the first colon, so URL colons do not hide a later one.
pub open spec fn emoji_refs_from(c: Seq<char>, cursor: int, table: Seq<CustomEmojiView>) -> Seq<EmojiRef>
    decreases c.len() - cursor,
{
    if cursor < 0 || cursor >= c.len() {
        seq![]
    } else {
        match find_from(c, seq![':'], cursor) {
            None => seq![],
            Some(start) => match find_from(c, seq![':'], start + 1) {
                None => seq![],
                Some(end) => {
                    proof {
                        lemma_find_from(c, seq![':'], cursor);
                        lemma_find_from(c, seq![':'], start + 1);
                    }
                    let code = c.subrange(start + 1, end);
                    if lookup(table, code) is Some {
                        seq![(start, end + 1, code)] + emoji_refs_from(c, end + 1, table)
                    } else {
                        emoji_refs_from(c, start + 1, table)
                    }
                },
            },
        }
    }
}

/// The shortcode occurrences of `content`, as (start, end, shortcode) with
/// byte offsets, so that `content[start..end]` is `:shortcode:`.
pub fn custom_emoji_references(content: &str, table: &Vec<CustomEmoji>) -> (r: Vec<(usize, usize, String)>)
    requires
        crate::media::utf8_len(content@) <= usize::MAX,
    ensures
        r@.len() == emoji_refs_from(content@, 0, emoji_views(table@)).len(),
        forall|i: int| 0 <= i < r@.len() ==> {
            let g = emoji_refs_from(content@, 0, emoji_views(table@))[i];
            &&& (#[trigger] r@[i]).0 as int == crate::media::utf8_len(content@.take(g.0))
            &&& r@[i].1 as int == crate::media::utf8_len(content@.take(g.1))
            &&& r@[i].2@ == g.2
        },
        forall|i: int| 0 <= i < r@.len() ==> (#[trigger] r@[i]).0 < r@[i].1,
        forall|i: int| 0 <= i < r@.len() - 1 ==> (#[trigger] r@[i]).1 <= r@[i + 1].0,
{
    let c = chars_of(content);
    let refs = refs_in_chars(&c, table);
    let ghost g = emoji_refs_from(content@, 0, emoji_views(table@));
    proof {
        lemma_refs_ordered(content@, 0, emoji_views(table@));
    }
    let mut out: Vec<(usize, usize, String)> = Vec::new();
    let mut i: usize = 0;
    while i < refs.len()
        invariant
            i <= refs.len(),
            c@ == content@,
            crate::media::utf8_len(content@) <= usize::MAX,
            g == emoji_refs_from(content@, 0, emoji_views(table@)),
            refs@.len() == g.len(),
            forall|k: int| 0 <= k < refs@.len() ==> {
                &&& (#[trigger] refs@[k]).0 as int == g[k].0
                &&& refs@[k].1 as int == g[k].1
                &&& refs@[k].2@ == g[k].2
            },
            forall|k: int| 0 <= k < g.len() ==> 0 <= (#[trigger] g[k]).0 && g[k].0 + 1 < g[k].1 <= content@.len(),
            out@.len() == i,
            forall|k: int| 0 <= k < i ==> {
                &&& (#[trigger] out@[k]).0 as int == crate::media::utf8_len(content@.take(g[k].0))
                &&& out@[k].1 as int == crate::media::utf8_len(content@.take(g[k].1))
                &&& out@[k].2@ == g[k].2
            },
        decreases refs.len() - i,
    {
        let (start, end, code) = (refs[i].0, refs[i].1, refs[i].2.clone());
        assert(g[i as int] == g[i as int]);
        let s = crate::media::byte_offset(&c, start);
        let e = crate::media::byte_offset(&c, end);
        out.push((s, e, code));
        i = i + 1;
    }
    proof {
        assert forall|k: int| 0 <= k < out@.len() implies (#[trigger] out@[k]).0 < out@[k].1 by {
            lemma_utf8_len_grows(content@, g[k].0, g[k].1);
        }
        assert forall|k: int| 0 <= k < out@.len() - 1 implies (#[trigger] out@[k]).1 <= out@[k + 1].0 by {
            assert(g[k].1 <= g[k + 1].0);
            lemma_utf8_len_grows(content@, g[k].1, g[k + 1].0);
        }
    }
    out
}

/// A longer prefix is at least as long in bytes, and longer when it has more
/// characters.
proof fn lemma_utf8_len_grows(s: Seq<char>, a: int, b: int)
    requires
        0 <= a <= b <= s.len(),
    ensures
        crate::media::utf8_len(s.take(a)) <= crate::media::utf8_len(s.take(b)),
        a < b ==> crate::media::utf8_len(s.take(a)) < crate::media::utf8_len(s.take(b)),
    decreases b - a,
{
    if a < b {
        lemma_utf8_len_grows(s, a, b - 1);
        assert(s.take(b).drop_last() =~= s.take(b - 1));
        assert(crate::media::utf8_width(s.take(b).last()) > 0);
    }
}

/// The spec-level view of a list of references.
pub open spec fn refs_view(r: Seq<(usize, usize, String)>) -> Seq<EmojiRef> {
    r.map_values(|x: (usize, usize, String)| (x.0 as int, x.1 as int, x.2@))
}

/// [`custom_emoji_references`] over characters.
pub fn refs_in_chars(c: &Vec<char>, table: &Vec<CustomEmoji>) -> (r: Vec<(usize, usize, String)>)
    ensures
        refs_view(r@) == emoji_refs_from(c@, 0, emoji_views(table@)),
        forall|i: int| 0 <= i < r@.len() ==> {
            let g = emoji_refs_from(c@, 0, emoji_views(table@))[i];
            &&& (#[trigger] r@[i]).0 as int == g.0
            &&& r@[i].1 as int == g.1
            &&& r@[i].2@ == g.2
        },
{
    let ghost t = emoji_views(table@);
    let colon: Vec<char> = vec![':'];
    assert(colon@ =~= seq![':']);
    let mut refs: Vec<(usize, usize, String)> = Vec::new();
    let mut cursor: usize = 0;
    while cursor < c.len()
        invariant
            cursor <= c.len(),
            colon@ == seq![':'],
            t == emoji_views(table@),
            refs_view(refs@) + emoji_refs_from(c@, cursor as int, t) == emoji_refs_from(c@, 0, t),
        ensures
            cursor == c.len(),
        decreases c.len() - cursor,
    {
        proof {
            lemma_find_from(c@, seq![':'], cursor as int);
        }
        let start = match find_exec(c, &colon, cursor) {
            Some(s) => s,
            None => {
                assert(refs_view(refs@) + seq![] =~= refs_view(refs@));
                cursor = c.len();
                assert(emoji_refs_from(c@, cursor as int, t) =~= seq![]);
                break;
            },
        };
        proof {
            lemma_find_from(c@, seq![':'], start + 1);
        }
        let end = match find_exec(c, &colon, start + 1) {
            Some(e) => e,
            None => {
                cursor = c.len();
                break;
            },
        };
        let mut code_chars: Vec<char> = Vec::new();
        push_range(&mut code_chars, c, start + 1, end);
        let code = string_of(&code_chars);
        if lookup_emoji(table, &code).is_some() {
            let ghost before = refs@;
            refs.push((start, end + 1, code));
            assert(refs_view(refs@) =~= refs_view(before).push((start as int, end + 1, code@)));
            assert(seq![(start as int, end + 1, code@)] + emoji_refs_from(c@, end + 1, t) =~= seq![(start as int, end + 1, code@)].add(emoji_refs_from(c@, end + 1, t)));
            assert(refs_view(before).push((start as int, end + 1, code@)) + emoji_refs_from(c@, end + 1, t) =~= refs_view(before) + (seq![(start as int, end + 1, code@)] + emoji_refs_from(c@, end + 1, t)));
            cursor = end + 1;
        } else {
            cursor = start + 1;
        }
    }
    proof {
        assert(emoji_refs_from(c@, cursor as int, t) =~= seq![]);
        assert(refs_view(refs@) + seq![] =~= refs_view(refs@));
        assert forall|i: int| 0 <= i < refs@.len() implies {
            let g = emoji_refs_from(c@, 0, t)[i];
            &&& (#[trigger] refs@[i]).0 as int == g.0
            &&& refs@[i].1 as int == g.1
            &&& refs@[i].2@ == g.2
        } by {
            assert(refs_view(refs@)[i] == (refs@[i].0 as int, refs@[i].1 as int, refs@[i].2@));
        }
    }
    refs
}

} // verus!

verus! {

/// A run of rendered text: plain text, a profile mention, or a custom emoji
/// (whose text is its `:shortcode:`).
#[derive(Debug, Clone, PartialEq, Eq)]
pub struct RenderedPart {
    pub text: String,
    pub mention: bool,
    pub emoji: Option<CustomEmoji>,
}

/// The mathematical value of a [`RenderedPart`].
pub struct RenderedPartView {
    pub text: Seq<char>,
    pub mention: bool,
    pub emoji: Option<CustomEmojiView>,
}

impl View for RenderedPart {
    type V = RenderedPartView;

    open spec fn view(&self) -> RenderedPartView {
        RenderedPartView {
            text: self.text@,
            mention: self.mention,
            emoji: match self.emoji {
                Some(e) => Some(e@),
                None => None,
            },
        }
    }
}

/// The values of a list of parts.
pub open spec fn part_views(v: Seq<RenderedPart>) -> Seq<RenderedPartView> {
    v.map_values(|p: RenderedPart| p@)
}

/// Appending text to a part list: empty text changes nothing; text joins the
/// last part when that part is not an emoji and has the same mention flag;
/// otherwise it starts a new part.
pub open spec fn push_text(parts: Seq<RenderedPartView>, text: Seq<char>, mention: bool) -> Seq<RenderedPartView> {
    if text.len() == 0 {
        parts
    } else if parts.len() > 0 && parts.last().emoji is None && parts.last().mention == mention {
        parts.drop_last().push(RenderedPartView { text: parts.last().text + text, mention, emoji: None })
    } else {
        parts.push(RenderedPartView { text, mention, emoji: None })
    }
}

/// The part that shows a custom emoji.
pub open spec fn emoji_part(shortcode: Seq<char>, url: Seq<char>) -> RenderedPartView {
    RenderedPartView {
        text: seq![':'] + shortcode + seq![':'],
        mention: false,
        emoji: Some(CustomEmojiView { shortcode, url }),
    }
}

impl RenderedPart {
    /// A copy of this part.
    pub fn duplicate(&self) -> (r: RenderedPart)
        ensures
            r@ == self@,
    {
        RenderedPart {
            text: self.text.clone(),
            mention: self.mention,
            emoji: match &self.emoji {
                Some(e) => Some(e.duplicate()),
                None => None,
            },
        }
    }
}

/// Appends `text` to the parts as [`push_text`] describes.
pub fn push_content_part(parts: &mut Vec<RenderedPart>, text: &Vec<char>, mention: bool)
    ensures
        part_views(final(parts)@) == push_text(part_views(old(parts)@), text@, mention),
{
    if text.len() == 0 {
        return;
    }
    let n = parts.len();
    if n > 0 && parts[n - 1].emoji.is_none() && parts[n - 1].mention == mention {
        let ghost before = parts@;
        let last = parts.pop().unwrap();
        let mut joined = chars_of(last.text.as_str());
        crate::text::push_all(&mut joined, text);
        parts.push(RenderedPart { text: string_of(&joined), mention, emoji: None });
        assert(part_views(parts@) =~= part_views(before).drop_last().push(
            RenderedPartView { text: part_views(before).last().text + text@, mention, emoji: None },
        ));
    } else {
        let ghost before = parts@;
        parts.push(RenderedPart { text: string_of(text), mention, emoji: None });
        assert(part_views(parts@) =~= part_views(before).push(
            RenderedPartView { text: text@, mention, emoji: None },
        ));
    }
}

/// Appends the part that shows `emoji`.
pub fn push_emoji_part(parts: &mut Vec<RenderedPart>, emoji: CustomEmoji)
    ensures
        part_views(final(parts)@) == part_views(old(parts)@).push(emoji_part(emoji@.shortcode, emoji@.url)),
{
    let mut text: Vec<char> = vec![':'];
    crate::text::push_all(&mut text, &chars_of(emoji.shortcode.as_str()));
    text.push(':');
    let ghost before = parts@;
    let ghost e = emoji@;
    assert(text@ =~= seq![':'] + e.shortcode + seq![':']);
    parts.push(RenderedPart { text: string_of(&text), mention: false, emoji: Some(emoji) });
    assert(part_views(parts@) =~= part_views(before).push(emoji_part(e.shortcode, e.url)));
}

/// Shortcode occurrences are ordered, non-overlapping and inside the text.
pub proof fn lemma_refs_ordered(c: Seq<char>, cursor: int, table: Seq<CustomEmojiView>)
    ensures
        forall|k: int| 0 <= k < emoji_refs_from(c, cursor, table).len() ==> {
            let r = #[trigger] emoji_refs_from(c, cursor, table)[k];
            &&& cursor <= r.0
            &&& r.0 + 1 < r.1 <= c.len()
            &&& r.2 == c.subrange(r.0 + 1, r.1 - 1)
            &&& lookup(table, r.2) is Some
        },
        forall|k: int| 0 <= k < emoji_refs_from(c, cursor, table).len() - 1 ==>
            (#[trigger] emoji_refs_from(c, cursor, table)[k]).1 <= emoji_refs_from(c, cursor, table)[k + 1].0,
    decreases c.len() - cursor,
{
    if cursor < 0 || cursor >= c.len() {
    } else {
        lemma_find_from(c, seq![':'], cursor);
        match find_from(c, seq![':'], cursor) {
            None => {},
            Some(start) => {
                lemma_find_from(c, seq![':'], start + 1);
                match find_from(c, seq![':'], start + 1) {
                    None => {},
                    Some(end) => {
                        let code = c.subrange(start + 1, end);
                        if lookup(table, code) is Some {
                            lemma_refs_ordered(c, end + 1, table);
                            let rest = emoji_refs_from(c, end + 1, table);
                            let all = emoji_refs_from(c, cursor, table);
                            assert(all =~= seq![(start, end + 1, code)] + rest);
                            assert forall|k: int| 0 <= k < all.len() - 1 implies (#[trigger] all[k]).1 <= all[k + 1].0 by {
                                if k > 0 {
                                    assert(all[k] == rest[k - 1]);
                                    assert(all[k + 1] == rest[k]);
                                } else {
                                    assert(all[1] == rest[0]);
                                }
                            }
                            assert forall|k: int| 0 <= k < all.len() implies {
                                let r = #[trigger] all[k];
                                &&& cursor <= r.0
                                &&& r.0 + 1 < r.1 <= c.len()
                                &&& r.2 == c.subrange(r.0 + 1, r.1 - 1)
                                &&& lookup(table, r.2) is Some
                            } by {
                                if k > 0 {
                                    assert(all[k] == rest[k - 1]);
                                }
                            }
                        } else {
                            lemma_refs_ordered(c, start + 1, table);
                        }
                    },
                }
            },
        }
    }
}

/// One plain part with its shortcode occurrences from the `k`-th on replaced by
/// emoji parts, appended to `out`; `cursor` is where the text not yet emitted begins.
pub open spec fn emojify_text_from(
    out: Seq<RenderedPartView>,
    t: Seq<char>,
    refs: Seq<EmojiRef>,
    k: int,
    cursor: int,
    table: Seq<CustomEmojiView>,
) -> Seq<RenderedPartView>
    decreases refs.len() - k,
{
    if k < 0 || k >= refs.len() {
        push_text(out, t.subrange(cursor, t.len() as int), false)
    } else {
        let r = refs[k];
        let before = push_text(out, t.subrange(cursor, r.0), false);
        let url = match lookup(table, r.2) {
            Some(u) => u,
            None => seq![],
        };
        emojify_text_from(before.push(emoji_part(r.2, url)), t, refs, k + 1, r.1, table)
    }
}

/// The first `n` parts with the shortcodes in their plain text shown as emoji.
pub open spec fn emojify_prefix(parts: Seq<RenderedPartView>, n: int, table: Seq<CustomEmojiView>) -> Seq<RenderedPartView>
    decreases n,
{
    if n <= 0 {
        seq![]
    } else {
        let out = emojify_prefix(parts, n - 1, table);
        let p = parts[n - 1];
        if p.mention || p.emoji is Some {
            out.push(p)
        } else {
            emojify_text_from(out, p.text, emoji_refs_from(p.text, 0, table), 0, 0, table)
        }
    }
}

/// The parts with every declared shortcode in plain text shown as an emoji;
/// with no declared shortcodes, the parts unchanged.
pub open spec fn emojified(parts: Seq<RenderedPartView>, table: Seq<CustomEmojiView>) -> Seq<RenderedPartView> {
    if table.len() == 0 {
        parts
    } else {
        emojify_prefix(parts, parts.len() as int, table)
    }
}

/// Splits the plain parts around the custom emoji that `table` declares.
pub fn emojify_parts(parts: Vec<RenderedPart>, table: &Vec<CustomEmoji>) -> (r: Vec<RenderedPart>)
    ensures
        part_views(r@) == emojified(part_views(parts@), emoji_views(table@)),
{
    if table.len() == 0 {
        return parts;
    }
    let ghost t = emoji_views(table@);
    let ghost pv = part_views(parts@);
    let mut output: Vec<RenderedPart> = Vec::new();
    let mut i: usize = 0;
    while i < parts.len()
        invariant
            i <= parts.len(),
            t == emoji_views(table@),
            pv == part_views(parts@),
            table.len() > 0,
            part_views(output@) == emojify_prefix(pv, i as int, t),
        decreases parts.len() - i,
    {
        let part = &parts[i];
        assert(pv[i as int] == part@);
        if part.mention || part.emoji.is_some() {
            let ghost before = output@;
            output.push(part.duplicate());
            assert(part_views(output@) =~= part_views(before).push(part@));
        } else {
            let text = chars_of(part.text.as_str());
            let refs = refs_in_chars(&text, table);
            let ghost g = emoji_refs_from(text@, 0, t);
            proof {
                lemma_refs_ordered(text@, 0, t);
            }
            let mut cursor: usize = 0;
            let mut k: usize = 0;
            while k < refs.len()
                invariant
                    k <= refs.len(),
                    t == emoji_views(table@),
                    text@ == part@.text,
                    g == emoji_refs_from(text@, 0, t),
                    refs_view(refs@) == g,
                    forall|j: int| 0 <= j < refs@.len() ==> {
                        &&& (#[trigger] refs@[j]).0 as int == g[j].0
                        &&& refs@[j].1 as int == g[j].1
                        &&& refs@[j].2@ == g[j].2
                    },
                    forall|j: int| 0 <= j < g.len() ==> {
                        let r = #[trigger] g[j];
                        &&& 0 <= r.0
                        &&& r.0 + 1 < r.1 <= text@.len()
                        &&& lookup(t, r.2) is Some
                    },
                    forall|j: int| 0 <= j < g.len() - 1 ==> (#[trigger] g[j]).1 <= g[j + 1].0,
                    k == 0 ==> cursor == 0,
                    k > 0 ==> cursor as int == g[k - 1].1,
                    cursor <= text@.len(),
                    emojify_text_from(part_views(output@), text@, g, k as int, cursor as int, t)
                        == emojify_prefix(pv, i + 1, t),
                decreases refs.len() - k,
            {
                let start = refs[k].0;
                let end = refs[k].1;
                assert(refs@[k as int].0 as int == g[k as int].0);
                if k > 0 {
                    assert(g[k - 1].1 <= g[k as int].0);
                }
                let mut before_text: Vec<char> = Vec::new();
                push_range(&mut before_text, &text, cursor, start);
                push_content_part(&mut output, &before_text, false);
                let url = lookup_emoji(table, &refs[k].2);
                let url = match url {
                    Some(u) => u,
                    None => {
                        assert(false);
                        String::new()
                    },
                };
                push_emoji_part(&mut output, CustomEmoji { shortcode: refs[k].2.clone(), url });
                cursor = end;
                k = k + 1;
            }
            let mut rest: Vec<char> = Vec::new();
            push_range(&mut rest, &text, cursor, text.len());
            push_content_part(&mut output, &rest, false);
        }
        i = i + 1;
    }
    output
}

} // verus!

verus! {

/// Parts with leading whitespace removed from the front, dropping parts that
/// become empty, until one keeps some text.
pub open spec fn trim_front(parts: Seq<RenderedPartView>) -> Seq<RenderedPartView>
    decreases parts.len(),
{
    if parts.len() == 0 {
        parts
    } else {
        let t = trim_start_spec(parts[0].text);
        if t.len() == 0 {
            trim_front(parts.skip(1))
        } else {
            parts.update(0, RenderedPartView { text: t, mention: parts[0].mention, emoji: parts[0].emoji })
        }
    }
}

/// Parts with trailing whitespace removed from the back, dropping parts that
/// become empty, until one keeps some text.
pub open spec fn trim_back(parts: Seq<RenderedPartView>) -> Seq<RenderedPartView>
    decreases parts.len(),
{
    if parts.len() == 0 {
        parts
    } else {
        let last = parts.last();
        let t = trim_end_spec(last.text);
        if t.len() == 0 {
            trim_back(parts.drop_last())
        } else {
            parts.update(parts.len() - 1, RenderedPartView { text: t, mention: last.mention, emoji: last.emoji })
        }
    }
}

/// Parts of plain text: none empty, none an emoji.
pub open spec fn plain_parts(parts: Seq<RenderedPartView>) -> bool {
    forall|i: int| 0 <= i < parts.len() ==> (#[trigger] parts[i]).text.len() > 0 && parts[i].emoji is None
}

/// Parts as they are shown: none empty, and each emoji part shows its
/// shortcode between colons and is no mention.
pub open spec fn shown_parts(parts: Seq<RenderedPartView>) -> bool {
    forall|i: int| 0 <= i < parts.len() ==> {
        &&& (#[trigger] parts[i]).text.len() > 0
        &&& parts[i].emoji matches Some(e) ==> parts[i].text == seq![':'] + e.shortcode + seq![':'] && !parts[i].mention
    }
}

/// Appending text keeps parts plain, and keeps them as shown.
pub proof fn lemma_push_text_parts(parts: Seq<RenderedPartView>, text: Seq<char>, mention: bool)
    ensures
        plain_parts(parts) ==> plain_parts(push_text(parts, text, mention)),
        shown_parts(parts) ==> shown_parts(push_text(parts, text, mention)),
{
    let r = push_text(parts, text, mention);
    if text.len() > 0 && parts.len() > 0 && parts.last().emoji is None && parts.last().mention == mention {
        assert forall|i: int| 0 <= i < r.len() - 1 implies r[i] == parts[i] by {}
    } else if text.len() > 0 {
        assert forall|i: int| 0 <= i < r.len() - 1 implies r[i] == parts[i] by {}
    }
}

/// Trimming the front keeps parts plain.
pub proof fn lemma_trim_front_plain(parts: Seq<RenderedPartView>)
    requires
        plain_parts(parts),
    ensures
        plain_parts(trim_front(parts)),
    decreases parts.len(),
{
    if parts.len() > 0 && trim_start_spec(parts[0].text).len() == 0 {
        assert forall|i: int| 0 <= i < parts.skip(1).len() implies (#[trigger] parts.skip(1)[i]).text.len() > 0
            && parts.skip(1)[i].emoji is None by {
            assert(parts.skip(1)[i] == parts[i + 1]);
        }
        lemma_trim_front_plain(parts.skip(1));
    }
}

/// Trimming the back keeps parts plain.
pub proof fn lemma_trim_back_plain(parts: Seq<RenderedPartView>)
    requires
        plain_parts(parts),
    ensures
        plain_parts(trim_back(parts)),
    decreases parts.len(),
{
    if parts.len() > 0 && trim_end_spec(parts.last().text).len() == 0 {
        assert forall|i: int| 0 <= i < parts.drop_last().len() implies (#[trigger] parts.drop_last()[i]).text.len() > 0
            && parts.drop_last()[i].emoji is None by {
            assert(parts.drop_last()[i] == parts[i]);
        }
        lemma_trim_back_plain(parts.drop_last());
    }
}

proof fn lemma_emojify_text_shown(
    out: Seq<RenderedPartView>,
    t: Seq<char>,
    refs: Seq<EmojiRef>,
    k: int,
    cursor: int,
    table: Seq<CustomEmojiView>,
)
    requires
        shown_parts(out),
    ensures
        shown_parts(emojify_text_from(out, t, refs, k, cursor, table)),
    decreases refs.len() - k,
{
    if k < 0 || k >= refs.len() {
        lemma_push_text_parts(out, t.subrange(cursor, t.len() as int), false);
    } else {
        let r = refs[k];
        let before = push_text(out, t.subrange(cursor, r.0), false);
        lemma_push_text_parts(out, t.subrange(cursor, r.0), false);
        let url = match lookup(table, r.2) {
            Some(u) => u,
            None => seq![],
        };
        let next = before.push(emoji_part(r.2, url));
        assert forall|i: int| 0 <= i < next.len() implies {
            &&& (#[trigger] next[i]).text.len() > 0
            &&& next[i].emoji matches Some(e) ==> next[i].text == seq![':'] + e.shortcode + seq![':'] && !next[i].mention
        } by {
            if i < before.len() {
                assert(next[i] == before[i]);
            } else {
                assert((seq![':'] + r.2 + seq![':']).len() > 0);
            }
        }
        lemma_emojify_text_shown(next, t, refs, k + 1, r.1, table);
    }
}

proof fn lemma_emojify_prefix_shown(parts: Seq<RenderedPartView>, n: int, table: Seq<CustomEmojiView>)
    requires
        shown_parts(parts),
        n <= parts.len(),
    ensures
        shown_parts(emojify_prefix(parts, n, table)),
    decreases n,
{
    if n > 0 {
        lemma_emojify_prefix_shown(parts, n - 1, table);
        let out = emojify_prefix(parts, n - 1, table);
        let p = parts[n - 1];
        if p.mention || p.emoji is Some {
            let r = out.push(p);
            assert forall|i: int| 0 <= i < r.len() implies {
                &&& (#[trigger] r[i]).text.len() > 0
                &&& r[i].emoji matches Some(e) ==> r[i].text == seq![':'] + e.shortcode + seq![':'] && !r[i].mention
            } by {
                if i < out.len() {
                    assert(r[i] == out[i]);
                }
            }
        } else {
            lemma_emojify_text_shown(out, p.text, emoji_refs_from(p.text, 0, table), 0, 0, table);
        }
    }
}

/// Splitting out custom emoji turns plain parts into parts as shown.
pub proof fn lemma_emojified_shown(parts: Seq<RenderedPartView>, table: Seq<CustomEmojiView>)
    requires
        plain_parts(parts),
    ensures
        shown_parts(emojified(parts, table)),
{
    assert(shown_parts(parts));
    if table.len() > 0 {
        lemma_emojify_prefix_shown(parts, parts.len() as int, table);
    }
}

/// Plain text runs are joined: no two neighbouring parts are both plain
/// text with the same mention flag.
pub open spec fn runs_joined(parts: Seq<RenderedPartView>) -> bool {
    forall|i: int| 0 <= i < parts.len() - 1 ==> !((#[trigger] parts[i]).emoji is None && parts[i + 1].emoji is None
        && parts[i].mention == parts[i + 1].mention)
}

/// Appending text keeps runs joined.
pub proof fn lemma_push_text_joined(parts: Seq<RenderedPartView>, text: Seq<char>, mention: bool)
    requires
        runs_joined(parts),
    ensures
        runs_joined(push_text(parts, text, mention)),
{
    let r = push_text(parts, text, mention);
    if text.len() > 0 {
        assert forall|i: int| 0 <= i < r.len() - 1 implies !((#[trigger] r[i]).emoji is None && r[i + 1].emoji is None
            && r[i].mention == r[i + 1].mention) by {
            assert(r[i] == parts[i]);
            if i + 1 < r.len() - 1 {
                assert(r[i + 1] == parts[i + 1]);
            }
        }
    }
}

/// Trimming the front keeps runs joined.
pub proof fn lemma_trim_front_joined(parts: Seq<RenderedPartView>)
    requires
        runs_joined(parts),
    ensures
        runs_joined(trim_front(parts)),
    decreases parts.len(),
{
    if parts.len() > 0 {
        if trim_start_spec(parts[0].text).len() == 0 {
            let rest = parts.skip(1);
            assert forall|i: int| 0 <= i < rest.len() - 1 implies !((#[trigger] rest[i]).emoji is None && rest[i + 1].emoji
                is None && rest[i].mention == rest[i + 1].mention) by {
                assert(rest[i] == parts[i + 1] && rest[i + 1] == parts[i + 2]);
            }
            lemma_trim_front_joined(rest);
        } else {
            let r = trim_front(parts);
            assert forall|i: int| 0 <= i < r.len() - 1 implies !((#[trigger] r[i]).emoji is None && r[i + 1].emoji is None
                && r[i].mention == r[i + 1].mention) by {
                assert(r[i + 1] == parts[i + 1]);
                assert(r[i].emoji == parts[i].emoji && r[i].mention == parts[i].mention);
            }
        }
    }
}

/// Trimming the back keeps runs joined.
pub proof fn lemma_trim_back_joined(parts: Seq<RenderedPartView>)
    requires
        runs_joined(parts),
    ensures
        runs_joined(trim_back(parts)),
    decreases parts.len(),
{
    if parts.len() > 0 {
        if trim_end_spec(parts.last().text).len() == 0 {
            let rest = parts.drop_last();
            assert forall|i: int| 0 <= i < rest.len() - 1 implies !((#[trigger] rest[i]).emoji is None && rest[i + 1].emoji
                is None && rest[i].mention == rest[i + 1].mention) by {
                assert(rest[i] == parts[i] && rest[i + 1] == parts[i + 1]);
            }
            lemma_trim_back_joined(rest);
        } else {
            let r = trim_back(parts);
            assert forall|i: int| 0 <= i < r.len() - 1 implies !((#[trigger] r[i]).emoji is None && r[i + 1].emoji is None
                && r[i].mention == r[i + 1].mention) by {
                assert(r[i] == parts[i]);
                assert(r[i + 1].emoji == parts[i + 1].emoji && r[i + 1].mention == parts[i + 1].mention);
            }
        }
    }
}

proof fn lemma_emojify_text_joined(
    out: Seq<RenderedPartView>,
    t: Seq<char>,
    refs: Seq<EmojiRef>,
    k: int,
    cursor: int,
    table: Seq<CustomEmojiView>,
)
    requires
        runs_joined(out),
    ensures
        runs_joined(emojify_text_from(out, t, refs, k, cursor, table)),
        (0 <= k < refs.len() || t.subrange(cursor, t.len() as int).len() > 0) ==> {
            &&& emojify_text_from(out, t, refs, k, cursor, table).len() > 0
            &&& !emojify_text_from(out, t, refs, k, cursor, table).last().mention
        },
    decreases refs.len() - k,
{
    if k < 0 || k >= refs.len() {
        lemma_push_text_joined(out, t.subrange(cursor, t.len() as int), false);
    } else {
        let r = refs[k];
        let before = push_text(out, t.subrange(cursor, r.0), false);
        lemma_push_text_joined(out, t.subrange(cursor, r.0), false);
        let url = match lookup(table, r.2) {
            Some(u) => u,
            None => seq![],
        };
        let next = before.push(emoji_part(r.2, url));
        assert forall|i: int| 0 <= i < next.len() - 1 implies !((#[trigger] next[i]).emoji is None && next[i + 1].emoji
            is None && next[i].mention == next[i + 1].mention) by {
            assert(next[i] == before[i]);
            if i + 1 < next.len() - 1 {
                assert(next[i + 1] == before[i + 1]);
            }
        }
        lemma_emojify_text_joined(next, t, refs, k + 1, r.1, table);
        if !(k + 1 < refs.len()) && t.subrange(r.1, t.len() as int).len() == 0 {
            assert(emojify_text_from(next, t, refs, k + 1, r.1, table) == push_text(next, t.subrange(r.1, t.len() as int), false));
        }
    }
}

#[verifier::rlimit(40)]
proof fn lemma_emojify_prefix_joined(parts: Seq<RenderedPartView>, n: int, table: Seq<CustomEmojiView>)
    requires
        plain_parts(parts),
        runs_joined(parts),
        0 <= n <= parts.len(),
    ensures
        runs_joined(emojify_prefix(parts, n, table)),
        n > 0 ==> emojify_prefix(parts, n, table).len() > 0,
        n > 0 && parts[n - 1].mention ==> emojify_prefix(parts, n, table).last() == parts[n - 1],
        n > 0 && !parts[n - 1].mention ==> !emojify_prefix(parts, n, table).last().mention,
    decreases n,
{
    if n > 0 {
        lemma_emojify_prefix_joined(parts, n - 1, table);
        let out = emojify_prefix(parts, n - 1, table);
        let p = parts[n - 1];
        let r = emojify_prefix(parts, n, table);
        assert(p.emoji is None && p.text.len() > 0);
        if p.mention {
            assert(r == out.push(p));
            assert(out.len() > 0 ==> !(out.last().emoji is None && out.last().mention)) by {
                if out.len() > 0 {
                    assert(n >= 2);
                    assert(parts[n - 2].emoji is None);
                    assert(!(parts[n - 2].emoji is None && parts[n - 1].emoji is None && parts[n - 2].mention
                        == parts[n - 1].mention));
                }
            }
            assert forall|i: int| 0 <= i < r.len() - 1 implies !((#[trigger] r[i]).emoji is None && r[i + 1].emoji is None
                && r[i].mention == r[i + 1].mention) by {
                assert(r[i] == out[i]);
                if i + 1 < r.len() - 1 {
                    assert(r[i + 1] == out[i + 1]);
                } else {
                    assert(out[i] == out.last());
                }
            }
        } else {
            let refs = emoji_refs_from(p.text, 0, table);
            assert(r == emojify_text_from(out, p.text, refs, 0, 0, table));
            assert(p.text.subrange(0, p.text.len() as int) =~= p.text);
            lemma_emojify_text_joined(out, p.text, refs, 0, 0, table);
        }
    }
}

/// Splitting out custom emoji keeps plain runs joined.
pub proof fn lemma_emojified_joined(parts: Seq<RenderedPartView>, table: Seq<CustomEmojiView>)
    requires
        plain_parts(parts),
        runs_joined(parts),
    ensures
        runs_joined(emojified(parts, table)),
{
    if table.len() > 0 {
        lemma_emojify_prefix_joined(parts, parts.len() as int, table);
    }
}

/// The first part starts with a character that is not whitespace.
pub open spec fn solid_front(parts: Seq<RenderedPartView>) -> bool {
    parts.len() > 0 ==> parts[0].text.len() > 0 && !is_whitespace(parts[0].text[0])
}

/// The last part ends with a character that is not whitespace.
pub open spec fn solid_back(parts: Seq<RenderedPartView>) -> bool {
    parts.len() > 0 ==> parts.last().text.len() > 0 && !is_whitespace(parts.last().text.last())
}

/// Trimming the front leaves a solid first part.
pub proof fn lemma_trim_front_solid(parts: Seq<RenderedPartView>)
    ensures
        solid_front(trim_front(parts)),
    decreases parts.len(),
{
    if parts.len() > 0 {
        crate::text::lemma_trim_start(parts[0].text);
        if trim_start_spec(parts[0].text).len() == 0 {
            lemma_trim_front_solid(parts.skip(1));
        }
    }
}

/// Trimming the back of parts with a solid first part keeps it solid and
/// leaves a solid last part.
pub proof fn lemma_trim_back_solid(parts: Seq<RenderedPartView>)
    requires
        solid_front(parts),
    ensures
        solid_front(trim_back(parts)),
        solid_back(trim_back(parts)),
    decreases parts.len(),
{
    if parts.len() > 0 {
        let last = parts.last();
        crate::text::lemma_trim_end(last.text);
        if trim_end_spec(last.text).len() == 0 {
            if parts.len() == 1 {
                assert(last == parts[0]);
            }
            lemma_trim_back_solid(parts.drop_last());
        } else if parts.len() == 1 {
            let t = trim_end_spec(last.text);
            assert(last == parts[0]);
            assert(t[0] == last.text.take(t.len() as int)[0]);
        }
    }
}

/// Appending text keeps a solid first part.
proof fn lemma_push_text_front(parts: Seq<RenderedPartView>, text: Seq<char>, mention: bool)
    requires
        parts.len() > 0,
        solid_front(parts),
    ensures
        push_text(parts, text, mention).len() > 0,
        solid_front(push_text(parts, text, mention)),
{
    let r = push_text(parts, text, mention);
    if text.len() > 0 && parts.last().emoji is None && parts.last().mention == mention && parts.len() == 1 {
        assert(parts.last() == parts[0]);
        assert((parts[0].text + text)[0] == parts[0].text[0]);
    }
}

proof fn lemma_emojify_text_front(
    out: Seq<RenderedPartView>,
    t: Seq<char>,
    refs: Seq<EmojiRef>,
    k: int,
    cursor: int,
    table: Seq<CustomEmojiView>,
)
    requires
        out.len() > 0,
        solid_front(out),
    ensures
        emojify_text_from(out, t, refs, k, cursor, table).len() > 0,
        solid_front(emojify_text_from(out, t, refs, k, cursor, table)),
    decreases refs.len() - k,
{
    if k < 0 || k >= refs.len() {
        lemma_push_text_front(out, t.subrange(cursor, t.len() as int), false);
    } else {
        let r = refs[k];
        let before = push_text(out, t.subrange(cursor, r.0), false);
        lemma_push_text_front(out, t.subrange(cursor, r.0), false);
        let url = match lookup(table, r.2) {
            Some(u) => u,
            None => seq![],
        };
        let next = before.push(emoji_part(r.2, url));
        assert(next[0] == before[0]);
        lemma_emojify_text_front(next, t, refs, k + 1, r.1, table);
    }
}

/// The first plain part, split around its emoji, still starts solid.
proof fn lemma_emojify_first_text(t: Seq<char>, table: Seq<CustomEmojiView>)
    requires
        t.len() > 0,
        !is_whitespace(t[0]),
    ensures
        emojify_text_from(seq![], t, emoji_refs_from(t, 0, table), 0, 0, table).len() > 0,
        solid_front(emojify_text_from(seq![], t, emoji_refs_from(t, 0, table), 0, 0, table)),
{
    let refs = emoji_refs_from(t, 0, table);
    lemma_refs_ordered(t, 0, table);
    if refs.len() == 0 {
        assert(t.subrange(0, t.len() as int) =~= t);
    } else {
        let r = refs[0];
        let before = push_text(seq![], t.subrange(0, r.0), false);
        let url = match lookup(table, r.2) {
            Some(u) => u,
            None => seq![],
        };
        let next = before.push(emoji_part(r.2, url));
        if r.0 > 0 {
            assert(t.subrange(0, r.0)[0] == t[0]);
        } else {
            assert(emoji_part(r.2, url).text[0] == ':');
        }
        assert(next[0] == if r.0 > 0 { before[0] } else { emoji_part(r.2, url) });
        lemma_emojify_text_front(next, t, refs, 1, r.1, table);
    }
}

proof fn lemma_emojify_prefix_front(parts: Seq<RenderedPartView>, n: int, table: Seq<CustomEmojiView>)
    requires
        plain_parts(parts),
        solid_front(parts),
        1 <= n <= parts.len(),
    ensures
        emojify_prefix(parts, n, table).len() > 0,
        solid_front(emojify_prefix(parts, n, table)),
    decreases n,
{
    let p = parts[n - 1];
    assert(p.emoji is None && p.text.len() > 0);
    if n == 1 {
        assert(emojify_prefix(parts, 0, table) == Seq::<RenderedPartView>::empty());
        if !p.mention {
            lemma_emojify_first_text(p.text, table);
        }
    } else {
        lemma_emojify_prefix_front(parts, n - 1, table);
        let out = emojify_prefix(parts, n - 1, table);
        if p.mention {
            assert(out.push(p)[0] == out[0]);
        } else {
            lemma_emojify_text_front(out, p.text, emoji_refs_from(p.text, 0, table), 0, 0, table);
        }
    }
}

proof fn lemma_emojify_text_back(
    out: Seq<RenderedPartView>,
    t: Seq<char>,
    refs: Seq<EmojiRef>,
    k: int,
    cursor: int,
    table: Seq<CustomEmojiView>,
)
    requires
        t.len() > 0,
        !is_whitespace(t.last()),
        0 <= k,
        0 <= cursor <= t.len(),
        k < refs.len() ==> cursor <= refs[k].0,
        forall|j: int| k <= j < refs.len() ==> 0 <= (#[trigger] refs[j]).0 && refs[j].0 + 1 < refs[j].1 <= t.len(),
        forall|j: int| k <= j < refs.len() - 1 ==> (#[trigger] refs[j]).1 <= refs[j + 1].0,
        k < refs.len() || cursor < t.len() || (out.len() > 0 && solid_back(out)),
    ensures
        emojify_text_from(out, t, refs, k, cursor, table).len() > 0,
        solid_back(emojify_text_from(out, t, refs, k, cursor, table)),
    decreases refs.len() - k,
{
    if k >= refs.len() {
        let rest = t.subrange(cursor, t.len() as int);
        if rest.len() > 0 {
            assert(rest.last() == t.last());
            let r = push_text(out, rest, false);
            if out.len() > 0 && out.last().emoji is None && out.last().mention == false {
                assert((out.last().text + rest).last() == rest.last());
            }
        }
    } else {
        let r = refs[k];
        let before = push_text(out, t.subrange(cursor, r.0), false);
        let url = match lookup(table, r.2) {
            Some(u) => u,
            None => seq![],
        };
        let next = before.push(emoji_part(r.2, url));
        assert(emoji_part(r.2, url).text.last() == ':');
        assert(solid_back(next));
        if k + 1 < refs.len() {
            assert(refs[k].1 <= refs[k + 1].0);
        }
        lemma_emojify_text_back(next, t, refs, k + 1, r.1, table);
    }
}

/// Splitting out custom emoji keeps a solid first and last part.
pub proof fn lemma_emojified_solid(parts: Seq<RenderedPartView>, table: Seq<CustomEmojiView>)
    requires
        plain_parts(parts),
        solid_front(parts),
        solid_back(parts),
    ensures
        solid_front(emojified(parts, table)),
        solid_back(emojified(parts, table)),
{
    if table.len() > 0 && parts.len() > 0 {
        let n = parts.len() as int;
        lemma_emojify_prefix_front(parts, n, table);
        let p = parts[n - 1];
        assert(p == parts.last());
        if !p.mention {
            let refs = emoji_refs_from(p.text, 0, table);
            lemma_refs_ordered(p.text, 0, table);
            assert forall|j: int| 0 <= j < refs.len() implies 0 <= (#[trigger] refs[j]).0 && refs[j].0 + 1 < refs[j].1
                <= p.text.len() by {}
            lemma_emojify_text_back(emojify_prefix(parts, n - 1, table), p.text, refs, 0, 0, table);
        }
    }
}

/// Trims whitespace at both ends of the rendered content.
pub fn trim_content_parts(parts: &mut Vec<RenderedPart>)
    ensures
        part_views(final(parts)@) == trim_back(trim_front(part_views(old(parts)@))),
{
    let ghost front = trim_front(part_views(parts@));
    loop
        invariant_except_break
            trim_front(part_views(parts@)) == front,
        ensures
            part_views(parts@) == front,
        decreases parts.len(),
    {
        if parts.len() == 0 {
            break;
        }
        let t = trim_start_chars(&chars_of(parts[0].text.as_str()));
        let ghost before = parts@;
        if t.len() == 0 {
            parts.remove(0);
            assert(part_views(parts@) =~= part_views(before).skip(1));
        } else {
            let first = RenderedPart {
                text: string_of(&t),
                mention: parts[0].mention,
                emoji: match &parts[0].emoji {
                    Some(e) => Some(e.duplicate()),
                    None => None,
                },
            };
            parts.set(0, first);
            assert(part_views(parts@) =~= part_views(before).update(
                0,
                RenderedPartView { text: t@, mention: before[0].mention, emoji: part_views(before)[0].emoji },
            ));
            break;
        }
    }
    let ghost back = trim_back(front);
    loop
        invariant_except_break
            trim_back(part_views(parts@)) == back,
        ensures
            part_views(parts@) == back,
        decreases parts.len(),
    {
        let n = parts.len();
        if n == 0 {
            break;
        }
        let t = trim_end_chars(&chars_of(parts[n - 1].text.as_str()));
        let ghost before = parts@;
        if t.len() == 0 {
            parts.pop();
            assert(part_views(parts@) =~= part_views(before).drop_last());
        } else {
            let last = RenderedPart {
                text: string_of(&t),
                mention: parts[n - 1].mention,
                emoji: match &parts[n - 1].emoji {
                    Some(e) => Some(e.duplicate()),
                    None => None,
                },
            };
            parts.set(n - 1, last);
            assert(part_views(parts@) =~= part_views(before).update(
                n - 1,
                RenderedPartView {
                    text: t@,
                    mention: before[n - 1].mention,
                    emoji: part_views(before)[n - 1].emoji,
                },
            ));
            break;
        }
    }
}

/// The emoji used in `content`, each once, in order of first use, with the
/// table's URL; every reference comes from the table, so each has one.
pub open spec fn used_from(refs: Seq<EmojiRef>, k: int, table: Seq<CustomEmojiView>, seen: Set<Seq<char>>) -> Seq<CustomEmojiView>
    decreases refs.len() - k,
{
    if k < 0 || k >= refs.len() {
        seq![]
    } else {
        let code = refs[k].2;
        if seen.contains(code) {
            used_from(refs, k + 1, table, seen)
        } else {
            match lookup(table, code) {
                Some(url) => seq![CustomEmojiView { shortcode: code, url }] + used_from(refs, k + 1, table, seen.insert(code)),
                None => used_from(refs, k + 1, table, seen.insert(code)),
            }
        }
    }
}

/// The custom emoji that an event's content uses, each once, in order of first use.
pub open spec fn used_emoji_spec(content: Seq<char>, tags: Seq<Seq<Seq<char>>>) -> Seq<CustomEmojiView> {
    let table = emoji_table(tags);
    used_from(emoji_refs_from(content, 0, table), 0, table, Set::empty())
}

/// `v` holds a string equal to `s`.
fn holds_string(v: &Vec<String>, s: &String) -> (r: bool)
    ensures
        r == v.deep_view().contains(s@),
{
    let mut i: usize = 0;
    while i < v.len()
        invariant
            i <= v.len(),
            forall|j: int| 0 <= j < i ==> v.deep_view()[j] != s@,
        decreases v.len() - i,
    {
        if v[i] == *s {
            assert(v.deep_view()[i as int] == s@);
            return true;
        }
        i = i + 1;
    }
    false
}

/// The custom emoji that `content` uses under the tags' declarations.
pub fn used_custom_emojis(content: &str, tags: &Vec<Vec<String>>) -> (r: Vec<CustomEmoji>)
    ensures
        emoji_views(r@) == used_emoji_spec(content@, tags.deep_view()),
{
    let table = custom_emoji_tags(tags);
    let ghost t = emoji_views(table@);
    let text = chars_of(content);
    let refs = refs_in_chars(&text, &table);
    let ghost g = emoji_refs_from(content@, 0, t);
    let mut used: Vec<CustomEmoji> = Vec::new();
    let mut seen: Vec<String> = Vec::new();
    let mut k: usize = 0;
    assert(seen.deep_view().to_set() =~= Set::<Seq<char>>::empty());
    assert(emoji_views(used@) + used_from(g, 0, t, Set::empty()) =~= used_from(g, 0, t, Set::empty()));
    while k < refs.len()
        invariant
            k <= refs.len(),
            t == emoji_views(table@),
            refs_view(refs@) == g,
            g.len() == refs@.len(),
            emoji_views(used@) + used_from(g, k as int, t, seen.deep_view().to_set())
                == used_from(g, 0, t, Set::empty()),
        decreases refs.len() - k,
    {
        let code = &refs[k].2;
        assert(refs_view(refs@)[k as int] == (refs@[k as int].0 as int, refs@[k as int].1 as int, code@));
        let ghost seen_before = seen.deep_view();
        proof {
            assert(seen_before.to_set().contains(code@) <==> seen_before.contains(code@));
        }
        if !holds_string(&seen, code) {
            seen.push(code.clone());
            proof {
                assert(seen.deep_view() =~= seen_before.push(code@));
                seen_before.lemma_push_to_set_commute(code@);
            }
            let ghost used_before = used@;
            if let Some(url) = lookup_emoji(&table, code) {
                used.push(CustomEmoji { shortcode: code.clone(), url });
                assert(emoji_views(used@) =~= emoji_views(used_before).push(CustomEmojiView { shortcode: code@, url: emoji_views(used@).last().url }));
            }
        }
        k = k + 1;
    }
    assert(emoji_views(used@) + seq![] =~= emoji_views(used@));
    used
}

} // verus!
