//! Image links in notes: plain `https://` links with an image extension and
//! NIP-92 `imeta` metadata, plus the keys that name cached images.

use vstd::prelude::*;

use crate::text::{
    chars_of, find_exec, find_from, is_whitespace, matches_at, push_all, push_range, same_chars,
    string_of, whitespace,
};

verus! {

/// The most images taken from one post.
pub const MAX_IMAGES_PER_POST: usize = 4;

/// The longest URL accepted, in bytes.
pub const MAX_URL_BYTES: usize = 2048;

/// `char::to_ascii_lowercase`.
pub open spec fn ascii_lower(c: char) -> char {
    if 'A' <= c && c <= 'Z' {
        ((c as u32) + 32) as char
    } else {
        c
    }
}

/// `str::to_ascii_lowercase`, character by character.
pub open spec fn lowered(s: Seq<char>) -> Seq<char> {
    s.map_values(|c: char| ascii_lower(c))
}

/// `char::to_ascii_lowercase` maps `A` to `Z` onto `a` to `z` and leaves every
/// other character unchanged.
pub assume_specification[ char::to_ascii_lowercase ](c: &char) -> (r: char)
    ensures
        r == ascii_lower(*c),
;

/// `char::to_ascii_lowercase`.
pub fn ascii_lower_exec(c: char) -> (r: char)
    ensures
        r == ascii_lower(c),
{
    c.to_ascii_lowercase()
}

/// The ASCII-lowercased characters of `s`.
pub fn lowered_exec(s: &Vec<char>) -> (r: Vec<char>)
    ensures
        r@ == lowered(s@),
{
    let mut r: Vec<char> = Vec::new();
    let mut i: usize = 0;
    while i < s.len()
        invariant
            i <= s.len(),
            r@ =~= lowered(s@.take(i as int)),
        decreases s.len() - i,
    {
        r.push(ascii_lower_exec(s[i]));
        i = i + 1;
        assert(lowered(s@.take(i as int)) =~= lowered(s@.take(i - 1)).push(ascii_lower(s@[i - 1])));
    }
    assert(s@.take(s.len() as int) =~= s@);
    r
}

/// The number of bytes that UTF-8 takes for `c`.
pub open spec fn utf8_width(c: char) -> nat {
    if (c as u32) < 0x80 {
        1
    } else if (c as u32) < 0x800 {
        2
    } else if (c as u32) < 0x10000 {
        3
    } else {
        4
    }
}

/// The length of `s` in UTF-8 bytes, as `str::len` counts it.
pub open spec fn utf8_len(s: Seq<char>) -> nat
    decreases s.len(),
{
    if s.len() == 0 {
        0
    } else {
        utf8_len(s.drop_last()) + utf8_width(s.last())
    }
}

/// `s` takes at most `limit` bytes in UTF-8.
pub fn utf8_len_at_most(s: &Vec<char>, limit: usize) -> (r: bool)
    ensures
        r == (utf8_len(s@) <= limit),
{
    let mut total: usize = 0;
    let mut i: usize = 0;
    while i < s.len()
        invariant
            i <= s.len(),
            total as nat == utf8_len(s@.take(i as int)),
            total <= limit,
        decreases s.len() - i,
    {
        let u = s[i] as u32;
        let w: usize = if u < 0x80 { 1 } else if u < 0x800 { 2 } else if u < 0x10000 { 3 } else { 4 };
        assert(s@.take(i + 1).drop_last() =~= s@.take(i as int));
        if w > limit - total {
            proof {
                lemma_utf8_len_prefix(s@, i + 1);
            }
            return false;
        }
        total = total + w;
        i = i + 1;
    }
    assert(s@.take(s.len() as int) =~= s@);
    true
}

/// The UTF-8 length of the first `k` characters of `c`: the byte offset at
/// which character `k` starts.
pub fn byte_offset(c: &Vec<char>, k: usize) -> (r: usize)
    requires
        k <= c.len(),
        utf8_len(c@) <= usize::MAX,
    ensures
        r == utf8_len(c@.take(k as int)),
{
    let mut total: usize = 0;
    let mut i: usize = 0;
    while i < k
        invariant
            i <= k <= c.len(),
            utf8_len(c@) <= usize::MAX,
            total as nat == utf8_len(c@.take(i as int)),
        decreases k - i,
    {
        proof {
            lemma_utf8_len_prefix(c@, i + 1);
        }
        let u = c[i] as u32;
        let w: usize = if u < 0x80 { 1 } else if u < 0x800 { 2 } else if u < 0x10000 { 3 } else { 4 };
        assert(c@.take(i + 1).drop_last() =~= c@.take(i as int));
        total = total + w;
        i = i + 1;
    }
    total
}

/// A prefix takes no more bytes than the whole.
pub proof fn lemma_utf8_len_prefix(s: Seq<char>, k: int)
    requires
        0 <= k <= s.len(),
    ensures
        utf8_len(s.take(k)) <= utf8_len(s),
    decreases s.len() - k,
{
    if k < s.len() {
        lemma_utf8_len_prefix(s, k + 1);
        assert(s.take(k + 1).drop_last() =~= s.take(k));
    } else {
        assert(s.take(k) =~= s);
    }
}

/// The characters `https://`.
pub open spec fn https_scheme() -> Seq<char> {
    seq!['h', 't', 't', 'p', 's', ':', '/', '/']
}

/// A URL that images may be fetched from: at most 2048 bytes, beginning with
/// `https://` in any ASCII case.
pub open spec fn is_safe_url(url: Seq<char>) -> bool {
    &&& utf8_len(url) <= MAX_URL_BYTES
    &&& url.len() >= 8
    &&& lowered(url.take(8)) == https_scheme()
}

/// `url` is at most 2048 bytes and begins with `https://`.
pub fn is_safe_https_url(url: &str) -> (r: bool)
    ensures
        r == is_safe_url(url@),
{
    let c = chars_of(url);
    if !utf8_len_at_most(&c, MAX_URL_BYTES) {
        return false;
    }
    if c.len() < 8 {
        return false;
    }
    let mut head: Vec<char> = Vec::new();
    push_range(&mut head, &c, 0, 8);
    let scheme: Vec<char> = vec!['h', 't', 't', 'p', 's', ':', '/', '/'];
    assert(scheme@ =~= https_scheme());
    assert(head@ =~= url@.take(8));
    same_chars(&lowered_exec(&head), &scheme)
}

/// A character that ends the path part of a URL.
pub open spec fn path_end_char(c: char) -> bool {
    c == '?' || c == '#'
}

/// The path part of a URL: everything before the first `?` or `#`.
pub open spec fn url_path(url: Seq<char>, i: int) -> Seq<char>
    decreases url.len() - i,
{
    if i < 0 || i >= url.len() {
        url
    } else if path_end_char(url[i]) {
        url.take(i)
    } else {
        url_path(url, i + 1)
    }
}

/// The image file extensions recognised in links.
pub open spec fn image_extensions() -> Seq<Seq<char>> {
    seq![
        seq!['.', 'p', 'n', 'g'],
        seq!['.', 'j', 'p', 'g'],
        seq!['.', 'j', 'p', 'e', 'g'],
        seq!['.', 'g', 'i', 'f'],
        seq!['.', 'w', 'e', 'b', 'p'],
        seq!['.', 's', 'v', 'g'],
    ]
}

/// `s` ends with `suffix`.
pub open spec fn ends_with(s: Seq<char>, suffix: Seq<char>) -> bool {
    suffix.len() <= s.len() && s.subrange(s.len() - suffix.len(), s.len() as int) == suffix
}

/// A safe URL whose path, in lowercase, ends with an image extension.
pub open spec fn is_image_url(url: Seq<char>) -> bool {
    &&& is_safe_url(url)
    &&& exists|k: int| 0 <= k < image_extensions().len() && ends_with(lowered(url_path(url, 0)), #[trigger] image_extensions()[k])
}

/// `s` ends with `suffix`.
fn ends_with_exec(s: &Vec<char>, suffix: &Vec<char>) -> (r: bool)
    ensures
        r == ends_with(s@, suffix@),
{
    if suffix.len() > s.len() {
        return false;
    }
    let r = matches_at_exec(s, suffix, s.len() - suffix.len());
    r
}

use crate::text::matches_at_exec;

/// `url` is safe and its path ends with a supported image extension.
pub fn is_supported_image_url(url: &str) -> (r: bool)
    ensures
        r == is_image_url(url@),
{
    if !is_safe_https_url(url) {
        return false;
    }
    let c = chars_of(url);
    let mut i: usize = 0;
    while i < c.len() && !(c[i] == '?' || c[i] == '#')
        invariant
            i <= c.len(),
            c@ == url@,
            url_path(c@, 0) == url_path(c@, i as int),
        decreases c.len() - i,
    {
        i = i + 1;
    }
    let mut path: Vec<char> = Vec::new();
    push_range(&mut path, &c, 0, i);
    assert(path@ =~= url_path(c@, 0)) by {
        if i == c.len() {
            assert(c@.subrange(0, i as int) =~= c@);
        } else {
            assert(c@.subrange(0, i as int) =~= c@.take(i as int));
        }
    }
    let lower = lowered_exec(&path);
    let exts: Vec<Vec<char>> = vec![
        vec!['.', 'p', 'n', 'g'],
        vec!['.', 'j', 'p', 'g'],
        vec!['.', 'j', 'p', 'e', 'g'],
        vec!['.', 'g', 'i', 'f'],
        vec!['.', 'w', 'e', 'b', 'p'],
        vec!['.', 's', 'v', 'g'],
    ];
    assert(exts@.len() == 6);
    assert(exts@[0]@ =~= image_extensions()[0]);
    assert(exts@[1]@ =~= image_extensions()[1]);
    assert(exts@[2]@ =~= image_extensions()[2]);
    assert(exts@[3]@ =~= image_extensions()[3]);
    assert(exts@[4]@ =~= image_extensions()[4]);
    assert(exts@[5]@ =~= image_extensions()[5]);
    let mut k: usize = 0;
    while k < exts.len()
        invariant
            k <= exts.len() == 6,
            lower@ == lowered(url_path(url@, 0)),
            is_safe_url(url@),
            forall|j: int| 0 <= j < 6 ==> exts@[j]@ == image_extensions()[j],
            forall|j: int| 0 <= j < k ==> !ends_with(lower@, #[trigger] image_extensions()[j]),
        decreases exts.len() - k,
    {
        if ends_with_exec(&lower, &exts[k]) {
            assert(ends_with(lower@, image_extensions()[k as int]));
            assert(is_safe_url(url@));
            assert(is_image_url(url@));
            return true;
        }
        k = k + 1;
    }
    false
}

/// A character that `trim_url_punctuation` strips from both ends.
pub open spec fn url_punctuation(c: char) -> bool {
    c == '(' || c == ')' || c == '[' || c == ']' || c == '{' || c == '}' || c == '<' || c == '>' || c == '"'
        || c == '\'' || c == ',' || c == '.' || c == ':' || c == ';' || c == '!' || c == '?' || c == '\u{3002}'
        || c == '\u{3001}'
}

/// The first index at or after `i` whose character is not punctuation.
pub open spec fn first_kept(s: Seq<char>, i: int) -> int
    decreases s.len() - i,
{
    if 0 <= i < s.len() && url_punctuation(s[i]) {
        first_kept(s, i + 1)
    } else {
        i
    }
}

/// One past the last index before `n` whose character is not punctuation, but
/// not below `lo`.
pub open spec fn last_kept(s: Seq<char>, lo: int, n: int) -> int
    decreases n - lo,
{
    if lo < n && n <= s.len() && url_punctuation(s[n - 1]) {
        last_kept(s, lo, n - 1)
    } else {
        n
    }
}

/// `str::trim_matches` with the URL punctuation set.
pub open spec fn trimmed_url(s: Seq<char>) -> Seq<char> {
    let lo = first_kept(s, 0);
    s.subrange(lo, last_kept(s, lo, s.len() as int))
}

/// Bounds of a kept range.
pub proof fn lemma_kept_bounds(s: Seq<char>, i: int, lo: int, n: int)
    requires
        0 <= i <= s.len(),
        0 <= lo <= n <= s.len(),
    ensures
        i <= first_kept(s, i) <= s.len(),
        lo <= last_kept(s, lo, n) <= n,
    decreases s.len() - i + n - lo,
{
    if 0 <= i < s.len() && url_punctuation(s[i]) {
        lemma_kept_bounds(s, i + 1, lo, n);
    } else if lo < n && n <= s.len() && url_punctuation(s[n - 1]) {
        lemma_kept_bounds(s, i, lo, n - 1);
    }
}

/// `c` is stripped from URL ends.
fn is_url_punctuation(c: char) -> (r: bool)
    ensures
        r == url_punctuation(c),
{
    c == '(' || c == ')' || c == '[' || c == ']' || c == '{' || c == '}' || c == '<' || c == '>' || c == '"'
        || c == '\'' || c == ',' || c == '.' || c == ':' || c == ';' || c == '!' || c == '?' || c == '\u{3002}'
        || c == '\u{3001}'
}

/// Strips surrounding punctuation from a link.
pub fn trim_url_punctuation(url: &Vec<char>) -> (r: Vec<char>)
    ensures
        r@ == trimmed_url(url@),
{
    let mut lo: usize = 0;
    while lo < url.len() && is_url_punctuation(url[lo])
        invariant
            lo <= url.len(),
            first_kept(url@, 0) == first_kept(url@, lo as int),
        decreases url.len() - lo,
    {
        lo = lo + 1;
    }
    let mut hi: usize = url.len();
    while lo < hi && is_url_punctuation(url[hi - 1])
        invariant
            lo <= hi <= url.len(),
            last_kept(url@, lo as int, url.len() as int) == last_kept(url@, lo as int, hi as int),
        decreases hi - lo,
    {
        hi = hi - 1;
    }
    let mut r: Vec<char> = Vec::new();
    push_range(&mut r, url, lo, hi);
    r
}

} // verus!

verus! {

/// The first index at or after `i` that is not whitespace.
pub open spec fn skip_ws(c: Seq<char>, i: int) -> int
    decreases c.len() - i,
{
    if 0 <= i < c.len() && is_whitespace(c[i]) {
        skip_ws(c, i + 1)
    } else {
        i
    }
}

/// The end of the word that starts at `i`.
pub open spec fn word_end(c: Seq<char>, i: int) -> int
    decreases c.len() - i,
{
    if 0 <= i < c.len() && !is_whitespace(c[i]) {
        word_end(c, i + 1)
    } else {
        i
    }
}

/// Word boundaries move forward and stay inside the text.
pub proof fn lemma_word_bounds(c: Seq<char>, i: int)
    requires
        0 <= i <= c.len(),
    ensures
        i <= skip_ws(c, i) <= c.len(),
        skip_ws(c, i) < c.len() ==> !is_whitespace(c[skip_ws(c, i)]),
        skip_ws(c, i) < c.len() ==> skip_ws(c, i) < word_end(c, skip_ws(c, i)) <= c.len(),
        forall|j: int| i <= j <= c.len() ==> j <= #[trigger] word_end(c, j) <= c.len(),
    decreases c.len() - i,
{
    if 0 <= i < c.len() && is_whitespace(c[i]) {
        lemma_word_bounds(c, i + 1);
    }
    assert forall|j: int| i <= j <= c.len() implies j <= #[trigger] word_end(c, j) <= c.len() by {
        lemma_word_end(c, j);
    }
    if skip_ws(c, i) < c.len() {
        lemma_word_end(c, skip_ws(c, i));
    }
}

/// A word ends no earlier than it starts and inside the text.
pub proof fn lemma_word_end(c: Seq<char>, j: int)
    requires
        0 <= j <= c.len(),
    ensures
        j <= word_end(c, j) <= c.len(),
        j < c.len() && !is_whitespace(c[j]) ==> j < word_end(c, j),
    decreases c.len() - j,
{
    if 0 <= j < c.len() && !is_whitespace(c[j]) {
        lemma_word_end(c, j + 1);
    }
}

/// The image link that a whitespace-separated word carries: from its first
/// `https://` (in any ASCII case), with surrounding punctuation trimmed, when
/// that is a supported image URL.
pub open spec fn word_link(w: Seq<char>) -> Option<Seq<char>> {
    match find_from(lowered(w), https_scheme(), 0) {
        Some(start) => {
            let candidate = trimmed_url(w.subrange(start, w.len() as int));
            if is_image_url(candidate) {
                Some(candidate)
            } else {
                None
            }
        },
        None => None,
    }
}

/// The image links of the words of `c[i..]`, in order.
pub open spec fn content_links_from(c: Seq<char>, i: int) -> Seq<Seq<char>>
    decreases c.len() - i,
{
    if i < 0 || i > c.len() {
        seq![]
    } else {
        let s = skip_ws(c, i);
        if s >= c.len() {
            seq![]
        } else {
            proof {
                lemma_word_bounds(c, i);
            }
            let e = word_end(c, s);
            match word_link(c.subrange(s, e)) {
                Some(u) => seq![u] + content_links_from(c, e),
                None => content_links_from(c, e),
            }
        }
    }
}

/// `s` begins with `p`.
pub open spec fn starts_with(s: Seq<char>, p: Seq<char>) -> bool {
    p.len() <= s.len() && s.take(p.len() as int) == p
}

/// The characters `url `.
pub open spec fn url_key() -> Seq<char> {
    seq!['u', 'r', 'l', ' ']
}

/// The characters `m `.
pub open spec fn mime_key() -> Seq<char> {
    seq!['m', ' ']
}

/// The characters `image/`.
pub open spec fn image_mime() -> Seq<char> {
    seq!['i', 'm', 'a', 'g', 'e', '/']
}

/// The characters `imeta`.
pub open spec fn imeta_name() -> Seq<char> {
    seq!['i', 'm', 'e', 't', 'a']
}

/// Reading the values of an `imeta` tag from the second up to (not including)
/// the `n`-th: the last `url ` entry (trimmed of punctuation), and whether an
/// `m ` entry gives an `image/` MIME type.
pub open spec fn imeta_scan(tag: Seq<Seq<char>>, n: int) -> (Option<Seq<char>>, bool)
    decreases n,
{
    if n <= 1 || n > tag.len() {
        (None, false)
    } else {
        let (url, image) = imeta_scan(tag, n - 1);
        let v = tag[n - 1];
        if starts_with(v, url_key()) {
            (Some(trimmed_url(v.skip(4))), image)
        } else if starts_with(v, mime_key()) && starts_with(lowered(v.skip(2)), image_mime()) {
            (url, true)
        } else {
            (url, image)
        }
    }
}

/// The image link that an `imeta` tag gives: its URL when the MIME type says
/// image or the URL has an image extension, and the URL is safe.
pub open spec fn imeta_link(tag: Seq<Seq<char>>) -> Option<Seq<char>> {
    if tag.len() > 0 && tag[0] == imeta_name() {
        match imeta_scan(tag, tag.len() as int) {
            (Some(url), image) => if (image || is_image_url(url)) && is_safe_url(url) {
                Some(url)
            } else {
                None
            },
            _ => None,
        }
    } else {
        None
    }
}

/// The image links of the first `n` tags, in order.
pub open spec fn imeta_links(tags: Seq<Seq<Seq<char>>>, n: int) -> Seq<Seq<char>>
    decreases n,
{
    if n <= 0 {
        seq![]
    } else {
        match imeta_link(tags[n - 1]) {
            Some(u) => imeta_links(tags, n - 1).push(u),
            None => imeta_links(tags, n - 1),
        }
    }
}

/// The first `n` candidates, each kept once, until `limit` are kept.
pub open spec fn distinct_upto(cands: Seq<Seq<char>>, n: int, limit: nat) -> Seq<Seq<char>>
    decreases n,
{
    if n <= 0 {
        seq![]
    } else {
        let kept = distinct_upto(cands, n - 1, limit);
        if kept.len() < limit && !kept.contains(cands[n - 1]) {
            kept.push(cands[n - 1])
        } else {
            kept
        }
    }
}

/// A post's images: its content links, then its `imeta` links, each once,
/// at most four.
pub open spec fn post_images_spec(content: Seq<char>, tags: Seq<Seq<Seq<char>>>) -> Seq<Seq<char>> {
    let cands = content_links_from(content, 0) + imeta_links(tags, tags.len() as int);
    distinct_upto(cands, cands.len() as int, MAX_IMAGES_PER_POST as nat)
}

proof fn lemma_content_links_safe(c: Seq<char>, i: int)
    ensures
        forall|k: int| 0 <= k < content_links_from(c, i).len() ==> is_safe_url(#[trigger] content_links_from(c, i)[k]),
    decreases c.len() - i,
{
    if 0 <= i <= c.len() {
        let s = skip_ws(c, i);
        if s < c.len() {
            lemma_word_bounds(c, i);
            let e = word_end(c, s);
            lemma_content_links_safe(c, e);
            let r = content_links_from(c, i);
            let rest = content_links_from(c, e);
            match word_link(c.subrange(s, e)) {
                Some(u) => {
                    assert forall|k: int| 0 <= k < r.len() implies is_safe_url(#[trigger] r[k]) by {
                        if k > 0 {
                            assert(r[k] == rest[k - 1]);
                        }
                    }
                },
                None => {},
            }
        }
    }
}

proof fn lemma_imeta_links_safe(tags: Seq<Seq<Seq<char>>>, n: int)
    ensures
        forall|k: int| 0 <= k < imeta_links(tags, n).len() ==> is_safe_url(#[trigger] imeta_links(tags, n)[k]),
    decreases n,
{
    if n > 0 {
        lemma_imeta_links_safe(tags, n - 1);
        let prev = imeta_links(tags, n - 1);
        let r = imeta_links(tags, n);
        match imeta_link(tags[n - 1]) {
            Some(u) => {
                assert forall|k: int| 0 <= k < r.len() implies is_safe_url(#[trigger] r[k]) by {
                    if k < prev.len() {
                        assert(r[k] == prev[k]);
                    }
                }
            },
            None => {},
        }
    }
}

proof fn lemma_distinct_upto(cands: Seq<Seq<char>>, n: int, limit: nat)
    requires
        n <= cands.len(),
    ensures
        distinct_upto(cands, n, limit).len() <= limit,
        distinct_upto(cands, n, limit).no_duplicates(),
        forall|k: int| 0 <= k < distinct_upto(cands, n, limit).len() ==> exists|j: int| 0 <= j < n && cands[j] == #[trigger] distinct_upto(cands, n, limit)[k],
    decreases n,
{
    if n > 0 {
        lemma_distinct_upto(cands, n - 1, limit);
        let kept = distinct_upto(cands, n - 1, limit);
        let r = distinct_upto(cands, n, limit);
        if r.len() > kept.len() {
            assert forall|a: int, b: int| 0 <= a < b < r.len() implies r[a] != r[b] by {
                if b == kept.len() {
                    assert(kept.contains(kept[a]));
                }
            }
            assert forall|k: int| 0 <= k < r.len() implies exists|j: int| 0 <= j < n && cands[j] == #[trigger] r[k] by {
                if k < kept.len() {
                    assert(r[k] == kept[k]);
                    let j = choose|j: int| 0 <= j < n - 1 && cands[j] == kept[k];
                    assert(cands[j] == r[k]);
                } else {
                    assert(cands[n - 1] == r[k]);
                }
            }
        }
    }
}

/// A post shows at most four images, each once, each from a safe https
/// URL, and each one of its content links or its `imeta` links.
pub proof fn law_post_images_are_few_distinct_and_safe(content: Seq<char>, tags: Seq<Seq<Seq<char>>>)
    ensures
        post_images_spec(content, tags).len() <= MAX_IMAGES_PER_POST,
        post_images_spec(content, tags).no_duplicates(),
        forall|k: int| 0 <= k < post_images_spec(content, tags).len() ==> is_safe_url(#[trigger] post_images_spec(content, tags)[k]),
        forall|k: int| 0 <= k < post_images_spec(content, tags).len() ==> (content_links_from(content, 0) + imeta_links(tags, tags.len() as int)).contains(#[trigger] post_images_spec(content, tags)[k]),
{
    let cands = content_links_from(content, 0) + imeta_links(tags, tags.len() as int);
    let r = post_images_spec(content, tags);
    lemma_distinct_upto(cands, cands.len() as int, MAX_IMAGES_PER_POST as nat);
    lemma_content_links_safe(content, 0);
    lemma_imeta_links_safe(tags, tags.len() as int);
    let front = content_links_from(content, 0);
    let back = imeta_links(tags, tags.len() as int);
    assert forall|k: int| 0 <= k < r.len() implies is_safe_url(#[trigger] r[k]) && cands.contains(r[k]) by {
        let j = choose|j: int| 0 <= j < cands.len() && cands[j] == r[k];
        if j < front.len() {
            assert(cands[j] == front[j]);
        } else {
            assert(cands[j] == back[j - front.len()]);
        }
    }
}

/// The image link of one word.
fn word_link_exec(w: &Vec<char>) -> (r: Option<Vec<char>>)
    ensures
        r matches Some(u) ==> word_link(w@) == Some(u@),
        r is None ==> word_link(w@) is None,
{
    let scheme: Vec<char> = vec!['h', 't', 't', 'p', 's', ':', '/', '/'];
    assert(scheme@ =~= https_scheme());
    let lower = lowered_exec(w);
    let start = match find_exec(&lower, &scheme, 0) {
        Some(s) => s,
        None => return None,
    };
    proof {
        crate::text::lemma_find_from(lower@, https_scheme(), 0);
    }
    let mut tail: Vec<char> = Vec::new();
    push_range(&mut tail, w, start, w.len());
    let candidate = trim_url_punctuation(&tail);
    if is_supported_image_url(string_of(&candidate).as_str()) {
        Some(candidate)
    } else {
        None
    }
}

/// `s` begins with `p`.
fn starts_with_exec(s: &Vec<char>, p: &Vec<char>) -> (r: bool)
    ensures
        r == starts_with(s@, p@),
{
    let r = matches_at_exec(s, p, 0);
    proof {
        if p@.len() <= s@.len() {
            assert(s@.subrange(0, p@.len() as int) =~= s@.take(p@.len() as int));
        }
    }
    r
}

/// The image link of an `imeta` tag.
fn imeta_link_exec(tag: &Vec<String>) -> (r: Option<Vec<char>>)
    ensures
        r matches Some(u) ==> imeta_link(tag.deep_view()) == Some(u@),
        r is None ==> imeta_link(tag.deep_view()) is None,
{
    let ghost t = tag.deep_view();
    let name: Vec<char> = vec!['i', 'm', 'e', 't', 'a'];
    assert(name@ =~= imeta_name());
    if tag.len() == 0 {
        return None;
    }
    assert(t[0] == tag[0]@);
    if !same_chars(&chars_of(tag[0].as_str()), &name) {
        return None;
    }
    let url_p: Vec<char> = vec!['u', 'r', 'l', ' '];
    let mime_p: Vec<char> = vec!['m', ' '];
    let image_p: Vec<char> = vec!['i', 'm', 'a', 'g', 'e', '/'];
    assert(url_p@ =~= url_key());
    assert(mime_p@ =~= mime_key());
    assert(image_p@ =~= image_mime());
    let mut url: Option<Vec<char>> = None;
    let mut image = false;
    let mut i: usize = 1;
    while i < tag.len()
        invariant
            1 <= i <= tag.len(),
            t == tag.deep_view(),
            url_p@ == url_key(),
            mime_p@ == mime_key(),
            image_p@ == image_mime(),
            image == imeta_scan(t, i as int).1,
            url matches Some(u) ==> imeta_scan(t, i as int).0 == Some(u@),
            url is None ==> imeta_scan(t, i as int).0 is None,
        decreases tag.len() - i,
    {
        let v = chars_of(tag[i].as_str());
        assert(t[i as int] == v@);
        if starts_with_exec(&v, &url_p) {
            let mut rest: Vec<char> = Vec::new();
            push_range(&mut rest, &v, 4, v.len());
            assert(rest@ =~= v@.skip(4));
            url = Some(trim_url_punctuation(&rest));
        } else if starts_with_exec(&v, &mime_p) {
            let mut rest: Vec<char> = Vec::new();
            push_range(&mut rest, &v, 2, v.len());
            assert(rest@ =~= v@.skip(2));
            if starts_with_exec(&lowered_exec(&rest), &image_p) {
                image = true;
            }
        }
        i = i + 1;
    }
    match url {
        Some(u) => {
            let s = string_of(&u);
            if (image || is_supported_image_url(s.as_str())) && is_safe_https_url(s.as_str()) {
                Some(u)
            } else {
                None
            }
        },
        None => None,
    }
}

/// The character sequences of a list of character vectors.
pub open spec fn char_rows(v: Seq<Vec<char>>) -> Seq<Seq<char>> {
    v.map_values(|x: Vec<char>| x@)
}

/// `v` holds a sequence equal to `s`.
fn holds_chars(v: &Vec<Vec<char>>, s: &Vec<char>) -> (r: bool)
    ensures
        r == char_rows(v@).contains(s@),
{
    let mut i: usize = 0;
    while i < v.len()
        invariant
            i <= v.len(),
            forall|j: int| 0 <= j < i ==> char_rows(v@)[j] != s@,
        decreases v.len() - i,
    {
        if same_chars(&v[i], s) {
            assert(char_rows(v@)[i as int] == s@);
            return true;
        }
        i = i + 1;
    }
    false
}

/// Extracts a small, ordered set of image links from note content and NIP-92
/// `imeta` tags. Plain links need a supported file extension; metadata may
/// identify extensionless image URLs by MIME type.
pub fn post_image_urls(content: &str, tags: &Vec<Vec<String>>) -> (r: Vec<String>)
    ensures
        r.deep_view() == post_images_spec(content@, tags.deep_view()),
{
    let c = chars_of(content);
    let ghost tv = tags.deep_view();
    let mut cands: Vec<Vec<char>> = Vec::new();
    let mut i: usize = 0;
    proof {
        lemma_word_bounds(c@, 0);
    }
    while i < c.len()
        invariant
            i <= c.len(),
            c@ == content@,
            char_rows(cands@) + content_links_from(c@, i as int) == content_links_from(c@, 0),
        ensures
            i == c.len(),
        decreases c.len() - i,
    {
        proof {
            lemma_word_bounds(c@, i as int);
        }
        let mut s = i;
        while s < c.len() && whitespace(c[s])
            invariant
                i <= s <= c.len(),
                skip_ws(c@, i as int) == skip_ws(c@, s as int),
            decreases c.len() - s,
        {
            s = s + 1;
        }
        if s >= c.len() {
            assert(content_links_from(c@, i as int) =~= seq![]);
            assert(char_rows(cands@) + seq![] =~= char_rows(cands@));
            i = c.len();
            assert(content_links_from(c@, i as int) =~= seq![]);
            break;
        }
        let mut e = s;
        while e < c.len() && !whitespace(c[e])
            invariant
                s <= e <= c.len(),
                word_end(c@, s as int) == word_end(c@, e as int),
            decreases c.len() - e,
        {
            e = e + 1;
        }
        let mut w: Vec<char> = Vec::new();
        push_range(&mut w, &c, s, e);
        let ghost before = char_rows(cands@);
        match word_link_exec(&w) {
            Some(u) => {
                cands.push(u);
                assert(char_rows(cands@) =~= before.push(u@));
                assert(before.push(u@) + content_links_from(c@, e as int) =~= before + (seq![u@] + content_links_from(c@, e as int)));
            },
            None => {},
        }
        i = e;
    }
    proof {
        assert(content_links_from(c@, i as int) =~= seq![]);
        assert(char_rows(cands@) + seq![] =~= char_rows(cands@));
    }
    let ghost from_content = char_rows(cands@);
    let mut k: usize = 0;
    while k < tags.len()
        invariant
            k <= tags.len(),
            tv == tags.deep_view(),
            char_rows(cands@) == from_content + imeta_links(tv, k as int),
        decreases tags.len() - k,
    {
        assert(tv[k as int] == tags[k as int].deep_view());
        let ghost before = char_rows(cands@);
        match imeta_link_exec(&tags[k]) {
            Some(u) => {
                cands.push(u);
                assert(char_rows(cands@) =~= before.push(u@));
            },
            None => {},
        }
        k = k + 1;
    }
    let ghost all = char_rows(cands@);
    let mut kept: Vec<Vec<char>> = Vec::new();
    let mut j: usize = 0;
    while j < cands.len()
        invariant
            j <= cands.len(),
            all == char_rows(cands@),
            char_rows(kept@) == distinct_upto(all, j as int, MAX_IMAGES_PER_POST as nat),
        decreases cands.len() - j,
    {
        let ghost before = char_rows(kept@);
        if kept.len() < MAX_IMAGES_PER_POST && !holds_chars(&kept, &cands[j]) {
            let copy = crate::text::copy_chars(&cands[j]);
            kept.push(copy);
            assert(char_rows(kept@) =~= before.push(all[j as int]));
        }
        j = j + 1;
    }
    let mut out: Vec<String> = Vec::new();
    let mut m: usize = 0;
    while m < kept.len()
        invariant
            m <= kept.len(),
            out.deep_view() =~= char_rows(kept@).take(m as int),
        decreases kept.len() - m,
    {
        let ghost before = out.deep_view();
        out.push(string_of(&kept[m]));
        assert(out.deep_view() =~= before.push(char_rows(kept@)[m as int]));
        m = m + 1;
    }
    assert(char_rows(kept@).take(kept.len() as int) =~= char_rows(kept@));
    out
}

} // verus!
