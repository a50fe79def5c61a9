//! Small presentation rules: shortened text, NIP-05 labels, terminal
//! detection from environment values, and Kitty graphics escape sequences.

use vstd::prelude::*;

use crate::media::{lowered, lowered_exec, utf8_len, utf8_width};
use crate::text::{chars_of, push_all, push_range, same_chars, string_of};


verus! {

/// The first `max` characters of `value`, followed by `…` when more follow.
pub open spec fn compact_spec(value: Seq<char>, max: nat) -> Seq<char> {
    if value.len() <= max {
        value
    } else {
        value.take(max as int).push('\u{2026}')
    }
}

/// Shortens `value` to `max_chars` characters, marking a cut with `…`.
pub fn compact(value: &str, max_chars: usize) -> (r: String)
    ensures
        r@ == compact_spec(value@, max_chars as nat),
{
    let c = chars_of(value);
    if c.len() <= max_chars {
        return string_of(&c);
    }
    let mut out: Vec<char> = Vec::new();
    push_range(&mut out, &c, 0, max_chars);
    out.push('\u{2026}');
    assert(out@ =~= value@.take(max_chars as int).push('\u{2026}'));
    string_of(&out)
}

/// `value.get(..8)`, else `value`: the first eight bytes when they end on a
/// character boundary.
pub open spec fn short_id_spec(value: Seq<char>) -> Seq<char> {
    if exists|k: int| 0 <= k <= value.len() && utf8_len(#[trigger] value.take(k)) == 8 {
        value.take(choose|k: int| 0 <= k <= value.len() && utf8_len(#[trigger] value.take(k)) == 8)
    } else {
        value
    }
}

/// Byte length grows strictly with each character.
pub proof fn lemma_utf8_len_strict(s: Seq<char>, j: int, k: int)
    requires
        0 <= j < k <= s.len(),
    ensures
        utf8_len(s.take(j)) < utf8_len(s.take(k)),
    decreases k - j,
{
    assert(s.take(k).drop_last() =~= s.take(k - 1));
    if j < k - 1 {
        lemma_utf8_len_strict(s, j, k - 1);
    }
}

/// The first eight bytes of an identifier, or all of it when they would split a
/// character or it is shorter.
pub fn short_id(value: &str) -> (r: String)
    ensures
        r@ == short_id_spec(value@),
{
    let c = chars_of(value);
    let mut total: usize = 0;
    let mut i: usize = 0;
    while i < c.len() && total < 8
        invariant
            i <= c.len(),
            total as nat == utf8_len(c@.take(i as int)),
            total < 8 || i == 0 || utf8_len(c@.take(i - 1)) < 8,
        decreases c.len() - i,
    {
        let u = c[i] as u32;
        let w: usize = if u < 0x80 { 1 } else if u < 0x800 { 2 } else if u < 0x10000 { 3 } else { 4 };
        assert(c@.take(i + 1).drop_last() =~= c@.take(i as int));
        total = total + w;
        i = i + 1;
    }
    proof {
        assert forall|j: int, k: int| 0 <= j < k <= c@.len() implies #[trigger] utf8_len(c@.take(j)) < #[trigger] utf8_len(
            c@.take(k),
        ) by {
            lemma_utf8_len_strict(c@, j, k);
        }
    }
    if total == 8 {
        let mut out: Vec<char> = Vec::new();
        push_range(&mut out, &c, 0, i);
        proof {
            let k = choose|k: int| 0 <= k <= value@.len() && utf8_len(#[trigger] value@.take(k)) == 8;
            if k < i {
                assert(utf8_len(c@.take(k)) < utf8_len(c@.take(i as int)));
            } else if k > i {
                assert(utf8_len(c@.take(i as int)) < utf8_len(c@.take(k)));
            }
            assert(out@ =~= value@.take(i as int));
        }
        string_of(&out)
    } else {
        proof {
            assert forall|k: int| 0 <= k <= value@.len() implies utf8_len(#[trigger] value@.take(k)) != 8 by {
                if k < i {
                    assert(utf8_len(c@.take(k)) < utf8_len(c@.take(i as int)));
                } else if k > i {
                    assert(utf8_len(c@.take(i as int)) < utf8_len(c@.take(k)));
                    if i < c.len() {
                        assert(total > 8);
                    } else {
                        assert(k <= c.len());
                    }
                }
            }
        }
        string_of(&c)
    }
}

/// A NIP-05 root identifier `_@domain` is shown as its domain alone.
pub open spec fn nip05_display_spec(address: Seq<char>) -> Seq<char> {
    if address.len() > 2 && address[0] == '_' && address[1] == '@' && !address.skip(2).contains('@') {
        address.skip(2)
    } else {
        address
    }
}

/// Shows `_@domain` as `domain`; other addresses unchanged.
pub fn display_nip05_address(address: &str) -> (r: String)
    ensures
        r@ == nip05_display_spec(address@),
{
    let c = chars_of(address);
    if c.len() > 2 && c[0] == '_' && c[1] == '@' {
        let mut i: usize = 2;
        while i < c.len()
            invariant
                2 <= i <= c.len(),
                c@ == address@,
                forall|j: int| 2 <= j < i ==> c@[j] != '@',
            decreases c.len() - i,
        {
            if c[i] == '@' {
                assert(address@.skip(2)[i - 2] == '@');
                assert(address@.skip(2).contains('@'));
                return string_of(&c);
            }
            i = i + 1;
        }
        let mut out: Vec<char> = Vec::new();
        push_range(&mut out, &c, 2, c.len());
        assert(out@ =~= address@.skip(2));
        assert(!address@.skip(2).contains('@')) by {
            if address@.skip(2).contains('@') {
                let j = choose|j: int| 0 <= j < address@.skip(2).len() && address@.skip(2)[j] == '@';
                assert(c@[j + 2] == '@');
            }
        }
        string_of(&out)
    } else {
        string_of(&c)
    }
}

/// `a` equals `b` ignoring ASCII case.
pub open spec fn eq_ignore_ascii_case(a: Seq<char>, b: Seq<char>) -> bool {
    lowered(a) == lowered(b)
}

/// The characters `kitty`.
pub open spec fn kitty_word() -> Seq<char> {
    seq!['k', 'i', 't', 't', 'y']
}

/// The characters `ghostty`.
pub open spec fn ghostty_word() -> Seq<char> {
    seq!['g', 'h', 'o', 's', 't', 't', 'y']
}

/// The characters `xterm-kitty`.
pub open spec fn xterm_kitty() -> Seq<char> {
    seq!['x', 't', 'e', 'r', 'm', '-', 'k', 'i', 't', 't', 'y']
}

/// The characters `xterm-ghostty`.
pub open spec fn xterm_ghostty() -> Seq<char> {
    seq!['x', 't', 'e', 'r', 'm', '-', 'g', 'h', 'o', 's', 't', 't', 'y']
}

/// The environment says Kitty-compatible graphics: a non-empty
/// `KITTY_WINDOW_ID`, `TERM` of `xterm-kitty` or `xterm-ghostty`, or
/// `TERM_PROGRAM` of `kitty` or `ghostty` in any ASCII case.
pub open spec fn kitty_env_spec(term: Option<Seq<char>>, program: Option<Seq<char>>, window: Option<Seq<char>>) -> bool {
    ||| (window matches Some(w) && w.len() > 0)
    ||| (term matches Some(t) && (t == xterm_kitty() || t == xterm_ghostty()))
    ||| (program matches Some(p) && (eq_ignore_ascii_case(p, kitty_word()) || eq_ignore_ascii_case(p, ghostty_word())))
}

/// Decides from `TERM`, `TERM_PROGRAM` and `KITTY_WINDOW_ID` whether the terminal
/// speaks the Kitty graphics protocol.
pub fn kitty_terminal_from_env_values(term: Option<&str>, term_program: Option<&str>, kitty_window_id: Option<&str>) -> (r: bool)
    ensures
        r == kitty_env_spec(
            match term {
                Some(t) => Some(t@),
                None => None,
            },
            match term_program {
                Some(p) => Some(p@),
                None => None,
            },
            match kitty_window_id {
                Some(w) => Some(w@),
                None => None,
            },
        ),
{
    let kitty: Vec<char> = vec!['k', 'i', 't', 't', 'y'];
    let ghostty: Vec<char> = vec!['g', 'h', 'o', 's', 't', 't', 'y'];
    let xk: Vec<char> = vec!['x', 't', 'e', 'r', 'm', '-', 'k', 'i', 't', 't', 'y'];
    let xg: Vec<char> = vec!['x', 't', 'e', 'r', 'm', '-', 'g', 'h', 'o', 's', 't', 't', 'y'];
    assert(kitty@ =~= kitty_word());
    assert(ghostty@ =~= ghostty_word());
    assert(xk@ =~= xterm_kitty());
    assert(xg@ =~= xterm_ghostty());
    assert(lowered(kitty_word()) =~= kitty_word());
    assert(lowered(ghostty_word()) =~= ghostty_word());
    let window = match kitty_window_id {
        Some(w) => chars_of(w).len() > 0,
        None => false,
    };
    let by_term = match term {
        Some(t) => {
            let tc = chars_of(t);
            same_chars(&tc, &xk) || same_chars(&tc, &xg)
        },
        None => false,
    };
    let by_program = match term_program {
        Some(p) => {
            let lower = lowered_exec(&chars_of(p));
            same_chars(&lower, &kitty) || same_chars(&lower, &ghostty)
        },
        None => false,
    };
    window || by_term || by_program
}

/// The rows to lay out around the selection: as many items on each side as
/// the viewport has rows (at least one), clipped to the timeline.
pub open spec fn render_window_spec(len: nat, selected: nat, height: nat) -> (nat, nat) {
    let overscan: nat = if height == 0 { 1 } else { height };
    let start: nat = if selected >= overscan { (selected - overscan) as nat } else { 0 };
    let end: nat = if selected + overscan + 1 <= len { selected + overscan + 1 } else { len };
    (start, end)
}

/// The index range of timeline items to lay out around the selection.
pub fn timeline_render_window(timeline_len: usize, selected: usize, viewport_height: u16) -> (r: (usize, usize))
    ensures
        (r.0 as nat, r.1 as nat) == render_window_spec(timeline_len as nat, selected as nat, viewport_height as nat),
{
    let overscan: usize = if viewport_height == 0 { 1 } else { viewport_height as usize };
    let start = if selected >= overscan { selected - overscan } else { 0 };
    let end = if selected <= timeline_len && overscan < timeline_len - selected { selected + overscan + 1 } else { timeline_len };
    (start, end)
}

/// The decimal digits of `n`.
pub open spec fn decimal(n: nat) -> Seq<char>
    decreases n,
{
    if n < 10 {
        seq![digit_char(n)]
    } else {
        decimal(n / 10).push(digit_char(n % 10))
    }
}

/// The digit character for `d < 10`.
pub open spec fn digit_char(d: nat) -> char {
    if d == 0 { '0' } else if d == 1 { '1' } else if d == 2 { '2' } else if d == 3 { '3' } else if d == 4 { '4' }
    else if d == 5 { '5' } else if d == 6 { '6' } else if d == 7 { '7' } else if d == 8 { '8' } else { '9' }
}

/// The digit character for `d < 10`.
fn digit_exec(d: u32) -> (r: char)
    requires
        d < 10,
    ensures
        r == digit_char(d as nat),
{
    if d == 0 { '0' } else if d == 1 { '1' } else if d == 2 { '2' } else if d == 3 { '3' } else if d == 4 { '4' }
    else if d == 5 { '5' } else if d == 6 { '6' } else if d == 7 { '7' } else if d == 8 { '8' } else { '9' }
}

/// Appends the decimal digits of `n`.
pub fn push_decimal(out: &mut Vec<char>, n: u64)
    ensures
        final(out)@ == old(out)@ + decimal(n as nat),
    decreases n,
{
    if n < 10 {
        out.push(digit_exec(n as u32));
        assert(decimal(n as nat) =~= seq![digit_char(n as nat)]);
    } else {
        push_decimal(out, n / 10);
        out.push(digit_exec((n % 10) as u32));
    }
}

/// The escape sequence that deletes every Kitty image and frees its data.
pub open spec fn delete_all_sequence() -> Seq<u8> {
    seq![0x1bu8, 0x5fu8, 0x47u8, 0x61u8, 0x3du8, 0x64u8, 0x2cu8, 0x64u8, 0x3du8, 0x41u8, 0x1bu8, 0x5cu8]
}

/// Appends `ESC _Ga=d,d=A ESC \`, which deletes all Kitty images.
pub fn delete_all_kitty_images(out: &mut Vec<u8>)
    ensures
        final(out)@ == old(out)@ + delete_all_sequence(),
{
    let ghost before = out@;
    out.push(0x1b);
    out.push(0x5f);
    out.push(0x47);
    out.push(0x61);
    out.push(0x3d);
    out.push(0x64);
    out.push(0x2c);
    out.push(0x64);
    out.push(0x3d);
    out.push(0x41);
    out.push(0x1b);
    out.push(0x5c);
    assert(out@ =~= before + delete_all_sequence());
}

/// The start, escape and end strings that `Parser::tmux_start_escape_end`
/// gives for wrapping a sequence for tmux or not.
pub open spec fn tmux_wrapping(is_tmux: bool) -> (Seq<char>, Seq<char>, Seq<char>) {
    if is_tmux {
        (seq!['\u{1b}', 'P', 't', 'm', 'u', 'x', ';'], seq!['\u{1b}', '\u{1b}'], seq!['\u{1b}', '\\'])
    } else {
        (seq![], seq!['\u{1b}'], seq![])
    }
}

/// The start, escape and end for wrapping a sequence, as `ratatui-image`'s
/// `Parser::tmux_start_escape_end` gives them: outside tmux a bare escape;
/// inside tmux the passthrough start, a doubled escape, and the passthrough end.
fn tmux_start_escape_end(is_tmux: bool) -> (r: (Vec<char>, Vec<char>, Vec<char>))
    ensures
        (r.0@, r.1@, r.2@) == tmux_wrapping(is_tmux),
{
    if is_tmux {
        let r = (vec!['\u{1b}', 'P', 't', 'm', 'u', 'x', ';'], vec!['\u{1b}', '\u{1b}'], vec!['\u{1b}', '\\']);
        assert(r.0@ =~= seq!['\u{1b}', 'P', 't', 'm', 'u', 'x', ';']);
        assert(r.1@ =~= seq!['\u{1b}', '\u{1b}']);
        assert(r.2@ =~= seq!['\u{1b}', '\\']);
        r
    } else {
        let r = (Vec::new(), vec!['\u{1b}'], Vec::new());
        assert(r.0@ =~= Seq::<char>::empty());
        assert(r.1@ =~= seq!['\u{1b}']);
        assert(r.2@ =~= Seq::<char>::empty());
        r
    }
}

/// The Kitty command that deletes image `id` and frees its data, wrapped for tmux.
pub open spec fn delete_image_command(id: u32, is_tmux: bool) -> Seq<char> {
    let (start, escape, end) = tmux_wrapping(is_tmux);
    start + escape + seq!['_', 'G', 'a', '=', 'd', ',', 'd', '=', 'I', ',', 'i', '='] + decimal(id as nat)
        + escape + seq!['\\'] + end
}

/// The commands for the first `n` ids, in order.
pub open spec fn delete_commands(ids: Seq<u32>, n: int, is_tmux: bool) -> Seq<char>
    decreases n,
{
    if n <= 0 {
        seq![]
    } else {
        delete_commands(ids, n - 1, is_tmux) + delete_image_command(ids[n - 1], is_tmux)
    }
}

/// The escape sequence that deletes each of the Kitty images `ids`.
pub fn kitty_delete_sequence(ids: &Vec<u32>, is_tmux: bool) -> (r: String)
    ensures
        r@ == delete_commands(ids@, ids@.len() as int, is_tmux),
{
    let (s, e, t) = tmux_start_escape_end(is_tmux);
    let body: Vec<char> = vec!['_', 'G', 'a', '=', 'd', ',', 'd', '=', 'I', ',', 'i', '='];
    assert(body@ =~= seq!['_', 'G', 'a', '=', 'd', ',', 'd', '=', 'I', ',', 'i', '=']);
    let mut out: Vec<char> = Vec::new();
    let mut i: usize = 0;
    while i < ids.len()
        invariant
            i <= ids.len(),
            (s@, e@, t@) == tmux_wrapping(is_tmux),
            body@ == seq!['_', 'G', 'a', '=', 'd', ',', 'd', '=', 'I', ',', 'i', '='],
            out@ == delete_commands(ids@, i as int, is_tmux),
        decreases ids.len() - i,
    {
        let ghost before = out@;
        push_all(&mut out, &s);
        push_all(&mut out, &e);
        push_all(&mut out, &body);
        push_decimal(&mut out, ids[i] as u64);
        push_all(&mut out, &e);
        out.push('\\');
        push_all(&mut out, &t);
        assert(out@ =~= before + delete_image_command(ids@[i as int], is_tmux));
        i = i + 1;
    }
    string_of(&out)
}

} // verus!
