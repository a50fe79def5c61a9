//! Editing text at grapheme boundaries, and hard-wrapping it to a terminal
//! width. Positions are character positions in the text.

use vstd::prelude::*;

use crate::text::{push_all, string_of};

use unicode_segmentation::UnicodeSegmentation;
use unicode_width::UnicodeWidthStr;

verus! {

/// The grapheme clusters of `s` (extended clusters), as
/// `UnicodeSegmentation::graphemes` yields them.
pub uninterp spec fn graphemes_of(s: Seq<char>) -> Seq<Seq<char>>;

/// The displayed width of `s` in terminal columns, as `UnicodeWidthStr::width`
/// counts it.
pub uninterp spec fn text_width(s: Seq<char>) -> nat;

/// The pieces one after the other.
pub open spec fn joined(gs: Seq<Seq<char>>) -> Seq<char>
    decreases gs.len(),
{
    if gs.len() == 0 {
        seq![]
    } else {
        joined(gs.drop_last()) + gs.last()
    }
}

/// `UnicodeSegmentation::graphemes(s, true)`, collected. The iterator hands
/// out consecutive non-empty slices of `s` from its start to its end, so the
/// pieces are non-empty and together spell `s`.
#[verifier::external_body]
pub(crate) fn graphemes(s: &str) -> (r: Vec<String>)
    ensures
        r.deep_view() == graphemes_of(s@),
        joined(r.deep_view()) == s@,
        forall|i: int| 0 <= i < r.deep_view().len() ==> #[trigger] r.deep_view()[i].len() > 0,
{
    s.graphemes(true).map(|g| g.to_owned()).collect()
}

/// `UnicodeWidthStr::width`: the columns that `s` takes in a terminal.
#[verifier::external_body]
pub(crate) fn display_width(s: &str) -> (r: usize)
    ensures
        r == text_width(s@),
{
    s.width()
}

/// The pieces of `joined` fit in the whole, and a prefix of pieces spells a
/// prefix of it.
pub proof fn lemma_joined(gs: Seq<Seq<char>>, n: int)
    requires
        0 <= n <= gs.len(),
    ensures
        joined(gs.take(n)).len() <= joined(gs).len(),
        joined(gs) == joined(gs.take(n)) + joined(gs.skip(n)),
    decreases gs.len() - n,
{
    if n == gs.len() {
        assert(gs.take(n) =~= gs);
        assert(gs.skip(n) =~= Seq::<Seq<char>>::empty());
        assert(joined(gs) + seq![] =~= joined(gs));
    } else {
        lemma_joined(gs, n + 1);
        assert(gs.take(n + 1).drop_last() =~= gs.take(n));
        lemma_joined_front(gs.skip(n));
        assert(gs.skip(n).drop_first() =~= gs.skip(n + 1));
        assert(joined(gs.take(n + 1)) == joined(gs.take(n)) + gs[n]);
        assert(joined(gs.take(n)) + gs[n] + joined(gs.skip(n + 1)) =~= joined(gs.take(n)) + (gs[n] + joined(
            gs.skip(n + 1),
        )));
    }
}

/// `joined` read from the front.
pub proof fn lemma_joined_front(gs: Seq<Seq<char>>)
    requires
        gs.len() > 0,
    ensures
        joined(gs) == gs[0] + joined(gs.drop_first()),
    decreases gs.len(),
{
    if gs.len() == 1 {
        assert(gs.drop_last() =~= Seq::<Seq<char>>::empty());
        assert(gs.drop_first() =~= Seq::<Seq<char>>::empty());
        assert(joined(gs.drop_last()) =~= Seq::<char>::empty());
        assert(joined(gs.drop_first()) =~= Seq::<char>::empty());
        assert(joined(gs) =~= gs[0]);
    } else {
        lemma_joined_front(gs.drop_last());
        assert(gs.drop_last().drop_first() =~= gs.drop_first().drop_last());
        assert(gs.drop_first().last() == gs.last());
        assert(gs[0] + joined(gs.drop_last().drop_first()) + gs.last() =~= gs[0] + (joined(
            gs.drop_first().drop_last(),
        ) + gs.drop_first().last()));
    }
}

/// The start of the grapheme that ends at `cursor` (zero at the start).
pub open spec fn previous_boundary(s: Seq<char>, cursor: int) -> int {
    let gs = graphemes_of(s.take(cursor));
    if gs.len() == 0 {
        0
    } else {
        cursor - gs.last().len()
    }
}

/// The end of the grapheme that starts at `cursor` (the cursor at the end).
pub open spec fn next_boundary(s: Seq<char>, cursor: int) -> int {
    let gs = graphemes_of(s.skip(cursor));
    if gs.len() == 0 {
        cursor
    } else {
        cursor + gs[0].len()
    }
}

/// The start of the line holding `cursor`: just after the last newline before it.
pub open spec fn line_start_of(s: Seq<char>, cursor: int) -> int
    decreases cursor,
{
    if cursor <= 0 {
        0
    } else if s[cursor - 1] == '\n' {
        cursor
    } else {
        line_start_of(s, cursor - 1)
    }
}

/// The end of the line holding `cursor`: the first newline at or after it.
pub open spec fn line_end_of(s: Seq<char>, cursor: int) -> int
    decreases s.len() - cursor,
{
    if cursor >= s.len() {
        s.len() as int
    } else if s[cursor] == '\n' {
        cursor
    } else {
        line_end_of(s, cursor + 1)
    }
}

/// Line starts and ends stay within the text around the cursor.
pub proof fn lemma_line_bounds(s: Seq<char>, cursor: int)
    requires
        0 <= cursor <= s.len(),
    ensures
        0 <= line_start_of(s, cursor) <= cursor,
        cursor <= line_end_of(s, cursor) <= s.len(),
        line_end_of(s, cursor) < s.len() ==> s[line_end_of(s, cursor)] == '\n',
        line_start_of(s, cursor) > 0 ==> s[line_start_of(s, cursor) - 1] == '\n',
{
    lemma_line_start(s, cursor);
    lemma_line_end(s, cursor);
}

proof fn lemma_line_start(s: Seq<char>, cursor: int)
    requires
        0 <= cursor <= s.len(),
    ensures
        0 <= line_start_of(s, cursor) <= cursor,
        line_start_of(s, cursor) > 0 ==> s[line_start_of(s, cursor) - 1] == '\n',
    decreases cursor,
{
    if cursor > 0 && s[cursor - 1] != '\n' {
        lemma_line_start(s, cursor - 1);
    }
}

proof fn lemma_line_end(s: Seq<char>, cursor: int)
    requires
        0 <= cursor <= s.len(),
    ensures
        cursor <= line_end_of(s, cursor) <= s.len(),
        line_end_of(s, cursor) < s.len() ==> s[line_end_of(s, cursor)] == '\n',
    decreases s.len() - cursor,
{
    if cursor < s.len() && s[cursor] != '\n' {
        lemma_line_end(s, cursor + 1);
    }
}

/// Where the cursor lands on the line above (`down` false) or below: the same
/// grapheme column, or the end of that line when it is shorter. The cursor
/// stays where it is on the first or last line.
pub open spec fn adjacent_line_position(s: Seq<char>, cursor: int, down: bool) -> int {
    let current_start = line_start_of(s, cursor);
    let column = graphemes_of(s.subrange(current_start, cursor)).len();
    let current_end = line_end_of(s, cursor);
    if down && current_end == s.len() {
        cursor
    } else if !down && current_start == 0 {
        cursor
    } else {
        let target_start = if down {
            current_end + 1
        } else {
            line_start_of(s, current_start - 1)
        };
        let target_end = if down {
            line_end_of(s, current_end + 1)
        } else {
            current_start - 1
        };
        let gs = graphemes_of(s.subrange(target_start, target_end));
        if column < gs.len() {
            target_start + joined(gs.take(column as int)).len()
        } else {
            target_end
        }
    }
}

/// The characters `s[lo..hi]` as a text.
fn slice_text(s: &Vec<char>, lo: usize, hi: usize) -> (r: String)
    requires
        lo <= hi <= s.len(),
    ensures
        r@ == s@.subrange(lo as int, hi as int),
{
    let mut v: Vec<char> = Vec::new();
    crate::text::push_range(&mut v, s, lo, hi);
    string_of(&v)
}

/// The start of the grapheme before `cursor`.
pub fn previous_grapheme_boundary(input: &Vec<char>, cursor: usize) -> (r: usize)
    requires
        cursor <= input.len(),
    ensures
        r == previous_boundary(input@, cursor as int),
        r <= cursor,
{
    let before = slice_text(input, 0, cursor);
    assert(input@.subrange(0, cursor as int) =~= input@.take(cursor as int));
    let gs = graphemes(before.as_str());
    if gs.len() == 0 {
        0
    } else {
        proof {
            let d = gs.deep_view();
            lemma_joined(d, d.len() - 1);
            assert(d.take(d.len() - 1) =~= d.drop_last());
            assert(d.skip(d.len() - 1) =~= seq![d.last()]);
            assert(joined(seq![d.last()]) =~= d.last()) by {
                assert(seq![d.last()].drop_last() =~= Seq::<Seq<char>>::empty());
            }
        }
        let last = gs.len() - 1;
        let n = crate::text::chars_of(gs[last].as_str()).len();
        cursor - n
    }
}

/// The end of the grapheme after `cursor`.
pub fn next_grapheme_boundary(input: &Vec<char>, cursor: usize) -> (r: usize)
    requires
        cursor <= input.len(),
    ensures
        r == next_boundary(input@, cursor as int),
        cursor <= r <= input.len(),
{
    let after = slice_text(input, cursor, input.len());
    assert(input@.subrange(cursor as int, input.len() as int) =~= input@.skip(cursor as int));
    let gs = graphemes(after.as_str());
    if gs.len() == 0 {
        cursor
    } else {
        proof {
            let d = gs.deep_view();
            lemma_joined_front(d);
            assert(d[0] == gs@[0]@);
            assert((d[0] + joined(d.drop_first())).len() == input@.len() - cursor);
        }
        let n = crate::text::chars_of(gs[0].as_str()).len();
        cursor + n
    }
}

/// The start of the line holding `cursor`.
pub fn line_start(input: &Vec<char>, cursor: usize) -> (r: usize)
    requires
        cursor <= input.len(),
    ensures
        r == line_start_of(input@, cursor as int),
        r <= cursor,
{
    let mut i: usize = cursor;
    while i > 0 && input[i - 1] != '\n'
        invariant
            i <= cursor <= input.len(),
            line_start_of(input@, cursor as int) == line_start_of(input@, i as int),
        decreases i,
    {
        i = i - 1;
    }
    i
}

/// The end of the line holding `cursor`.
pub fn line_end(input: &Vec<char>, cursor: usize) -> (r: usize)
    requires
        cursor <= input.len(),
    ensures
        r == line_end_of(input@, cursor as int),
        cursor <= r <= input.len(),
{
    let mut i: usize = cursor;
    while i < input.len() && input[i] != '\n'
        invariant
            cursor <= i <= input.len(),
            line_end_of(input@, cursor as int) == line_end_of(input@, i as int),
        decreases input.len() - i,
    {
        i = i + 1;
    }
    i
}

/// The cursor moved to the line above or below, keeping its grapheme column.
pub fn move_to_adjacent_line(input: &Vec<char>, cursor: usize, down: bool) -> (r: usize)
    requires
        cursor <= input.len(),
    ensures
        r == adjacent_line_position(input@, cursor as int, down),
        r <= input.len(),
{
    proof {
        lemma_line_bounds(input@, cursor as int);
    }
    let current_start = line_start(input, cursor);
    let column = graphemes(slice_text(input, current_start, cursor).as_str()).len();
    let current_end = line_end(input, cursor);
    let target_start: usize;
    let target_end: usize;
    if down {
        if current_end == input.len() {
            return cursor;
        }
        target_start = current_end + 1;
        proof {
            lemma_line_bounds(input@, target_start as int);
        }
        target_end = line_end(input, target_start);
    } else {
        if current_start == 0 {
            return cursor;
        }
        target_end = current_start - 1;
        proof {
            lemma_line_bounds(input@, target_end as int);
        }
        target_start = line_start(input, target_end);
    }
    let gs = graphemes(slice_text(input, target_start, target_end).as_str());
    if column < gs.len() {
        let mut offset: usize = 0;
        let mut k: usize = 0;
        let ghost d = gs.deep_view();
        proof {
            lemma_joined(d, column as int);
        }
        while k < column
            invariant
                k <= column < d.len(),
                d == gs.deep_view(),
                offset == joined(d.take(k as int)).len(),
                joined(d.take(column as int)).len() <= target_end - target_start,
            decreases column - k,
        {
            proof {
                lemma_joined(d.take(column as int), k + 1);
                assert(d.take(column as int).take(k + 1) =~= d.take(k + 1));
                assert(d.take(k + 1).drop_last() =~= d.take(k as int));
            }
            offset = offset + crate::text::chars_of(gs[k].as_str()).len();
            k = k + 1;
        }
        target_start + offset
    } else {
        target_end
    }
}

/// `a + b`, capped at the largest `usize`.
pub open spec fn sat_add(a: nat, b: nat) -> nat {
    if a + b > usize::MAX {
        usize::MAX as nat
    } else {
        a + b
    }
}

/// The lines built so far and the column reached on the last one.
pub struct WrapState {
    pub lines: Seq<Seq<char>>,
    pub column: nat,
}

/// One grapheme added to the wrapped lines: a newline starts a new line; a
/// visible grapheme that would pass the width starts a new line first.
pub open spec fn wrap_step(st: WrapState, g: Seq<char>, width: nat) -> WrapState {
    if g == seq!['\n'] {
        WrapState { lines: st.lines.push(seq![]), column: 0 }
    } else {
        let w = text_width(g);
        let broken = w > 0 && st.column > 0 && sat_add(st.column, w) > width;
        let lines = if broken {
            st.lines.push(seq![])
        } else {
            st.lines
        };
        let column = if broken {
            0
        } else {
            st.column
        };
        WrapState { lines: lines.update(lines.len() - 1, lines.last() + g), column: sat_add(column, w) }
    }
}

/// The wrapped lines of a list of graphemes.
pub open spec fn wrap_all(gs: Seq<Seq<char>>, width: nat) -> WrapState
    decreases gs.len(),
{
    if gs.len() == 0 {
        WrapState { lines: seq![seq![]], column: 0 }
    } else {
        wrap_step(wrap_all(gs.drop_last(), width), gs.last(), width)
    }
}

/// The wrapped lines of `s` at `width` columns (at least one), with the final
/// column and row; with `trailing_row`, a full last line moves the cursor to
/// the start of a new row.
pub open spec fn wrapped(s: Seq<char>, width: nat, trailing_row: bool) -> (nat, nat, Seq<Seq<char>>) {
    let w = if width == 0 {
        1
    } else {
        width
    };
    let st = wrap_all(graphemes_of(s), w);
    let full = trailing_row && st.column >= w;
    let lines = if full {
        st.lines.push(seq![])
    } else {
        st.lines
    };
    let column = if full {
        0
    } else {
        st.column
    };
    (column, (lines.len() - 1) as nat, lines)
}

/// Wrapping always has at least one line.
proof fn lemma_wrap_nonempty(gs: Seq<Seq<char>>, width: nat)
    ensures
        wrap_all(gs, width).lines.len() >= 1,
        wrap_all(gs, width).lines.len() <= gs.len() + 1,
        wrap_all(gs, width).column <= usize::MAX,
    decreases gs.len(),
{
    if gs.len() > 0 {
        lemma_wrap_nonempty(gs.drop_last(), width);
    }
}

/// Hard-wraps `input` to `width` columns: the final column, the final row and
/// the lines.
pub fn wrapped_lines_with_content(input: &Vec<char>, width: u16, trailing_cursor_row: bool) -> (r: (
    usize,
    usize,
    Vec<String>,
))
    ensures
        r.0 == wrapped(input@, width as nat, trailing_cursor_row).0,
        r.1 == wrapped(input@, width as nat, trailing_cursor_row).1,
        r.2.deep_view() == wrapped(input@, width as nat, trailing_cursor_row).2,
{
    let width: usize = if width == 0 {
        1
    } else {
        width as usize
    };
    let gs = graphemes(string_of(input).as_str());
    let ghost d = gs.deep_view();
    let mut lines: Vec<Vec<char>> = Vec::new();
    lines.push(Vec::new());
    let mut column: usize = 0;
    let mut i: usize = 0;
    assert(d.take(0) =~= Seq::<Seq<char>>::empty());
    assert(crate::media::char_rows(lines@) =~= seq![Seq::<char>::empty()]);
    while i < gs.len()
        invariant
            i <= gs.len(),
            d == gs.deep_view(),
            crate::media::char_rows(lines@) == wrap_all(d.take(i as int), width as nat).lines,
            column == wrap_all(d.take(i as int), width as nat).column,
            lines.len() >= 1,
            lines.len() <= i + 1,
            i <= gs.len() <= usize::MAX,
        decreases gs.len() - i,
    {
        let g = gs[i].as_str();
        let gc = crate::text::chars_of(g);
        assert(d.take(i + 1).drop_last() =~= d.take(i as int));
        assert(d.take(i + 1).last() == gc@);
        let ghost before = crate::media::char_rows(lines@);
        if gc.len() == 1 && gc[0] == '\n' {
            assert(gc@ =~= seq!['\n']);
            lines.push(Vec::new());
            column = 0;
            assert(crate::media::char_rows(lines@) =~= before.push(seq![]));
        } else {
            assert(gc@ != seq!['\n']) by {
                if gc@ == seq!['\n'] {
                    assert(gc@.len() == 1 && gc@[0] == '\n');
                }
            }
            let gw = display_width(g);
            let next = column.saturating_add(gw);
            if gw > 0 && column > 0 && next > width {
                lines.push(Vec::new());
                column = 0;
                assert(crate::media::char_rows(lines@) =~= before.push(seq![]));
            }
            let ghost mid = crate::media::char_rows(lines@);
            let last = lines.len() - 1;
            let mut line = Vec::new();
            std::mem::swap(&mut line, &mut lines[last]);
            push_all(&mut line, &gc);
            lines.set(last, line);
            assert(crate::media::char_rows(lines@) =~= mid.update(mid.len() - 1, mid.last() + gc@));
            column = column.saturating_add(gw);
        }
        i = i + 1;
    }
    assert(d.take(i as int) =~= d);
    if trailing_cursor_row && column >= width {
        lines.push(Vec::new());
        column = 0;
    }
    assert(crate::media::char_rows(lines@) =~= wrapped(input@, width as nat, trailing_cursor_row).2);
    let rows = lines.len() - 1;
    let mut out: Vec<String> = Vec::new();
    let mut k: usize = 0;
    while k < lines.len()
        invariant
            k <= lines.len(),
            out.deep_view() =~= crate::media::char_rows(lines@).take(k as int),
        decreases lines.len() - k,
    {
        let text = string_of(&lines[k]);
        let ghost before = out.deep_view();
        out.push(text);
        assert(out.deep_view() =~= before.push(lines@[k as int]@));
        assert(crate::media::char_rows(lines@).take(k + 1) =~= crate::media::char_rows(lines@).take(k as int).push(
            lines@[k as int]@,
        ));
        k = k + 1;
    }
    assert(crate::media::char_rows(lines@).take(k as int) =~= crate::media::char_rows(lines@));
    (column, rows, out)
}

/// The final column and row of `input` hard-wrapped to `width` columns.
pub fn wrapped_lines(input: &Vec<char>, width: u16, trailing_cursor_row: bool) -> (r: (usize, usize))
    ensures
        r.0 == wrapped(input@, width as nat, trailing_cursor_row).0,
        r.1 == wrapped(input@, width as nat, trailing_cursor_row).1,
{
    let (column, row, _) = wrapped_lines_with_content(input, width, trailing_cursor_row);
    (column, row)
}

/// The editor's text hard-wrapped for display, with the cursor's cell.
#[derive(Clone, Debug, PartialEq, Eq)]
pub struct EditorLayout {
    pub lines: Vec<String>,
    pub cursor_column: usize,
    pub cursor_row: usize,
}

/// The position of the character at which the first `offset` UTF-8 bytes of
/// `chars` end.
pub fn char_position(chars: &Vec<char>, offset: usize) -> (r: usize)
    requires
        exists|k: int| 0 <= k <= chars.len() && crate::media::utf8_len(#[trigger] chars@.take(k)) == offset,
    ensures
        r <= chars.len(),
        crate::media::utf8_len(chars@.take(r as int)) == offset,
{
    let mut total: usize = 0;
    let mut i: usize = 0;
    proof {
        assert forall|j: int, k: int| 0 <= j < k <= chars@.len() implies #[trigger] crate::media::utf8_len(
            chars@.take(j),
        ) < #[trigger] crate::media::utf8_len(chars@.take(k)) by {
            crate::present::lemma_utf8_len_strict(chars@, j, k);
        }
    }
    let ghost target = choose|k: int| 0 <= k <= chars.len() && crate::media::utf8_len(#[trigger] chars@.take(k)) == offset;
    while total < offset
        invariant
            i <= target <= chars.len(),
            total as nat == crate::media::utf8_len(chars@.take(i as int)),
            crate::media::utf8_len(chars@.take(target)) == offset,
            forall|j: int, k: int| 0 <= j < k <= chars@.len() ==> #[trigger] crate::media::utf8_len(chars@.take(j))
                < #[trigger] crate::media::utf8_len(chars@.take(k)),
        decreases chars.len() - i,
    {
        proof {
            if i == target {
                assert(false);
            }
        }
        let u = chars[i] as u32;
        let w: usize = if u < 0x80 { 1 } else if u < 0x800 { 2 } else if u < 0x10000 { 3 } else { 4 };
        assert(chars@.take(i + 1).drop_last() =~= chars@.take(i as int));
        proof {
            if i + 1 < target {
                assert(crate::media::utf8_len(chars@.take(i + 1)) < crate::media::utf8_len(chars@.take(target)));
            }
        }
        total = total + w;
        i = i + 1;
    }
    proof {
        if i < target {
            assert(crate::media::utf8_len(chars@.take(i as int)) < crate::media::utf8_len(chars@.take(target)));
        }
    }
    i
}

/// Lays out `input` at `width` columns with the cursor `cursor` bytes into it
/// (a character boundary): the cursor sits where wrapping the text before it
/// ends.
pub fn editor_layout(input: &str, cursor: usize, width: u16) -> (r: EditorLayout)
    requires
        exists|k: int| 0 <= k <= input@.len() && crate::media::utf8_len(#[trigger] input@.take(k)) == cursor,
    ensures
        exists|k: int|
            0 <= k <= input@.len() && crate::media::utf8_len(#[trigger] input@.take(k)) == cursor
            && r.lines.deep_view() == wrapped(input@, width as nat, true).2
            && r.cursor_column == wrapped(input@.take(k), width as nat, true).0
            && r.cursor_row == wrapped(input@.take(k), width as nat, true).1,
{
    let chars = crate::text::chars_of(input);
    let position = char_position(&chars, cursor);
    editor_layout_at(&chars, position, width)
}

/// Lays out `input` at `width` columns with the cursor before the character
/// at `cursor`: the cursor sits where wrapping the text before it ends.
pub fn editor_layout_at(input: &Vec<char>, cursor: usize, width: u16) -> (r: EditorLayout)
    requires
        cursor <= input.len(),
    ensures
        r.lines.deep_view() == wrapped(input@, width as nat, true).2,
        r.cursor_column == wrapped(input@.take(cursor as int), width as nat, true).0,
        r.cursor_row == wrapped(input@.take(cursor as int), width as nat, true).1,
{
    let mut before: Vec<char> = Vec::new();
    crate::text::push_range(&mut before, input, 0, cursor);
    assert(input@.subrange(0, cursor as int) =~= input@.take(cursor as int));
    let (cursor_column, cursor_row) = wrapped_lines(&before, width, true);
    let (_, _, lines) = wrapped_lines_with_content(input, width, true);
    EditorLayout { lines, cursor_column, cursor_row }
}

} // verus!
