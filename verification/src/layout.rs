//! Laying out rendered content for the terminal: a note squeezed into one row
//! of a given width, a quote cut to a number of characters, and a note wrapped
//! over rows in the detail view, each with the cells where custom emoji images
//! go. Widths are terminal columns, as `UnicodeWidthStr::width` counts them.

use vstd::prelude::*;

use crate::app::App;
use crate::editor::{display_width, graphemes, graphemes_of, joined, text_width};
use crate::emoji::{CustomEmoji, CustomEmojiView, RenderedPart, RenderedPartView, part_views};
use crate::text::{chars_of, string_of};

verus! {

/// A run of text and whether it shows a mention.
pub struct TextSpan {
    pub text: String,
    pub mention: bool,
}

impl View for TextSpan {
    type V = (Seq<char>, bool);

    open spec fn view(&self) -> (Seq<char>, bool) {
        (self.text@, self.mention)
    }
}

/// The values of a list of spans.
pub open spec fn span_views(v: Seq<TextSpan>) -> Seq<(Seq<char>, bool)> {
    v.map_values(|s: TextSpan| s@)
}

/// A custom emoji image placed at a row and column of laid-out content.
pub struct InlineImage {
    pub row: u16,
    pub column: u16,
    pub emoji: CustomEmoji,
}

impl View for InlineImage {
    type V = (u16, u16, CustomEmojiView);

    open spec fn view(&self) -> (u16, u16, CustomEmojiView) {
        (self.row, self.column, self.emoji@)
    }
}

/// The values of a list of placed images.
pub open spec fn image_views(v: Seq<InlineImage>) -> Seq<(u16, u16, CustomEmojiView)> {
    v.map_values(|i: InlineImage| i@)
}

/// One row of content: its spans and the images drawn over it.
pub struct InlineLine {
    pub spans: Vec<TextSpan>,
    pub images: Vec<InlineImage>,
}

/// Several rows of content and the images drawn over them.
pub struct InlineLayout {
    pub lines: Vec<Vec<TextSpan>>,
    pub images: Vec<InlineImage>,
}

/// The values of a list of rows.
pub open spec fn line_views(v: Seq<Vec<TextSpan>>) -> Seq<Seq<(Seq<char>, bool)>> {
    v.map_values(|l: Vec<TextSpan>| span_views(l@))
}

/// `s` with each line break shown as ` ↵ `.
pub open spec fn newline_marked(s: Seq<char>) -> Seq<char>
    decreases s.len(),
{
    if s.len() == 0 {
        seq![]
    } else {
        newline_marked(s.drop_last()) + if s.last() == '\n' {
            seq![' ', '\u{21b5}', ' ']
        } else {
            seq![s.last()]
        }
    }
}

/// `text` with each line break shown as ` ↵ `.
pub fn mark_newlines(text: &str) -> (r: String)
    ensures
        r@ == newline_marked(text@),
{
    let c = chars_of(text);
    let mut out: Vec<char> = Vec::new();
    let mut i: usize = 0;
    while i < c.len()
        invariant
            i <= c.len(),
            out@ == newline_marked(c@.take(i as int)),
        decreases c.len() - i,
    {
        assert(c@.take(i + 1).drop_last() =~= c@.take(i as int));
        if c[i] == '\n' {
            out.push(' ');
            out.push('\u{21b5}');
            out.push(' ');
        } else {
            out.push(c[i]);
        }
        i = i + 1;
        assert(out@ =~= newline_marked(c@.take(i as int)));
    }
    assert(c@.take(c.len() as int) =~= c@);
    string_of(&out)
}

/// The characters of a one-character text.
pub open spec fn ellipsis() -> Seq<char> {
    seq!['\u{2026}']
}

/// The text `…`.
pub fn ellipsis_text() -> (r: String)
    ensures
        r@ == ellipsis(),
{
    let mut c: Vec<char> = Vec::new();
    c.push('\u{2026}');
    assert(c@ =~= ellipsis());
    string_of(&c)
}

/// Cutting parts to a number of characters: the spans so far and the
/// characters still allowed.
pub struct Cut {
    pub spans: Seq<(Seq<char>, bool)>,
    pub remaining: nat,
}

/// The spans of the first `n` parts cut to `max_chars` characters in all,
/// line breaks shown as ` ↵ `; a part left empty gives no span.
pub open spec fn cut_parts(parts: Seq<RenderedPartView>, max_chars: nat, n: int) -> Cut
    decreases n,
{
    if n <= 0 {
        Cut { spans: seq![], remaining: max_chars }
    } else {
        let c = cut_parts(parts, max_chars, n - 1);
        let text = newline_marked(parts[n - 1].text);
        let kept = if text.len() <= c.remaining {
            text
        } else {
            text.take(c.remaining as int)
        };
        Cut {
            spans: if kept.len() > 0 {
                c.spans.push((kept, parts[n - 1].mention))
            } else {
                c.spans
            },
            remaining: (c.remaining - kept.len()) as nat,
        }
    }
}

/// The characters of the first `n` parts, line breaks shown as ` ↵ `.
pub open spec fn marked_chars(parts: Seq<RenderedPartView>, n: int) -> nat
    decreases n,
{
    if n <= 0 {
        0
    } else {
        marked_chars(parts, n - 1) + newline_marked(parts[n - 1].text).len()
    }
}

/// Content cut to `max_chars` characters, with `…` when something was left out.
pub open spec fn content_spans_spec(parts: Seq<RenderedPartView>, max_chars: nat) -> Seq<(Seq<char>, bool)> {
    let c = cut_parts(parts, max_chars, parts.len() as int);
    if marked_chars(parts, parts.len() as int) > max_chars {
        c.spans.push((ellipsis(), false))
    } else {
        c.spans
    }
}

/// Content as spans of at most `max_chars` characters in all, line breaks
/// shown as ` ↵ `, ending in `…` when it was cut.
pub fn compact_content_spans(parts: &Vec<RenderedPart>, max_chars: usize) -> (r: Vec<TextSpan>)
    requires
        marked_chars(part_views(parts@), parts.len() as int) <= usize::MAX,
    ensures
        span_views(r@) == content_spans_spec(part_views(parts@), max_chars as nat),
{
    let ghost ps = part_views(parts@);
    let mut spans: Vec<TextSpan> = Vec::new();
    let mut remaining = max_chars;
    let mut total: usize = 0;
    let mut i: usize = 0;
    proof {
        lemma_marked_chars_mono(ps, 0, parts.len() as int);
    }
    while i < parts.len()
        invariant
            i <= parts.len(),
            ps == part_views(parts@),
            marked_chars(ps, parts.len() as int) <= usize::MAX,
            total == marked_chars(ps, i as int),
            remaining == cut_parts(ps, max_chars as nat, i as int).remaining,
            span_views(spans@) == cut_parts(ps, max_chars as nat, i as int).spans,
        decreases parts.len() - i,
    {
        proof {
            lemma_marked_chars_mono(ps, i + 1, parts.len() as int);
        }
        let text = chars_of(mark_newlines(parts[i].text.as_str()).as_str());
        total = total + text.len();
        let keep = if text.len() <= remaining {
            text.len()
        } else {
            remaining
        };
        let mut kept: Vec<char> = Vec::new();
        crate::text::push_range(&mut kept, &text, 0, keep);
        assert(kept@ =~= if text@.len() <= remaining {
            text@
        } else {
            text@.take(remaining as int)
        });
        remaining = remaining - keep;
        if keep > 0 {
            let ghost before = spans@;
            spans.push(TextSpan { text: string_of(&kept), mention: parts[i].mention });
            assert(span_views(spans@) =~= span_views(before).push((kept@, parts@[i as int].mention)));
        }
        i = i + 1;
    }
    if total > max_chars {
        let ghost before = spans@;
        spans.push(TextSpan { text: ellipsis_text(), mention: false });
        assert(span_views(spans@) =~= span_views(before).push((ellipsis(), false)));
    }
    spans
}

/// The characters of a prefix of the parts are no more than those of a longer one.
pub proof fn lemma_marked_chars_mono(parts: Seq<RenderedPartView>, i: int, j: int)
    requires
        0 <= i <= j,
    ensures
        marked_chars(parts, i) <= marked_chars(parts, j),
    decreases j - i,
{
    if i < j {
        lemma_marked_chars_mono(parts, i, j - 1);
    }
}

/// The columns that a grapheme takes, at most `u16::MAX`.
pub open spec fn cell_width(g: Seq<char>) -> u16 {
    if text_width(g) > u16::MAX {
        u16::MAX
    } else {
        text_width(g) as u16
    }
}

/// `a + b`, saturating at `u16::MAX`.
pub open spec fn add_cells(a: u16, b: u16) -> u16 {
    if a + b > u16::MAX {
        u16::MAX
    } else {
        (a + b) as u16
    }
}

/// The columns that `g` takes, at most `u16::MAX`.
fn grapheme_cells(g: &String) -> (r: u16)
    ensures
        r == cell_width(g@),
{
    let w = display_width(g.as_str());
    if w > 65535 {
        65535
    } else {
        w as u16
    }
}

/// `a + b`, saturating at `u16::MAX`.
fn saturating_add_cells(a: u16, b: u16) -> (r: u16)
    ensures
        r == add_cells(a, b),
{
    if b > 65535 - a {
        65535
    } else {
        a + b
    }
}

/// Whether the image of the custom emoji `e` can be drawn.
pub open spec fn emoji_ready(app: crate::app::AppView, e: CustomEmojiView) -> bool {
    crate::cache::entry_ready(app.images.cached, crate::app::emoji_key(e.url), e.url)
}

/// Content being placed on one row: the spans and images so far, the next
/// free column, and whether something did not fit.
pub struct Squeeze {
    pub spans: Seq<(Seq<char>, bool)>,
    pub images: Seq<(u16, u16, CustomEmojiView)>,
    pub column: u16,
    pub truncated: bool,
}

/// The first `n` graphemes `gs` placed after `s`, stopping at the first that
/// would end past `width`.
pub open spec fn squeeze_graphemes(s: Squeeze, gs: Seq<Seq<char>>, mention: bool, width: u16, n: int) -> Squeeze
    decreases n,
{
    if n <= 0 {
        s
    } else {
        let t = squeeze_graphemes(s, gs, mention, width, n - 1);
        if t.truncated {
            t
        } else if add_cells(t.column, cell_width(gs[n - 1])) > width {
            Squeeze { truncated: true, ..t }
        } else {
            Squeeze { spans: t.spans.push((gs[n - 1], mention)), column: add_cells(t.column, cell_width(gs[n - 1])), ..t }
        }
    }
}

/// The two blank cells that an inline emoji image covers.
pub open spec fn image_cells() -> Seq<char> {
    seq![' ', ' ']
}

/// One part placed after `s`: a drawable emoji takes two cells, anything else
/// its text grapheme by grapheme, line breaks shown as ` ↵ `.
pub open spec fn squeeze_part(s: Squeeze, p: RenderedPartView, app: crate::app::AppView, width: u16) -> Squeeze {
    if p.emoji is Some && emoji_ready(app, p.emoji->0) {
        if add_cells(s.column, 2) > width {
            Squeeze { truncated: true, ..s }
        } else {
            Squeeze {
                spans: s.spans.push((image_cells(), false)),
                images: s.images.push((0u16, s.column, p.emoji->0)),
                column: add_cells(s.column, 2),
                ..s
            }
        }
    } else {
        let gs = graphemes_of(newline_marked(p.text));
        squeeze_graphemes(s, gs, p.mention, width, gs.len() as int)
    }
}

/// The first `n` parts placed on an empty row, stopping when one does not fit.
pub open spec fn squeeze_parts(parts: Seq<RenderedPartView>, app: crate::app::AppView, width: u16, n: int) -> Squeeze
    decreases n,
{
    if n <= 0 {
        Squeeze { spans: seq![], images: seq![], column: 0, truncated: false }
    } else {
        let t = squeeze_parts(parts, app, width, n - 1);
        if t.truncated {
            t
        } else {
            squeeze_part(t, parts[n - 1], app, width)
        }
    }
}

/// Content on one row of `width` columns: what fits, then `…` when something
/// was cut and a column is left; and where each emoji image goes.
pub open spec fn content_line_spec(parts: Seq<RenderedPartView>, app: crate::app::AppView, width: u16) -> (
    Seq<(Seq<char>, bool)>,
    Seq<(u16, u16, CustomEmojiView)>,
) {
    let t = squeeze_parts(parts, app, width, parts.len() as int);
    (
        if t.truncated && t.column < width {
            t.spans.push((ellipsis(), false))
        } else {
            t.spans
        },
        t.images,
    )
}

proof fn lemma_squeeze_graphemes_stop(s: Squeeze, gs: Seq<Seq<char>>, mention: bool, width: u16, i: int, j: int)
    requires
        0 <= i <= j,
        squeeze_graphemes(s, gs, mention, width, i).truncated,
    ensures
        squeeze_graphemes(s, gs, mention, width, j) == squeeze_graphemes(s, gs, mention, width, i),
    decreases j - i,
{
    if i < j {
        lemma_squeeze_graphemes_stop(s, gs, mention, width, i, j - 1);
    }
}

proof fn lemma_squeeze_parts_stop(parts: Seq<RenderedPartView>, app: crate::app::AppView, width: u16, i: int, j: int)
    requires
        0 <= i <= j,
        squeeze_parts(parts, app, width, i).truncated,
    ensures
        squeeze_parts(parts, app, width, j) == squeeze_parts(parts, app, width, i),
    decreases j - i,
{
    if i < j {
        lemma_squeeze_parts_stop(parts, app, width, i, j - 1);
    }
}

/// The two blank cells an inline emoji image covers.
fn image_cells_text() -> (r: String)
    ensures
        r@ == image_cells(),
{
    let mut c: Vec<char> = Vec::new();
    c.push(' ');
    c.push(' ');
    assert(c@ =~= image_cells());
    string_of(&c)
}

/// The state of a row being filled, as values.
pub open spec fn squeeze_of(spans: Seq<TextSpan>, images: Seq<InlineImage>, column: u16, truncated: bool) -> Squeeze {
    Squeeze { spans: span_views(spans), images: image_views(images), column, truncated }
}

/// Places the graphemes of `text` after what the row holds, stopping at the
/// first that does not fit in `width` columns.
fn squeeze_text(
    spans: &mut Vec<TextSpan>,
    column: &mut u16,
    truncated: &mut bool,
    text: &str,
    mention: bool,
    width: u16,
    Ghost(images): Ghost<Seq<InlineImage>>,
)
    requires
        !*old(truncated),
    ensures
        squeeze_of(final(spans)@, images, *final(column), *final(truncated)) == squeeze_graphemes(
            squeeze_of(old(spans)@, images, *old(column), *old(truncated)),
            graphemes_of(text@),
            mention,
            width,
            graphemes_of(text@).len() as int,
        ),
{
    let gs = graphemes(text);
    let ghost start = squeeze_of(spans@, images, *column, *truncated);
    let ghost g = gs.deep_view();
    let mut j: usize = 0;
    while j < gs.len() && !*truncated
        invariant
            j <= gs.len(),
            g == gs.deep_view(),
            squeeze_of(spans@, images, *column, *truncated) == squeeze_graphemes(start, g, mention, width, j as int),
        decreases gs.len() - j,
    {
        let next = saturating_add_cells(*column, grapheme_cells(&gs[j]));
        if next > width {
            *truncated = true;
        } else {
            let ghost before = spans@;
            spans.push(TextSpan { text: gs[j].clone(), mention });
            assert(span_views(spans@) =~= span_views(before).push((g[j as int], mention)));
            *column = next;
        }
        j = j + 1;
    }
    proof {
        if j < gs.len() {
            lemma_squeeze_graphemes_stop(start, g, mention, width, j as int, g.len() as int);
        }
    }
}

/// Content squeezed into one row of `width` columns: graphemes are kept while
/// they fit, line breaks show as ` ↵ `, a drawable custom emoji takes two
/// blank cells with its image placed over them, and `…` ends a row that was
/// cut while a column is left.
pub fn compact_content_line(app: &App, parts: &Vec<RenderedPart>, width: u16) -> (r: InlineLine)
    ensures
        (span_views(r.spans@), image_views(r.images@)) == content_line_spec(part_views(parts@), app@, width),
{
    let ghost ps = part_views(parts@);
    let mut spans: Vec<TextSpan> = Vec::new();
    let mut images: Vec<InlineImage> = Vec::new();
    let mut column: u16 = 0;
    let mut truncated = false;
    let mut i: usize = 0;
    assert(span_views(spans@) =~= Seq::<(Seq<char>, bool)>::empty());
    assert(image_views(images@) =~= Seq::<(u16, u16, CustomEmojiView)>::empty());
    while i < parts.len() && !truncated
        invariant
            i <= parts.len(),
            ps == part_views(parts@),
            squeeze_of(spans@, images@, column, truncated) == squeeze_parts(ps, app@, width, i as int),
        decreases parts.len() - i,
    {
        let part = &parts[i];
        let drawable: Option<CustomEmoji> = match &part.emoji {
            Some(e) => if app.custom_emoji_ready(e) {
                Some(e.duplicate())
            } else {
                None
            },
            None => None,
        };
        match drawable {
            Some(emoji) => {
                if saturating_add_cells(column, 2) > width {
                    truncated = true;
                } else {
                    let ghost before_spans = spans@;
                    let ghost before_images = images@;
                    spans.push(TextSpan { text: image_cells_text(), mention: false });
                    images.push(InlineImage { row: 0, column, emoji });
                    assert(span_views(spans@) =~= span_views(before_spans).push((image_cells(), false)));
                    assert(image_views(images@) =~= image_views(before_images).push((0u16, column, ps[i as int].emoji->0)));
                    column = saturating_add_cells(column, 2);
                }
            },
            None => {
                let text = mark_newlines(part.text.as_str());
                squeeze_text(&mut spans, &mut column, &mut truncated, text.as_str(), part.mention, width, Ghost(images@));
            },
        }
        i = i + 1;
    }
    proof {
        if i < parts.len() {
            lemma_squeeze_parts_stop(ps, app@, width, i as int, parts.len() as int);
        }
    }
    if truncated && column < width {
        let ghost before = spans@;
        spans.push(TextSpan { text: ellipsis_text(), mention: false });
        assert(span_views(spans@) =~= span_views(before).push((ellipsis(), false)));
    }
    InlineLine { spans, images }
}

/// Content flowing over rows: the finished rows, the row being filled, the
/// images so far, and the current row and column.
pub struct Flow {
    pub done: Seq<Seq<(Seq<char>, bool)>>,
    pub current: Seq<(Seq<char>, bool)>,
    pub images: Seq<(u16, u16, CustomEmojiView)>,
    pub row: u16,
    pub column: u16,
}

/// The flow continued on a new row.
pub open spec fn break_row(f: Flow) -> Flow {
    Flow { done: f.done.push(f.current), current: seq![], row: add_cells(f.row, 1), column: 0, ..f }
}

/// The text of a line break.
pub open spec fn line_break() -> Seq<char> {
    seq!['\n']
}

/// The first `n` graphemes `gs` flowed after `f`: a line break starts a new
/// row, and a grapheme with width that would end past `width` starts one too,
/// unless the row is empty.
pub open spec fn flow_graphemes(f: Flow, gs: Seq<Seq<char>>, mention: bool, width: u16, n: int) -> Flow
    decreases n,
{
    if n <= 0 {
        f
    } else {
        let t = flow_graphemes(f, gs, mention, width, n - 1);
        let g = gs[n - 1];
        if g == line_break() {
            break_row(t)
        } else {
            let w = cell_width(g);
            let u = if w > 0 && t.column > 0 && add_cells(t.column, w) > width {
                break_row(t)
            } else {
                t
            };
            Flow { current: u.current.push((g, mention)), column: add_cells(u.column, w), ..u }
        }
    }
}

/// One part flowed after `f`: a drawable emoji takes two cells (on a new row
/// when they would end past `width`), anything else its text.
pub open spec fn flow_part(f: Flow, p: RenderedPartView, app: crate::app::AppView, width: u16) -> Flow {
    if p.emoji is Some && emoji_ready(app, p.emoji->0) {
        let t = if f.column > 0 && add_cells(f.column, 2) > width {
            break_row(f)
        } else {
            f
        };
        Flow {
            current: t.current.push((image_cells(), false)),
            images: t.images.push((t.row, t.column, p.emoji->0)),
            column: add_cells(t.column, 2),
            ..t
        }
    } else {
        let gs = graphemes_of(p.text);
        flow_graphemes(f, gs, p.mention, width, gs.len() as int)
    }
}

/// The first `n` parts flowed from the top left.
pub open spec fn flow_parts(parts: Seq<RenderedPartView>, app: crate::app::AppView, width: u16, n: int) -> Flow
    decreases n,
{
    if n <= 0 {
        Flow { done: seq![], current: seq![], images: seq![], row: 0, column: 0 }
    } else {
        flow_part(flow_parts(parts, app, width, n - 1), parts[n - 1], app, width)
    }
}

/// Content wrapped to `width` columns (at least one): its rows and where each
/// emoji image goes.
pub open spec fn content_layout_spec(parts: Seq<RenderedPartView>, app: crate::app::AppView, width: u16) -> (
    Seq<Seq<(Seq<char>, bool)>>,
    Seq<(u16, u16, CustomEmojiView)>,
) {
    let w: u16 = if width == 0 {
        1
    } else {
        width
    };
    let f = flow_parts(parts, app, w, parts.len() as int);
    (f.done.push(f.current), f.images)
}

/// The state of content being wrapped, as values.
pub open spec fn flow_of(
    done: Seq<Vec<TextSpan>>,
    current: Seq<TextSpan>,
    images: Seq<InlineImage>,
    row: u16,
    column: u16,
) -> Flow {
    Flow { done: line_views(done), current: span_views(current), images: image_views(images), row, column }
}

/// Ends the current row and starts an empty one below it.
fn new_row(done: &mut Vec<Vec<TextSpan>>, current: &mut Vec<TextSpan>, row: &mut u16, column: &mut u16)
    ensures
        line_views(final(done)@) == line_views(old(done)@).push(span_views(old(current)@)),
        final(current)@.len() == 0,
        *final(row) == add_cells(*old(row), 1),
        *final(column) == 0,
{
    let mut finished: Vec<TextSpan> = Vec::new();
    std::mem::swap(&mut finished, current);
    let ghost before = done@;
    done.push(finished);
    assert(line_views(done@) =~= line_views(before).push(span_views(old(current)@)));
    *row = saturating_add_cells(*row, 1);
    *column = 0;
}

/// Whether `g` is a line break.
fn is_line_break(g: &String) -> (r: bool)
    ensures
        r == (g@ == line_break()),
{
    let c = chars_of(g.as_str());
    let r = c.len() == 1 && c[0] == '\n';
    if r {
        assert(c@ =~= line_break());
    }
    r
}

/// Flows the graphemes of `text` after what is laid out so far.
fn flow_text(
    done: &mut Vec<Vec<TextSpan>>,
    current: &mut Vec<TextSpan>,
    row: &mut u16,
    column: &mut u16,
    text: &str,
    mention: bool,
    width: u16,
    Ghost(images): Ghost<Seq<InlineImage>>,
)
    ensures
        flow_of(final(done)@, final(current)@, images, *final(row), *final(column)) == flow_graphemes(
            flow_of(old(done)@, old(current)@, images, *old(row), *old(column)),
            graphemes_of(text@),
            mention,
            width,
            graphemes_of(text@).len() as int,
        ),
{
    let gs = graphemes(text);
    let ghost start = flow_of(done@, current@, images, *row, *column);
    let ghost g = gs.deep_view();
    let mut j: usize = 0;
    while j < gs.len()
        invariant
            j <= gs.len(),
            g == gs.deep_view(),
            flow_of(done@, current@, images, *row, *column) == flow_graphemes(start, g, mention, width, j as int),
        decreases gs.len() - j,
    {
        if is_line_break(&gs[j]) {
            new_row(done, current, row, column);
            assert(span_views(current@) =~= Seq::<(Seq<char>, bool)>::empty());
        } else {
            let w = grapheme_cells(&gs[j]);
            if w > 0 && *column > 0 && saturating_add_cells(*column, w) > width {
                new_row(done, current, row, column);
                assert(span_views(current@) =~= Seq::<(Seq<char>, bool)>::empty());
            }
            let ghost before = current@;
            current.push(TextSpan { text: gs[j].clone(), mention });
            assert(span_views(current@) =~= span_views(before).push((g[j as int], mention)));
            *column = saturating_add_cells(*column, w);
        }
        j = j + 1;
    }
}

/// Content wrapped to `width` columns (at least one) grapheme by grapheme: a
/// line break starts a new row, a grapheme that would end past the width
/// starts one unless the row is empty, and a drawable custom emoji takes two
/// blank cells with its image placed over them.
pub fn detailed_content_layout(app: &App, parts: &Vec<RenderedPart>, width: u16) -> (r: InlineLayout)
    ensures
        (line_views(r.lines@), image_views(r.images@)) == content_layout_spec(part_views(parts@), app@, width),
{
    let width: u16 = if width == 0 {
        1
    } else {
        width
    };
    let ghost ps = part_views(parts@);
    let mut done: Vec<Vec<TextSpan>> = Vec::new();
    let mut current: Vec<TextSpan> = Vec::new();
    let mut images: Vec<InlineImage> = Vec::new();
    let mut row: u16 = 0;
    let mut column: u16 = 0;
    let mut i: usize = 0;
    assert(line_views(done@) =~= Seq::<Seq<(Seq<char>, bool)>>::empty());
    assert(span_views(current@) =~= Seq::<(Seq<char>, bool)>::empty());
    assert(image_views(images@) =~= Seq::<(u16, u16, CustomEmojiView)>::empty());
    while i < parts.len()
        invariant
            i <= parts.len(),
            ps == part_views(parts@),
            flow_of(done@, current@, images@, row, column) == flow_parts(ps, app@, width, i as int),
        decreases parts.len() - i,
    {
        let part = &parts[i];
        let drawable: Option<CustomEmoji> = match &part.emoji {
            Some(e) => if app.custom_emoji_ready(e) {
                Some(e.duplicate())
            } else {
                None
            },
            None => None,
        };
        match drawable {
            Some(emoji) => {
                if column > 0 && saturating_add_cells(column, 2) > width {
                    new_row(&mut done, &mut current, &mut row, &mut column);
                    assert(span_views(current@) =~= Seq::<(Seq<char>, bool)>::empty());
                }
                let ghost before_spans = current@;
                let ghost before_images = images@;
                current.push(TextSpan { text: image_cells_text(), mention: false });
                images.push(InlineImage { row, column, emoji });
                assert(span_views(current@) =~= span_views(before_spans).push((image_cells(), false)));
                assert(image_views(images@) =~= image_views(before_images).push((row, column, ps[i as int].emoji->0)));
                column = saturating_add_cells(column, 2);
            },
            None => {
                flow_text(&mut done, &mut current, &mut row, &mut column, part.text.as_str(), part.mention, width, Ghost(images@));
            },
        }
        i = i + 1;
    }
    let ghost before = done@;
    done.push(current);
    assert(line_views(done@) =~= line_views(before).push(span_views(current@)));
    InlineLayout { lines: done, images }
}

/// The widest a post image preview is drawn, in columns.
pub const POST_IMAGE_MAX_WIDTH: u16 = 24;

/// The tallest a post image preview is drawn, in rows.
pub const POST_IMAGE_MAX_HEIGHT: u16 = 8;

/// Where the parts of a timeline item go, in rows from its top: an optional
/// repost line and reply line, the author row, the content row, two quote rows
/// when it quotes a note, the image rows, the reaction row and a blank row.
pub struct ItemRows {
    pub avatar_row: usize,
    pub content_row: usize,
    pub image_row: usize,
    pub reaction_row: usize,
    pub height: usize,
}

/// A flag as a count.
pub open spec fn count_of(flag: bool) -> int {
    if flag {
        1
    } else {
        0
    }
}

/// The rows of a timeline item with these parts and `image_rows` rows of image.
pub fn timeline_item_rows(repost: bool, reply: bool, quote: bool, image_rows: u16) -> (r: ItemRows)
    ensures
        r.avatar_row == count_of(repost) + count_of(reply),
        r.content_row == r.avatar_row + 1,
        r.image_row == r.content_row + 1 + 2 * count_of(quote),
        r.reaction_row == r.image_row + image_rows,
        r.height == r.reaction_row + 2,
{
    let mut avatar_row: usize = 0;
    if repost {
        avatar_row = avatar_row + 1;
    }
    if reply {
        avatar_row = avatar_row + 1;
    }
    let content_row = avatar_row + 1;
    let image_row = if quote {
        content_row + 3
    } else {
        content_row + 1
    };
    let reaction_row = image_row + image_rows as usize;
    ItemRows { avatar_row, content_row, image_row, reaction_row, height: reaction_row + 2 }
}

/// `a - b`, stopping at zero.
pub open spec fn sub_cells(a: u16, b: u16) -> u16 {
    if a >= b {
        (a - b) as u16
    } else {
        0
    }
}

/// The rows left for a post image in a viewport of `viewport_height` rows
/// under `rows_above` rows of the item, keeping the reaction and blank rows
/// visible, and at most [`POST_IMAGE_MAX_HEIGHT`]: an item taller than the
/// viewport would not be drawn at all.
pub open spec fn image_rows_spec(viewport_height: u16, rows_above: usize) -> u16 {
    let above: u16 = if rows_above > u16::MAX {
        u16::MAX
    } else {
        rows_above as u16
    };
    let left = sub_cells(sub_cells(viewport_height, above), 2);
    if left < POST_IMAGE_MAX_HEIGHT {
        left
    } else {
        POST_IMAGE_MAX_HEIGHT
    }
}

/// The rows left for a post image; see [`image_rows_spec`].
pub fn post_image_max_height(viewport_height: u16, rows_above: usize) -> (r: u16)
    ensures
        r == image_rows_spec(viewport_height, rows_above),
        r <= POST_IMAGE_MAX_HEIGHT,
{
    let above: u16 = if rows_above > 65535 {
        65535
    } else {
        rows_above as u16
    };
    let free = if viewport_height >= above {
        viewport_height - above
    } else {
        0
    };
    let left = if free >= 2 {
        free - 2
    } else {
        0
    };
    if left < POST_IMAGE_MAX_HEIGHT {
        left
    } else {
        POST_IMAGE_MAX_HEIGHT
    }
}

/// The list's offset and selection relative to the rendered window that
/// starts at `window_start` and holds `window_len` items: the timeline's
/// offset moved into the window, and the selected item's place in it.
pub fn window_positions(offset: usize, window_start: usize, window_len: usize, selected: usize) -> (r: (usize, usize))
    requires
        window_len >= 1,
        window_start <= selected,
    ensures
        r.0 == if offset >= window_start {
            if offset - window_start < window_len - 1 {
                offset - window_start
            } else {
                window_len - 1
            }
        } else {
            0
        },
        r.1 == selected - window_start,
{
    let shifted = if offset >= window_start {
        offset - window_start
    } else {
        0
    };
    let last = window_len - 1;
    (if shifted < last {
        shifted
    } else {
        last
    }, selected - window_start)
}

/// The items from `first` on whose rows fit between `top` and `bottom`, each
/// with the row it starts at: they are stacked from `top`, and the first that
/// would end below `bottom` ends the list.
pub open spec fn fitting_items(heights: Seq<u16>, first: int, top: u16, bottom: u16, n: int) -> (Seq<(usize, u16)>, u16, bool)
    decreases n,
{
    if n <= 0 {
        (seq![], top, false)
    } else {
        let (items, y, full) = fitting_items(heights, first, top, bottom, n - 1);
        let index = first + n - 1;
        if full || index >= heights.len() {
            (items, y, full)
        } else if add_cells(y, heights[index]) > bottom {
            (items, y, true)
        } else {
            (items.push((index as usize, y)), add_cells(y, heights[index]), false)
        }
    }
}

/// The items from `first` on whose rows fit between `top` and `bottom`, with
/// the row each starts at; see [`fitting_items`].
pub fn items_in_view(heights: &Vec<u16>, first: usize, top: u16, bottom: u16) -> (r: Vec<(usize, u16)>)
    ensures
        r@ == fitting_items(heights@, first as int, top, bottom, heights.len() - first).0,
{
    let mut items: Vec<(usize, u16)> = Vec::new();
    let mut y = top;
    let mut full = false;
    let mut i = first;
    if first >= heights.len() {
        return items;
    }
    while i < heights.len()
        invariant
            first <= i <= heights.len(),
            (items@, y, full) == fitting_items(heights@, first as int, top, bottom, i - first),
        decreases heights.len() - i,
    {
        if !full {
            let next = saturating_add_cells(y, heights[i]);
            if next > bottom {
                full = true;
            } else {
                items.push((i, y));
                y = next;
            }
        }
        i = i + 1;
    }
    items
}

/// How the editor shows its text in a box of `inner_width` by `inner_height`
/// cells: the rows scrolled away so that the cursor row is visible, and the
/// cursor's column and row in the box.
pub struct EditorView {
    pub scroll: usize,
    pub cursor_x: u16,
    pub cursor_y: u16,
}

/// The editor's scroll and cursor cell for a cursor at `cursor_row` and
/// `cursor_column` of the wrapped text.
pub fn editor_view(cursor_row: usize, cursor_column: usize, inner_width: u16, inner_height: u16) -> (r: EditorView)
    ensures
        ({
            let w: int = if inner_width == 0 { 1 } else { inner_width as int };
            let h: int = if inner_height == 0 { 1 } else { inner_height as int };
            let scroll: int = if cursor_row >= h - 1 { cursor_row - (h - 1) } else { 0 };
            &&& r.scroll == scroll
            &&& r.cursor_x == if cursor_column < w - 1 { cursor_column as int } else { w - 1 }
            &&& r.cursor_y == if cursor_row - scroll < h - 1 { cursor_row - scroll } else { h - 1 }
        }),
{
    let w: u16 = if inner_width == 0 {
        1
    } else {
        inner_width
    };
    let h: u16 = if inner_height == 0 {
        1
    } else {
        inner_height
    };
    let keep = (h - 1) as usize;
    let scroll = if cursor_row >= keep {
        cursor_row - keep
    } else {
        0
    };
    let last_column = (w - 1) as usize;
    let x: u16 = if cursor_column < last_column {
        cursor_column as u16
    } else {
        w - 1
    };
    let visible = cursor_row - scroll;
    let y: u16 = if visible < keep {
        visible as u16
    } else {
        h - 1
    };
    EditorView { scroll, cursor_x: x, cursor_y: y }
}

} // verus!
