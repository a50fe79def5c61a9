//! The texts and placement around the timeline: the header's identity and
//! tab labels, the footer's help line, the message of an empty timeline, the
//! note shown for a referenced note that is not known, and the settings box.

use vstd::prelude::*;

use crate::app::TimelineTab;
use crate::present::{compact, compact_spec, decimal, push_decimal};
use crate::text::{chars_of, push_all, same_chars, string_of};

verus! {

/// The identity shown in the header: `read-only`, or the identity cut to 18
/// characters.
pub open spec fn identity_label_spec(identity: Seq<char>) -> Seq<char> {
    if identity == "read-only"@ {
        "read-only"@
    } else {
        compact_spec(identity, 18)
    }
}

/// The identity shown in the header.
pub fn identity_label(identity: &str) -> (r: String)
    ensures
        r@ == identity_label_spec(identity@),
{
    let c = chars_of(identity);
    let read_only = chars_of("read-only");
    if same_chars(&c, &read_only) {
        "read-only".to_owned()
    } else {
        compact(identity, 18)
    }
}

/// The tab's name.
pub open spec fn tab_name(tab: TimelineTab) -> Seq<char> {
    match tab {
        TimelineTab::Following => "Following"@,
        TimelineTab::Global => "Global"@,
    }
}

/// The key that selects the tab.
pub open spec fn tab_key(tab: TimelineTab) -> char {
    match tab {
        TimelineTab::Following => '1',
        TimelineTab::Global => '2',
    }
}

/// The header label of a tab: ` 1 Following (3) `.
pub open spec fn tab_label_spec(tab: TimelineTab, count: nat) -> Seq<char> {
    seq![' ', tab_key(tab), ' '] + tab_name(tab) + seq![' ', '('] + decimal(count) + seq![')', ' ']
}

/// The header label of a tab with `count` notes.
pub fn tab_label(tab: TimelineTab, count: u64) -> (r: String)
    ensures
        r@ == tab_label_spec(tab, count as nat),
{
    let mut out: Vec<char> = Vec::new();
    out.push(' ');
    out.push(
        match tab {
            TimelineTab::Following => '1',
            TimelineTab::Global => '2',
        },
    );
    out.push(' ');
    push_all(&mut out, &chars_of(tab.label()));
    out.push(' ');
    out.push('(');
    push_decimal(&mut out, count);
    out.push(')');
    out.push(' ');
    assert(out@ =~= tab_label_spec(tab, count as nat));
    string_of(&out)
}

/// The timeline's state: `LIVE`, `PAUSED`, or `PAUSED · 3 new` when newer
/// notes arrived while paused.
pub open spec fn timeline_mode_spec(live: bool, unseen: nat) -> Seq<char> {
    if live {
        "LIVE"@
    } else if unseen > 0 {
        "PAUSED · "@ + decimal(unseen) + " new"@
    } else {
        "PAUSED"@
    }
}

/// The help line under the timeline: the settings keys while the settings are
/// open, every timeline key in the timeline, and `INSERT` while editing.
pub open spec fn footer_spec(live: bool, unseen: nat, settings_open: bool, editing: bool) -> Seq<char> {
    if settings_open {
        " SETTINGS  m/Esc close  q quit "@
    } else if !editing {
        seq![' '] + timeline_mode_spec(live, unseen)
            + "  Tab/1/2 timeline  j/k move  g LIVE/top  G last  l/Enter detail  m settings  i/o post  r reply  f/e react  R repost  q quit "@
    } else {
        seq![' '] + timeline_mode_spec(live, unseen) + "  INSERT "@
    }
}

/// The help line under the timeline.
pub fn footer_text(live: bool, unseen: u64, settings_open: bool, editing: bool) -> (r: String)
    ensures
        r@ == footer_spec(live, unseen as nat, settings_open, editing),
{
    if settings_open {
        return " SETTINGS  m/Esc close  q quit ".to_owned();
    }
    let mut out: Vec<char> = Vec::new();
    out.push(' ');
    if live {
        push_all(&mut out, &chars_of("LIVE"));
    } else if unseen > 0 {
        push_all(&mut out, &chars_of("PAUSED · "));
        push_decimal(&mut out, unseen);
        push_all(&mut out, &chars_of(" new"));
    } else {
        push_all(&mut out, &chars_of("PAUSED"));
    }
    if !editing {
        push_all(
            &mut out,
            &chars_of(
                "  Tab/1/2 timeline  j/k move  g LIVE/top  G last  l/Enter detail  m settings  i/o post  r reply  f/e react  R repost  q quit ",
            ),
        );
    } else {
        push_all(&mut out, &chars_of("  INSERT "));
    }
    assert(out@ =~= footer_spec(live, unseen as nat, settings_open, editing));
    string_of(&out)
}

/// What an empty timeline says.
pub open spec fn empty_timeline_spec(tab: TimelineTab, following_available: bool) -> Seq<char> {
    if tab == TimelineTab::Following && !following_available {
        "Following timeline requires NOSTR_SECRET_KEY"@
    } else if tab == TimelineTab::Following {
        "No notes from followed accounts yet"@
    } else {
        "No notes received yet"@
    }
}

/// What an empty timeline says.
pub fn empty_timeline_message(tab: TimelineTab, following_available: bool) -> (r: &'static str)
    ensures
        r@ == empty_timeline_spec(tab, following_available),
{
    if tab == TimelineTab::Following && !following_available {
        "Following timeline requires NOSTR_SECRET_KEY"
    } else if tab == TimelineTab::Following {
        "No notes from followed accounts yet"
    } else {
        "No notes received yet"
    }
}

/// The line shown for a referenced note that is not known: its id cut to 22
/// characters, then whether it is still loading.
pub open spec fn reference_status_spec(id: Seq<char>, loading: bool) -> Seq<char> {
    compact_spec(id, 22) + " · "@ + if loading {
        "loading…"@
    } else {
        "unavailable"@
    }
}

/// The line shown for a referenced note that is not known.
pub fn reference_status(id: &str, loading: bool) -> (r: String)
    ensures
        r@ == reference_status_spec(id@, loading),
{
    let mut out = chars_of(compact(id, 22).as_str());
    push_all(&mut out, &chars_of(" · "));
    if loading {
        push_all(&mut out, &chars_of("loading…"));
    } else {
        push_all(&mut out, &chars_of("unavailable"));
    }
    string_of(&out)
}

/// `v` kept between `lo` and `hi` (with `lo <= hi`).
pub open spec fn clamp_spec(v: int, lo: int, hi: int) -> int {
    if v < lo {
        lo
    } else if v > hi {
        hi
    } else {
        v
    }
}

/// The settings box on a screen at `x`, `y` of `width` by `height` cells
/// listing `relays` relays: at most 72 columns wide and four less than the
/// screen, tall enough for the relays and ten more rows but two less than the
/// screen, at least one cell each way, and centred. The relay count is taken
/// as a `u16`, that is modulo 65536.
pub open spec fn settings_area_spec(x: u16, y: u16, width: u16, height: u16, relays: nat) -> (u16, u16, u16, u16) {
    let w = clamp_spec(sub_u16(width, 4), 1, 72);
    let h = clamp_spec(sub_u16(height, 2), 1, (relays % 65536) as int + 10);
    ((x + sub_u16(width, w as u16) / 2) as u16, (y + sub_u16(height, h as u16) / 2) as u16, w as u16, h as u16)
}

/// `a - b`, stopping at zero.
pub open spec fn sub_u16(a: u16, b: u16) -> int {
    if a >= b {
        a - b
    } else {
        0
    }
}

/// Where the settings box goes; see [`settings_area_spec`]. The relay count,
/// taken as a `u16`, and ten more rows must fit in a `u16`, else the row
/// count would overflow.
pub fn settings_area(x: u16, y: u16, width: u16, height: u16, relays: usize) -> (r: (u16, u16, u16, u16))
    requires
        x + width <= u16::MAX,
        y + height <= u16::MAX,
        relays % 65536 + 10 <= u16::MAX,
    ensures
        r == settings_area_spec(x, y, width, height, relays as nat),
{
    let inner_width = if width >= 4 {
        width - 4
    } else {
        0
    };
    let w: u16 = if inner_width < 1 {
        1
    } else if inner_width > 72 {
        72
    } else {
        inner_width
    };
    let desired = (relays % 65536) as u16 + 10;
    let inner_height = if height >= 2 {
        height - 2
    } else {
        0
    };
    let h: u16 = if inner_height < 1 {
        1
    } else if inner_height > desired {
        desired
    } else {
        inner_height
    };
    let left = if width >= w {
        width - w
    } else {
        0
    };
    let top = if height >= h {
        height - h
    } else {
        0
    };
    (x + left / 2, y + top / 2, w, h)
}

} // verus!
