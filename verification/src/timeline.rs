//! One timeline: events newest first, a selection, and whether it follows
//! new events live or is paused with a count of unseen newer ones.

use vstd::prelude::*;

use crate::event::{Event, EventView};
use crate::text::same_chars;
use crate::text::chars_of;

verus! {

/// The values of a list of events.
pub open spec fn views(v: Seq<Event>) -> Seq<EventView> {
    v.map_values(|e: Event| e@)
}

/// Every event is at least as new as the ones after it.
pub open spec fn newest_first(s: Seq<EventView>) -> bool {
    forall|i: int, j: int| 0 <= i < j < s.len() ==> #[trigger] s[i].created_at >= #[trigger] s[j].created_at
}

/// `s` with `e` placed after every event at least as new as `e`: a stable
/// newest-first insertion.
pub open spec fn insert_newest(s: Seq<EventView>, e: EventView) -> Seq<EventView>
    decreases s.len(),
{
    if s.len() == 0 {
        seq![e]
    } else if s.last().created_at >= e.created_at {
        s.push(e)
    } else {
        insert_newest(s.drop_last(), e).push(s.last())
    }
}

/// `s` stably sorted newest first (an insertion of each event in turn).
pub open spec fn sort_newest(s: Seq<EventView>) -> Seq<EventView>
    decreases s.len(),
{
    if s.len() == 0 {
        seq![]
    } else {
        insert_newest(sort_newest(s.drop_last()), s.last())
    }
}

/// The first position of an event with id `id`.
pub open spec fn position_of(s: Seq<EventView>, id: Seq<char>) -> Option<int>
    decreases s.len(),
{
    if s.len() == 0 {
        None
    } else {
        match position_of(s.drop_last(), id) {
            Some(p) => Some(p),
            None => if s.last().id == id {
                Some(s.len() - 1)
            } else {
                None
            },
        }
    }
}

/// `a - b`, or zero where `b` is larger.
pub open spec fn saturating_sub(a: int, b: int) -> int {
    if a >= b {
        a - b
    } else {
        0
    }
}

/// The last position of a list of `len` items, zero for an empty list.
pub open spec fn last_position(len: int) -> int {
    saturating_sub(len, 1)
}

/// Where the selection lands when the events change from `before` to
/// `after`: on the previously selected event when it is still there, else at
/// the same position, kept within the list.
pub open spec fn kept_selection(before: Seq<EventView>, selection: int, after: Seq<EventView>) -> int {
    let found = if 0 <= selection < before.len() {
        position_of(after, before[selection].id)
    } else {
        None
    };
    match found {
        Some(p) => p,
        None => if selection < last_position(after.len() as int) {
            selection
        } else {
            last_position(after.len() as int)
        },
    }
}

/// A timeline after `e` arrives: placed newest first; a live timeline
/// selects the newest event; a paused one keeps its selected event and
/// viewport row, and counts `e` as unseen when it lands above the selection.
pub open spec fn added(t: TimelineView, e: EventView) -> TimelineView {
    let after = insert_newest(t.items, e);
    if t.live {
        TimelineView { items: after, selection: 0, live: true, unseen: 0, offset: 0 }
    } else {
        let sel = kept_selection(t.items, t.selection, after);
        TimelineView {
            items: after,
            selection: sel,
            live: false,
            unseen: t.unseen + match position_of(after, e.id) {
                Some(p) => if p < sel {
                    1int
                } else {
                    0
                },
                None => 0,
            },
            offset: saturating_sub(sel, saturating_sub(t.selection, t.offset)),
        }
    }
}

/// A timeline after its events are replaced by `es`, sorted newest first; a
/// live timeline selects the newest; a paused one keeps its selected event.
pub open spec fn replaced(t: TimelineView, es: Seq<EventView>) -> TimelineView {
    let after = sort_newest(es);
    if t.live {
        TimelineView { items: after, selection: 0, offset: 0, ..t }
    } else {
        let sel = kept_selection(t.items, t.selection, after);
        TimelineView {
            items: after,
            selection: sel,
            offset: if t.offset < sel {
                t.offset
            } else {
                sel
            },
            ..t
        }
    }
}

/// A timeline of events and where the reader is in it.
pub struct TimelineState {
    events: Vec<Event>,
    selected: usize,
    live: bool,
    unseen: usize,
    offset: usize,
}

/// Everything a timeline holds, as values.
pub struct TimelineView {
    pub items: Seq<EventView>,
    pub selection: int,
    pub live: bool,
    pub unseen: int,
    pub offset: int,
}

impl View for TimelineState {
    type V = TimelineView;

    open spec fn view(&self) -> TimelineView {
        TimelineView {
            items: self.items(),
            selection: self.selection(),
            live: self.following_live(),
            unseen: self.unseen_newer(),
            offset: self.first_shown(),
        }
    }
}

impl TimelineState {
    /// The events, newest first.
    pub closed spec fn items(&self) -> Seq<EventView> {
        views(self.events@)
    }

    /// The selected position.
    pub closed spec fn selection(&self) -> int {
        self.selected as int
    }

    /// Whether the timeline follows new events.
    pub closed spec fn following_live(&self) -> bool {
        self.live
    }

    /// Newer events that arrived while paused.
    pub closed spec fn unseen_newer(&self) -> int {
        self.unseen as int
    }

    /// The first position shown in the viewport.
    pub closed spec fn first_shown(&self) -> int {
        self.offset as int
    }

    /// The events are newest first and the selection is a position of the
    /// list (zero when it is empty).
    pub open spec fn well_formed(&self) -> bool {
        &&& newest_first(self.items())
        &&& (self.selection() == 0 || self.selection() < self.items().len())
    }

    /// An empty timeline that follows new events.
    pub fn new() -> (r: TimelineState)
        ensures
            r.well_formed(),
            r.items() == Seq::<EventView>::empty(),
            r.selection() == 0,
            r.following_live(),
            r.unseen_newer() == 0,
            r.first_shown() == 0,
    {
        let r = TimelineState { events: Vec::new(), selected: 0, live: true, unseen: 0, offset: 0 };
        assert(views(r.events@) =~= Seq::<EventView>::empty());
        r
    }

    /// The events, newest first.
    pub fn events(&self) -> (r: &Vec<Event>)
        ensures
            views(r@) == self.items(),
    {
        &self.events
    }

    /// The selected position.
    pub fn selected(&self) -> (r: usize)
        ensures
            r == self.selection(),
    {
        self.selected
    }

    /// Whether the timeline follows new events.
    pub fn is_live(&self) -> (r: bool)
        ensures
            r == self.following_live(),
    {
        self.live
    }

    /// Newer events that arrived while paused.
    pub fn unseen(&self) -> (r: usize)
        ensures
            r == self.unseen_newer(),
    {
        self.unseen
    }

    /// The first position shown in the viewport.
    pub fn offset(&self) -> (r: usize)
        ensures
            r == self.first_shown(),
    {
        self.offset
    }

    /// Moves the selection to `selected`, which must lie in the list.
    pub fn select(&mut self, selected: usize)
        requires
            old(self).well_formed(),
            selected == 0 || selected < old(self).items().len(),
        ensures
            final(self).well_formed(),
            final(self).selection() == selected,
            final(self).items() == old(self).items(),
            final(self).following_live() == old(self).following_live(),
            final(self).unseen_newer() == old(self).unseen_newer(),
            final(self).first_shown() == old(self).first_shown(),
    {
        self.selected = selected;
    }

    /// Pauses the timeline without moving anything.
    pub fn pause(&mut self)
        requires
            old(self).well_formed(),
        ensures
            final(self).well_formed(),
            !final(self).following_live(),
            final(self).items() == old(self).items(),
            final(self).selection() == old(self).selection(),
            final(self).unseen_newer() == old(self).unseen_newer(),
            final(self).first_shown() == old(self).first_shown(),
    {
        self.live = false;
    }

    /// Records the viewport's first shown position.
    pub fn set_offset(&mut self, offset: usize)
        requires
            old(self).well_formed(),
        ensures
            final(self).well_formed(),
            final(self).first_shown() == offset,
            final(self).items() == old(self).items(),
            final(self).selection() == old(self).selection(),
            final(self).following_live() == old(self).following_live(),
            final(self).unseen_newer() == old(self).unseen_newer(),
    {
        self.offset = offset;
    }
}

/// Follows new events again: live, nothing unseen, the viewport at the top.
pub fn resume_timeline(timeline: &mut TimelineState)
    requires
        old(timeline).well_formed(),
    ensures
        final(timeline).well_formed(),
        final(timeline).following_live(),
        final(timeline).unseen_newer() == 0,
        final(timeline).first_shown() == 0,
        final(timeline).items() == old(timeline).items(),
        final(timeline).selection() == old(timeline).selection(),
{
    timeline.live = true;
    timeline.unseen = 0;
    timeline.offset = 0;
}

/// The position of the first event with the id `id`.
pub(crate) fn find_event(events: &Vec<Event>, id: &String) -> (r: Option<usize>)
    ensures
        match position_of(views(events@), id@) {
            Some(p) => 0 <= p < events.len() && r == Some(p as usize),
            None => r is None,
        },
{
    let key = chars_of(id.as_str());
    let mut i: usize = 0;
    while i < events.len()
        invariant
            i <= events.len(),
            key@ == id@,
            position_of(views(events@).take(i as int), id@) is None,
        decreases events.len() - i,
    {
        let here = chars_of(events[i].id.as_str());
        assert(views(events@).take(i + 1).drop_last() =~= views(events@).take(i as int));
        assert(views(events@).take(i + 1).last() == events@[i as int]@);
        if same_chars(&here, &key) {
            proof {
                lemma_position_prefix(views(events@), id@, i + 1);
                lemma_position_of(views(events@), id@);
            }
            return Some(i);
        }
        i = i + 1;
    }
    assert(views(events@).take(i as int) =~= views(events@));
    None
}

/// A position found in a prefix is the position in the whole list.
proof fn lemma_position_prefix(s: Seq<EventView>, id: Seq<char>, n: int)
    requires
        0 <= n <= s.len(),
        position_of(s.take(n), id) is Some,
    ensures
        position_of(s, id) == position_of(s.take(n), id),
    decreases s.len() - n,
{
    if n < s.len() {
        assert(s.take(n + 1).drop_last() =~= s.take(n));
        lemma_position_prefix(s, id, n + 1);
    } else {
        assert(s.take(n) =~= s);
    }
}

/// What `position_of` finds is an event with that id, and none before it has it.
pub proof fn lemma_position_of(s: Seq<EventView>, id: Seq<char>)
    ensures
        match position_of(s, id) {
            Some(p) => 0 <= p < s.len() && s[p].id == id && forall|q: int| 0 <= q < p ==> (#[trigger] s[q]).id != id,
            None => forall|q: int| 0 <= q < s.len() ==> (#[trigger] s[q]).id != id,
        },
    decreases s.len(),
{
    if s.len() > 0 {
        let t = s.drop_last();
        lemma_position_of(t, id);
        assert forall|q: int| 0 <= q < t.len() implies s[q] == #[trigger] t[q] by {}
        match position_of(t, id) {
            Some(p) => {
                assert(t[p] == s[p]);
                assert forall|q: int| 0 <= q < p implies (#[trigger] s[q]).id != id by {
                    assert(t[q] == s[q]);
                }
            },
            None => {
                assert forall|q: int| 0 <= q < s.len() - 1 implies (#[trigger] s[q]).id != id by {
                    assert(t[q] == s[q]);
                }
            },
        }
    }
}

/// For a newest-first list, the stable insertion lands at the first position
/// holding an older event.
proof fn lemma_insert_at(s: Seq<EventView>, e: EventView, p: int)
    requires
        newest_first(s),
        0 <= p <= s.len(),
        forall|q: int| 0 <= q < p ==> #[trigger] s[q].created_at >= e.created_at,
        p < s.len() ==> s[p].created_at < e.created_at,
    ensures
        insert_newest(s, e) == s.insert(p, e),
    decreases s.len(),
{
    if s.len() == 0 {
        assert(s.insert(p, e) =~= seq![e]);
    } else if s.last().created_at >= e.created_at {
        if p < s.len() {
            assert(s[p].created_at >= s.last().created_at);
        }
        assert(s.insert(p, e) =~= s.push(e));
    } else {
        let t = s.drop_last();
        assert(p < s.len()) by {
            if p == s.len() {
                assert(s[s.len() - 1].created_at >= e.created_at);
            }
        }
        assert(newest_first(t)) by {
            assert forall|i: int, j: int| 0 <= i < j < t.len() implies #[trigger] t[i].created_at
                >= #[trigger] t[j].created_at by {
                assert(t[i] == s[i] && t[j] == s[j]);
            }
        }
        assert forall|q: int| 0 <= q < p implies #[trigger] t[q].created_at >= e.created_at by {
            assert(t[q] == s[q]);
        }
        if p < t.len() {
            assert(t[p] == s[p]);
        }
        lemma_insert_at(t, e, p);
        assert(s.insert(p, e) =~= t.insert(p, e).push(s.last()));
    }
}

/// The stable insertion keeps a list newest first and adds exactly `e`.
pub proof fn lemma_insert_newest(s: Seq<EventView>, e: EventView)
    requires
        newest_first(s),
    ensures
        newest_first(insert_newest(s, e)),
        insert_newest(s, e).len() == s.len() + 1,
        insert_newest(s, e).to_multiset() == s.to_multiset().insert(e),
{
    let p = first_older(s, e);
    lemma_first_older(s, e);
    lemma_insert_at(s, e, p);
    let r = s.insert(p, e);
    assert forall|i: int, j: int| 0 <= i < j < r.len() implies #[trigger] r[i].created_at >= #[trigger] r[j].created_at by {
        if j < p {
            assert(r[i] == s[i] && r[j] == s[j]);
        } else if j == p {
            assert(r[j] == e);
            assert(r[i] == s[i]);
        } else if i == p {
            assert(r[j] == s[j - 1]);
            assert(s[p].created_at < e.created_at);
            assert(s[p].created_at >= s[j - 1].created_at || j - 1 == p);
        } else if i < p {
            assert(r[i] == s[i] && r[j] == s[j - 1]);
        } else {
            assert(r[i] == s[i - 1] && r[j] == s[j - 1]);
        }
    }
    vstd::seq_lib::to_multiset_insert(s, p, e);
}

/// The first position of `s` holding an event older than `e`.
pub open spec fn first_older(s: Seq<EventView>, e: EventView) -> int
    decreases s.len(),
{
    if s.len() == 0 {
        0
    } else if s.last().created_at >= e.created_at {
        s.len() as int
    } else {
        first_older(s.drop_last(), e)
    }
}

/// `first_older` is the first position whose event is older than `e` in a
/// newest-first list.
proof fn lemma_first_older(s: Seq<EventView>, e: EventView)
    requires
        newest_first(s),
    ensures
        0 <= first_older(s, e) <= s.len(),
        forall|q: int| 0 <= q < first_older(s, e) ==> #[trigger] s[q].created_at >= e.created_at,
        first_older(s, e) < s.len() ==> s[first_older(s, e)].created_at < e.created_at,
    decreases s.len(),
{
    if s.len() > 0 {
        let t = s.drop_last();
        assert(newest_first(t)) by {
            assert forall|i: int, j: int| 0 <= i < j < t.len() implies #[trigger] t[i].created_at
                >= #[trigger] t[j].created_at by {
                assert(t[i] == s[i] && t[j] == s[j]);
            }
        }
        lemma_first_older(t, e);
        if s.last().created_at >= e.created_at {
            assert forall|q: int| 0 <= q < s.len() implies #[trigger] s[q].created_at >= e.created_at by {
                assert(s[q].created_at >= s[s.len() - 1].created_at || q == s.len() - 1);
            }
        } else {
            assert forall|q: int| 0 <= q < first_older(s, e) implies #[trigger] s[q].created_at >= e.created_at by {
                assert(t[q] == s[q]);
            }
            if first_older(s, e) < t.len() {
                assert(t[first_older(s, e)] == s[first_older(s, e)]);
            }
        }
    }
}

/// Sorting yields a newest-first permutation of the input.
pub proof fn lemma_sort_newest(s: Seq<EventView>)
    ensures
        newest_first(sort_newest(s)),
        sort_newest(s).len() == s.len(),
        sort_newest(s).to_multiset() == s.to_multiset(),
    decreases s.len(),
{
    if s.len() == 0 {
        assert(sort_newest(s) =~= s);
    } else {
        lemma_sort_newest(s.drop_last());
        lemma_insert_newest(sort_newest(s.drop_last()), s.last());
        assert(s =~= s.drop_last().push(s.last()));
        vstd::seq_lib::to_multiset_build(s.drop_last(), s.last());
    }
}

/// While a timeline is paused, an incoming event never changes which event
/// is selected.
pub proof fn law_incoming_event_keeps_selected_event(t: TimelineView, e: EventView)
    requires
        newest_first(t.items),
        !t.live,
        0 <= t.selection < t.items.len(),
    ensures
        0 <= added(t, e).selection < added(t, e).items.len(),
        added(t, e).items[added(t, e).selection].id == t.items[t.selection].id,
{
    let before = t.items;
    let p = first_older(before, e);
    lemma_first_older(before, e);
    lemma_insert_at(before, e, p);
    let after = insert_newest(before, e);
    let id = before[t.selection].id;
    lemma_position_of(after, id);
    if t.selection < p {
        assert(after[t.selection] == before[t.selection]);
    } else {
        assert(after[t.selection + 1] == before[t.selection]);
    }
}

/// Ids occur at most once in `s`.
pub open spec fn distinct_ids(s: Seq<EventView>) -> bool {
    forall|i: int, j: int| 0 <= i < j < s.len() ==> #[trigger] s[i].id != #[trigger] s[j].id
}

/// While a timeline is paused, an arriving event counts as unseen exactly
/// when it is newer than the selected event, and so lands above it: the
/// unseen count goes up by one then and stays the same otherwise (an older
/// event lands below the selection and is not counted).
pub proof fn law_paused_timeline_counts_only_newer_events(t: TimelineView, e: EventView)
    requires
        newest_first(t.items),
        distinct_ids(t.items),
        forall|i: int| 0 <= i < t.items.len() ==> (#[trigger] t.items[i]).id != e.id,
        !t.live,
        0 <= t.selection < t.items.len(),
    ensures
        added(t, e).unseen == t.unseen + if e.created_at > t.items[t.selection].created_at {
            1int
        } else {
            0
        },
        (e.created_at > t.items[t.selection].created_at) == (position_of(added(t, e).items, e.id)->0 < added(t, e).selection),
{
    let before = t.items;
    let sel = t.selection;
    let p = first_older(before, e);
    lemma_first_older(before, e);
    lemma_insert_at(before, e, p);
    let after = insert_newest(before, e);
    assert(after == before.insert(p, e));
    let id = before[sel].id;
    let c = if sel < p { sel } else { sel + 1 };
    assert(after[c] == before[sel]);
    lemma_position_of(after, id);
    lemma_position_of(after, e.id);
    assert(after[p] == e);
    assert(position_of(after, id) == Some(c)) by {
        let q = position_of(after, id)->0;
        if q < c {
            if q < p {
                assert(after[q] == before[q]);
            } else if q == p {
                assert(after[q] == e);
            } else {
                assert(after[q] == before[q - 1]);
            }
        }
    }
    assert(position_of(after, e.id) == Some(p)) by {
        let q = position_of(after, e.id)->0;
        if q < p {
            assert(after[q] == before[q]);
        }
    }
    if sel >= p {
        if p < before.len() {
            assert(before[p].created_at >= before[sel].created_at);
        }
    }
}

/// A live timeline always shows the newest event first and selects it.
pub proof fn law_live_timeline_selects_newest(t: TimelineView, e: EventView)
    requires
        newest_first(t.items),
        t.live,
    ensures
        added(t, e).selection == 0,
        added(t, e).live,
        added(t, e).unseen == 0,
        newest_first(added(t, e).items),
        forall|i: int| 0 <= i < added(t, e).items.len() ==> added(t, e).items[0].created_at >= (
        #[trigger] added(t, e).items[i]).created_at,
{
    lemma_insert_newest(t.items, e);
    let a = added(t, e).items;
    assert forall|i: int| 0 <= i < a.len() implies a[0].created_at >= (#[trigger] a[i]).created_at by {
        if i > 0 {
            assert(a[0].created_at >= a[i].created_at);
        }
    }
}

/// Places `event` among the events newest first; while paused, the selected
/// event stays selected and an event arriving above it counts as unseen.
pub fn add_timeline_event(timeline: &mut TimelineState, event: Event)
    requires
        old(timeline).well_formed(),
        old(timeline).unseen_newer() < usize::MAX,
    ensures
        final(timeline).well_formed(),
        final(timeline)@ == added(old(timeline)@, event@),
{
    let selected_id: Option<String> = if timeline.selected < timeline.events.len() {
        Some(timeline.events[timeline.selected].id.clone())
    } else {
        None
    };
    let viewport_row: usize = if timeline.selected >= timeline.offset {
        timeline.selected - timeline.offset
    } else {
        0
    };
    let incoming_id = event.id.clone();
    let ghost before = timeline.items();
    let ghost e = event@;
    let mut p: usize = 0;
    while p < timeline.events.len() && timeline.events[p].created_at >= event.created_at
        invariant
            p <= timeline.events.len(),
            before == views(timeline.events@),
            e == event@,
            forall|q: int| 0 <= q < p ==> #[trigger] before[q].created_at >= e.created_at,
        decreases timeline.events.len() - p,
    {
        p = p + 1;
    }
    proof {
        lemma_insert_at(before, e, p as int);
        lemma_insert_newest(before, e);
    }
    timeline.events.insert(p, event);
    assert(views(timeline.events@) =~= before.insert(p as int, e));
    if timeline.live {
        timeline.selected = 0;
        resume_timeline(timeline);
    } else {
        let len = timeline.events.len();
        let fallback: usize = if timeline.selected < len - 1 {
            timeline.selected
        } else {
            len - 1
        };
        let ghost old_selected = timeline.selected as int;
        let found = match &selected_id {
            Some(id) => find_event(&timeline.events, id),
            None => None,
        };
        let ghost after = timeline.items();
        proof {
            match selected_id {
                Some(id) => {
                    assert(id@ == before[old_selected].id);
                    lemma_position_of(after, id@);
                },
                None => {},
            }
        }
        timeline.selected = match found {
            Some(position) => position,
            None => fallback,
        };
        timeline.offset = if timeline.selected >= viewport_row {
            timeline.selected - viewport_row
        } else {
            0
        };
        let incoming = find_event(&timeline.events, &incoming_id);
        proof {
            lemma_position_of(after, e.id);
        }
        match incoming {
            Some(position) => {
                if position < timeline.selected {
                    timeline.unseen = timeline.unseen + 1;
                }
            },
            None => {},
        }
    }
}

/// Replaces the events with `events` sorted newest first, keeping the selected
/// event selected while paused.
pub fn replace_timeline_events(timeline: &mut TimelineState, events: Vec<Event>)
    requires
        old(timeline).well_formed(),
    ensures
        final(timeline).well_formed(),
        final(timeline)@ == replaced(old(timeline)@, views(events@)),
{
    let selected_id: Option<String> = if timeline.selected < timeline.events.len() {
        Some(timeline.events[timeline.selected].id.clone())
    } else {
        None
    };
    let ghost incoming = views(events@);
    let sorted = sort_events(events);
    timeline.events = sorted;
    proof {
        lemma_sort_newest(incoming);
    }
    if timeline.live {
        timeline.selected = 0;
        timeline.offset = 0;
    } else {
        let len = timeline.events.len();
        let fallback: usize = if len == 0 {
            0
        } else if timeline.selected < len - 1 {
            timeline.selected
        } else {
            len - 1
        };
        let found = match &selected_id {
            Some(id) => find_event(&timeline.events, id),
            None => None,
        };
        proof {
            match selected_id {
                Some(id) => lemma_position_of(timeline.items(), id@),
                None => {},
            }
        }
        timeline.selected = match found {
            Some(position) => position,
            None => fallback,
        };
        if timeline.selected < timeline.offset {
            timeline.offset = timeline.selected;
        }
    }
}

/// `events` stably sorted newest first.
fn sort_events(events: Vec<Event>) -> (r: Vec<Event>)
    ensures
        views(r@) == sort_newest(views(events@)),
{
    let ghost all = views(events@);
    let total = events.len();
    let mut rest = events;
    let mut sorted: Vec<Event> = Vec::new();
    let mut k: usize = 0;
    while rest.len() > 0
        invariant
            k <= all.len(),
            all.len() == total,
            views(rest@) == all.skip(k as int),
            views(sorted@) == sort_newest(all.take(k as int)),
        decreases rest.len(),
    {
        let ghost rest_before = rest@;
        let e = rest.remove(0);
        assert(views(rest@) =~= views(rest_before).skip(1));
        assert(all.skip(k as int)[0] == e@);
        assert(all.skip(k + 1) =~= all.skip(k as int).skip(1));
        assert(all.take(k + 1).drop_last() =~= all.take(k as int));
        assert(all.take(k + 1).last() == e@);
        let ghost s = views(sorted@);
        proof {
            lemma_sort_newest(all.take(k as int));
        }
        let mut p: usize = 0;
        while p < sorted.len() && sorted[p].created_at >= e.created_at
            invariant
                p <= sorted.len(),
                s == views(sorted@),
                forall|q: int| 0 <= q < p ==> #[trigger] s[q].created_at >= e.created_at,
            decreases sorted.len() - p,
        {
            p = p + 1;
        }
        proof {
            lemma_insert_at(s, e@, p as int);
        }
        let ghost ev = e@;
        sorted.insert(p, e);
        assert(views(sorted@) =~= s.insert(p as int, ev));
        assert(views(rest_before).len() == all.len() - k);
        k = k + 1;
    }
    assert(all.take(k as int) =~= all);
    sorted
}

} // verus!
