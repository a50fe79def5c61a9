//! The client's state: profiles, reactions, two timelines, the editor and
//! the image cache, and the commands it asks the network side to carry out.
//! It also decides how an event is shown: reposts resolved to their original,
//! reply and quote context, rendered content with mentions and custom emoji,
//! author names, NIP-05 labels and reaction summaries.

use vstd::prelude::*;

use crate::cache::{ImageCache, ImageCacheView};
use crate::event::{Event, EventView};
use crate::keyed::{PairSet, TextMap, TextSet};
use crate::reactions::Reactions;

use crate::emoji::{
    custom_emoji_tags, emoji_table, emoji_views, emojified, emojify_parts, part_views, push_content_part, push_text,
    trim_back, trim_content_parts, trim_front, RenderedPart, RenderedPartView,
};
use crate::entities::{content_entities, entities_from, entity_views, lemma_entities_ordered, ContentEntityView, EntityKind, EntityKindView};
use crate::media::{post_image_urls, post_images_spec};
use crate::mentions::{expand_mentions, expansion_from};
use crate::nostr_calls::{npub_of, public_key_npub};
use crate::present::{display_nip05_address, nip05_display_spec};
use crate::text::{chars_of, copy_chars, opt_chars, prefix, push_range, string_of};
use crate::threads::{
    embedded_repost, embedded_repost_spec, is_repost, is_repost_spec, repost_target_id, repost_target_spec,
    reply_target_id, reply_target_spec,
};
use crate::timeline::{add_timeline_event, find_event, position_of, replace_timeline_events, resume_timeline, TimelineState, TimelineView};

verus! {

/// What the network side is asked to do. Keys and ids are lowercase hex.
#[derive(Debug)]
pub enum Command {
    Publish { content: String, reply_to: Option<Event> },
    React { event: Event, reaction: String },
    Repost(Event),
    VerifyNip05 { pubkey: String, address: String },
    FetchProfile(String),
    FetchEvent(String),
    FetchImage { key: String, url: String },
    Quit,
}

/// A command as values.
pub enum CommandView {
    Publish { content: Seq<char>, reply_to: Option<EventView> },
    React { event: EventView, reaction: Seq<char> },
    Repost(EventView),
    VerifyNip05 { pubkey: Seq<char>, address: Seq<char> },
    FetchProfile(Seq<char>),
    FetchEvent(Seq<char>),
    FetchImage { key: Seq<char>, url: Seq<char> },
    Quit,
}

impl View for Command {
    type V = CommandView;

    open spec fn view(&self) -> CommandView {
        match self {
            Command::Publish { content, reply_to } => CommandView::Publish {
                content: content@,
                reply_to: match reply_to {
                    Some(e) => Some(e@),
                    None => None,
                },
            },
            Command::React { event, reaction } => CommandView::React { event: event@, reaction: reaction@ },
            Command::Repost(e) => CommandView::Repost(e@),
            Command::VerifyNip05 { pubkey, address } => CommandView::VerifyNip05 {
                pubkey: pubkey@,
                address: address@,
            },
            Command::FetchProfile(k) => CommandView::FetchProfile(k@),
            Command::FetchEvent(i) => CommandView::FetchEvent(i@),
            Command::FetchImage { key, url } => CommandView::FetchImage { key: key@, url: url@ },
            Command::Quit => CommandView::Quit,
        }
    }
}

/// The values of a list of commands.
pub open spec fn command_views(v: Seq<Command>) -> Seq<CommandView> {
    v.map_values(|c: Command| c@)
}

/// Profile metadata (NIP-01 kind 0).
#[derive(Clone, Debug, PartialEq, Eq)]
pub struct Profile {
    pub name: Option<String>,
    pub display_name: Option<String>,
    pub nip05: Option<String>,
    pub about: Option<String>,
    pub picture: Option<String>,
}

impl Default for Profile {
    fn default() -> (r: Profile)
        ensures
            r.name is None,
            r.display_name is None,
            r.nip05 is None,
            r.about is None,
            r.picture is None,
    {
        Profile { name: None, display_name: None, nip05: None, about: None, picture: None }
    }
}

/// What the editor is for.
#[derive(Clone, Debug)]
pub enum InputMode {
    Normal,
    Compose { reply_to: Option<Event> },
    Reaction { event: Event },
}

/// An input mode as values.
pub enum InputModeView {
    Normal,
    Compose { reply_to: Option<EventView> },
    Reaction { event: EventView },
}

impl View for InputMode {
    type V = InputModeView;

    open spec fn view(&self) -> InputModeView {
        match self {
            InputMode::Normal => InputModeView::Normal,
            InputMode::Compose { reply_to } => InputModeView::Compose {
                reply_to: match reply_to {
                    Some(e) => Some(e@),
                    None => None,
                },
            },
            InputMode::Reaction { event } => InputModeView::Reaction { event: event@ },
        }
    }
}

impl InputMode {
    /// A copy of this mode.
    pub fn duplicate(&self) -> (r: InputMode)
        ensures
            r@ == self@,
    {
        match self {
            InputMode::Normal => InputMode::Normal,
            InputMode::Compose { reply_to } => InputMode::Compose {
                reply_to: match reply_to {
                    Some(e) => Some(e.duplicate()),
                    None => None,
                },
            },
            InputMode::Reaction { event } => InputMode::Reaction { event: event.duplicate() },
        }
    }
}

/// Which timeline is shown.
#[derive(Clone, Copy, Debug, PartialEq, Eq, Structural)]
pub enum TimelineTab {
    Following,
    Global,
}

impl TimelineTab {
    /// The tab's title.
    pub fn label(self) -> (r: &'static str)
        ensures
            self == TimelineTab::Following ==> r@ == "Following"@,
            self == TimelineTab::Global ==> r@ == "Global"@,
    {
        match self {
            TimelineTab::Following => "Following",
            TimelineTab::Global => "Global",
        }
    }
}

/// The other tab.
pub open spec fn other_tab(tab: TimelineTab) -> TimelineTab {
    match tab {
        TimelineTab::Following => TimelineTab::Global,
        TimelineTab::Global => TimelineTab::Following,
    }
}

/// Everything the client holds, as values.
pub struct AppView {
    pub profiles: Map<Seq<char>, Profile>,
    pub verified_nip05: Set<(Seq<char>, Seq<char>)>,
    pub reactions: Map<Seq<char>, Reactions>,
    pub mode: InputModeView,
    pub input: Seq<char>,
    pub cursor: nat,
    pub detail: bool,
    pub status: Seq<char>,
    pub identity: Seq<char>,
    pub read_only: bool,
    pub settings_open: bool,
    pub relays: Seq<Seq<char>>,
    pub active_tab: TimelineTab,
    pub following_available: bool,
    pub following: Set<Seq<char>>,
    pub following_timeline: TimelineView,
    pub global_timeline: TimelineView,
    pub seen: Set<Seq<char>>,
    pub pending_nip05: Set<(Seq<char>, Seq<char>)>,
    pub pending_profiles: Set<Seq<char>>,
    pub referenced: Map<Seq<char>, Event>,
    pub requested_references: Set<Seq<char>>,
    pub pending_references: Set<Seq<char>>,
    pub profile_timestamps: Map<Seq<char>, u64>,
    pub images: ImageCacheView,
}

impl AppView {
    /// The timeline of the active tab.
    pub open spec fn active(self) -> TimelineView {
        match self.active_tab {
            TimelineTab::Following => self.following_timeline,
            TimelineTab::Global => self.global_timeline,
        }
    }

    /// This state with the active timeline replaced.
    pub open spec fn with_active(self, t: TimelineView) -> AppView {
        match self.active_tab {
            TimelineTab::Following => AppView { following_timeline: t, ..self },
            TimelineTab::Global => AppView { global_timeline: t, ..self },
        }
    }
}

/// The client's state.
pub struct App {
    pub profiles: TextMap<Profile>,
    pub verified_nip05: PairSet,
    pub reactions: TextMap<Reactions>,
    pub mode: InputMode,
    input: String,
    input_cursor: usize,
    pub detail: bool,
    pub status: String,
    pub identity: String,
    pub read_only: bool,
    settings_open: bool,
    relays: Vec<String>,
    active_tab: TimelineTab,
    following_available: bool,
    following_pubkeys: TextSet,
    following_timeline: TimelineState,
    global_timeline: TimelineState,
    seen: TextSet,
    pending_nip05: PairSet,
    pending_profiles: TextSet,
    referenced_events: TextMap<Event>,
    requested_references: TextSet,
    pending_references: TextSet,
    profile_timestamps: TextMap<u64>,
    images: ImageCache,
}

impl View for App {
    type V = AppView;

    closed spec fn view(&self) -> AppView {
        AppView {
            profiles: self.profiles.contents(),
            verified_nip05: self.verified_nip05.contents(),
            reactions: self.reactions.contents(),
            mode: self.mode@,
            input: self.input@,
            cursor: self.input_cursor as nat,
            detail: self.detail,
            status: self.status@,
            identity: self.identity@,
            read_only: self.read_only,
            settings_open: self.settings_open,
            relays: self.relays.deep_view(),
            active_tab: self.active_tab,
            following_available: self.following_available,
            following: self.following_pubkeys.contents(),
            following_timeline: self.following_timeline@,
            global_timeline: self.global_timeline@,
            seen: self.seen.contents(),
            pending_nip05: self.pending_nip05.contents(),
            pending_profiles: self.pending_profiles.contents(),
            referenced: self.referenced_events.contents(),
            requested_references: self.requested_references.contents(),
            pending_references: self.pending_references.contents(),
            profile_timestamps: self.profile_timestamps.contents(),
            images: self.images@,
        }
    }
}

impl App {
    /// Both timelines are well formed, the image cache keeps its bounds, the
    /// editor cursor lies in the text, and each reaction tally is sorted.
    pub closed spec fn well_formed(&self) -> bool {
        &&& self.following_timeline.well_formed()
        &&& self.global_timeline.well_formed()
        &&& self.images.well_formed()
        &&& self.input_cursor <= self.input@.len()
        &&& self.following_timeline.unseen_newer() <= self.seen.contents().len()
        &&& self.global_timeline.unseen_newer() <= self.seen.contents().len()
        &&& forall|k: Seq<char>| #[trigger] self.reactions.contents().contains_key(k) ==> counts_fit(
            self.reactions.contents()[k],
            self.seen.contents().len(),
        )
    }

    /// What a well-formed client shows of itself: both timelines are newest
    /// first, and the image cache keeps its bounds and its keys distinct.
    pub proof fn lemma_well_formed(&self)
        requires
            self.well_formed(),
        ensures
            crate::timeline::newest_first(self@.global_timeline.items),
            crate::timeline::newest_first(self@.following_timeline.items),
            self@.images.in_flight.len() <= crate::cache::MAX_PENDING_IMAGES,
            self@.images.cached.len() <= crate::cache::MAX_CACHED_IMAGES,
            crate::cache::distinct_entry_keys(self@.images.cached),
            crate::cache::distinct_pending_keys(self@.images.in_flight),
    {
    }

    /// A fresh client: read-only clients start on the global timeline, the
    /// others on the following one.
    pub fn new(read_only: bool, relays: Vec<String>) -> (r: App)
        ensures
            r.well_formed(),
            r@.profiles == Map::<Seq<char>, Profile>::empty(),
            r@.reactions == Map::<Seq<char>, Reactions>::empty(),
            r@.mode is Normal,
            r@.input == Seq::<char>::empty(),
            r@.cursor == 0,
            !r@.detail,
            r@.status == "starting…"@,
            r@.identity == "loading…"@,
            r@.read_only == read_only,
            !r@.settings_open,
            r@.relays == relays.deep_view(),
            r@.active_tab == if read_only {
                TimelineTab::Global
            } else {
                TimelineTab::Following
            },
            r@.following_available == !read_only,
            r@.following == Set::<Seq<char>>::empty(),
            r@.following_timeline == (TimelineView { items: seq![], selection: 0, live: true, unseen: 0, offset: 0 }),
            r@.global_timeline == (TimelineView { items: seq![], selection: 0, live: true, unseen: 0, offset: 0 }),
            r@.seen == Set::<Seq<char>>::empty(),
            r@.verified_nip05 == Set::<(Seq<char>, Seq<char>)>::empty(),
            r@.pending_nip05 == Set::<(Seq<char>, Seq<char>)>::empty(),
            r@.pending_profiles == Set::<Seq<char>>::empty(),
            r@.referenced == Map::<Seq<char>, Event>::empty(),
            r@.requested_references == Set::<Seq<char>>::empty(),
            r@.pending_references == Set::<Seq<char>>::empty(),
            r@.profile_timestamps == Map::<Seq<char>, u64>::empty(),
            !r@.images.enabled,
            r@.images.cached == Seq::<crate::cache::EntryView>::empty(),
            r@.images.in_flight == Seq::<(Seq<char>, Seq<char>)>::empty(),
            r@.images.released == Seq::<u32>::empty(),
    {
        let r = App {
            profiles: TextMap::new(),
            verified_nip05: PairSet::new(),
            reactions: TextMap::new(),
            mode: InputMode::Normal,
            input: String::new(),
            input_cursor: 0,
            detail: false,
            status: "starting…".to_owned(),
            identity: "loading…".to_owned(),
            read_only,
            settings_open: false,
            relays,
            active_tab: if read_only {
                TimelineTab::Global
            } else {
                TimelineTab::Following
            },
            following_available: !read_only,
            following_pubkeys: TextSet::new(),
            following_timeline: TimelineState::new(),
            global_timeline: TimelineState::new(),
            seen: TextSet::new(),
            pending_nip05: PairSet::new(),
            pending_profiles: TextSet::new(),
            referenced_events: TextMap::new(),
            requested_references: TextSet::new(),
            pending_references: TextSet::new(),
            profile_timestamps: TextMap::new(),
            images: ImageCache::disabled(),
        };
        r
    }

    /// Uses `images` as the image cache.
    pub fn set_image_cache(&mut self, images: ImageCache)
        requires
            old(self).well_formed(),
            images.well_formed(),
        ensures
            final(self).well_formed(),
            final(self)@ == (AppView { images: images@, ..old(self)@ }),
    {
        self.images = images;
    }

    /// Shows `tab`.
    pub fn select_tab(&mut self, tab: TimelineTab)
        requires
            old(self).well_formed(),
        ensures
            final(self).well_formed(),
            final(self)@ == (AppView { active_tab: tab, ..old(self)@ }),
    {
        self.active_tab = tab;
    }

    /// The tab shown.
    pub fn active_tab(&self) -> (r: TimelineTab)
        ensures
            r == self@.active_tab,
    {
        self.active_tab
    }

    /// Whether a follow list is known.
    pub fn following_available(&self) -> (r: bool)
        ensures
            r == self@.following_available,
    {
        self.following_available
    }

    /// The timeline of the active tab.
    fn timeline_state(&self) -> (r: &TimelineState)
        ensures
            r@ == self@.active(),
            self.well_formed() ==> r.well_formed(),
    {
        match self.active_tab {
            TimelineTab::Following => &self.following_timeline,
            TimelineTab::Global => &self.global_timeline,
        }
    }

    /// The events of the active timeline, newest first.
    pub fn timeline(&self) -> (r: &Vec<Event>)
        ensures
            crate::timeline::views(r@) == self@.active().items,
    {
        self.timeline_state().events()
    }

    /// The selected position of the active timeline.
    pub fn selected_index(&self) -> (r: usize)
        ensures
            r == self@.active().selection,
    {
        self.timeline_state().selected()
    }

    /// The number of events in the timeline of `tab`.
    pub fn timeline_count(&self, tab: TimelineTab) -> (r: usize)
        ensures
            r == match tab {
                TimelineTab::Following => self@.following_timeline.items.len(),
                TimelineTab::Global => self@.global_timeline.items.len(),
            },
    {
        match tab {
            TimelineTab::Following => self.following_timeline.events().len(),
            TimelineTab::Global => self.global_timeline.events().len(),
        }
    }

    /// Records where the rendered viewport of the active timeline starts: at
    /// the top the timeline follows new events again; anywhere else it pauses.
    pub fn sync_timeline_viewport(&mut self, offset: usize)
        requires
            old(self).well_formed(),
        ensures
            final(self).well_formed(),
            final(self)@ == old(self)@.with_active(
                if offset == 0 {
                    TimelineView { offset: 0, live: true, unseen: 0, ..old(self)@.active() }
                } else {
                    TimelineView { offset: offset as int, live: false, ..old(self)@.active() }
                },
            ),
    {
        match self.active_tab {
            TimelineTab::Following => sync_viewport(&mut self.following_timeline, offset),
            TimelineTab::Global => sync_viewport(&mut self.global_timeline, offset),
        }
    }

    /// The first shown position of the active timeline.
    pub fn timeline_offset(&self) -> (r: usize)
        ensures
            r == self@.active().offset,
    {
        self.timeline_state().offset()
    }

    /// Whether the active timeline follows new events.
    pub fn is_live(&self) -> (r: bool)
        ensures
            r == self@.active().live,
    {
        self.timeline_state().is_live()
    }

    /// Newer events that arrived while the active timeline was paused.
    pub fn unseen_count(&self) -> (r: usize)
        ensures
            r == self@.active().unseen,
    {
        self.timeline_state().unseen()
    }

    /// Whether the settings window is open.
    pub fn settings_open(&self) -> (r: bool)
        ensures
            r == self@.settings_open,
    {
        self.settings_open
    }

    /// The configured relays.
    pub fn relays(&self) -> (r: &Vec<String>)
        ensures
            r.deep_view() == self@.relays,
    {
        &self.relays
    }

    /// The editor's text.
    pub fn input(&self) -> (r: &String)
        ensures
            r@ == self@.input,
    {
        &self.input
    }
}

/// Sets the viewport start of one timeline and follows or pauses it.
fn sync_viewport(timeline: &mut TimelineState, offset: usize)
    requires
        old(timeline).well_formed(),
    ensures
        final(timeline).well_formed(),
        final(timeline)@ == if offset == 0 {
            TimelineView { offset: 0, live: true, unseen: 0, ..old(timeline)@ }
        } else {
            TimelineView { offset: offset as int, live: false, ..old(timeline)@ }
        },
{
    timeline.set_offset(offset);
    if offset == 0 {
        resume_timeline(timeline);
    } else {
        timeline.pause();
    }
}



/// An event as the timeline shows it: a repost is shown as its original when
/// that is known, with the reposter's key.
#[derive(Clone, Debug)]
pub struct DisplayEvent {
    pub event: Event,
    pub reposted_by: Option<String>,
}

/// The parent of a reply: its id, the event when known, and whether it is
/// still expected (not yet requested, or requested and not answered).
#[derive(Clone, Debug)]
pub struct ReplyDisplay {
    pub event_id: String,
    pub event: Option<Event>,
    pub loading: bool,
}

/// A note quoted in content, shown like a reply's parent.
#[derive(Clone, Debug)]
pub struct QuoteDisplay {
    pub event_id: String,
    pub event: Option<Event>,
    pub loading: bool,
}

/// An event's content ready for display.
#[derive(Clone, Debug)]
pub struct RenderedContent {
    pub parts: Vec<RenderedPart>,
    pub quote: Option<QuoteDisplay>,
    pub image_urls: Vec<String>,
}

/// The first event of the global timeline with id `id`.
pub open spec fn global_event(app: AppView, id: Seq<char>) -> Option<EventView> {
    match position_of(app.global_timeline.items, id) {
        Some(p) => Some(app.global_timeline.items[p]),
        None => None,
    }
}

/// An event known by id: a fetched reference first, else the global timeline.
pub open spec fn known_event(app: AppView, id: Seq<char>) -> Option<EventView> {
    if app.referenced.contains_key(id) {
        Some(app.referenced[id]@)
    } else {
        global_event(app, id)
    }
}

/// Whether the event `id` is still expected.
pub open spec fn loading_spec(app: AppView, id: Seq<char>) -> bool {
    app.pending_references.contains(id) || !app.requested_references.contains(id)
}

/// A referenced note is shown as loading while its fetch is pending, and
/// before it is asked for; it is shown as unavailable exactly when it was
/// asked for and the answer has come without it.
pub proof fn law_reference_loads_until_answered(app: AppView, id: Seq<char>)
    ensures
        app.pending_references.contains(id) ==> loading_spec(app, id),
        !loading_spec(app, id) <==> (app.requested_references.contains(id) && !app.pending_references.contains(id)),
{
}

/// What the timeline shows for `e`, and who reposted it.
pub open spec fn shown_event(app: AppView, e: EventView) -> (EventView, Option<Seq<char>>) {
    if is_repost_spec(e) {
        match embedded_repost_spec(e) {
            Some(original) => (original, Some(e.pubkey)),
            None => match repost_target_spec(e) {
                Some(target) => match known_event(app, target) {
                    Some(original) => (original, Some(e.pubkey)),
                    None => (e, Some(e.pubkey)),
                },
                None => (e, Some(e.pubkey)),
            },
        }
    } else {
        (e, None)
    }
}

/// The name a profile gives: its display name, else its name.
pub open spec fn profile_name(app: AppView, key: Seq<char>) -> Option<Seq<char>> {
    if app.profiles.contains_key(key) {
        let p = app.profiles[key];
        match p.display_name {
            Some(d) => Some(d@),
            None => match p.name {
                Some(n) => Some(n@),
                None => None,
            },
        }
    } else {
        None
    }
}

/// The name shown for the key `key`: the profile's name, else the first 16
/// characters of its `npub` (or of the key where that encoding fails).
pub open spec fn author_name_spec(app: AppView, key: Seq<char>) -> Seq<char> {
    match profile_name(app, key) {
        Some(n) => n,
        None => prefix(
            match npub_of(key) {
                Some(n) => n,
                None => key,
            },
            16,
        ),
    }
}

/// The NIP-05 label of `key`: a check mark when verified, a question mark
/// otherwise, then the address as displayed.
pub open spec fn nip05_label_spec(app: AppView, key: Seq<char>) -> Option<Seq<char>> {
    if app.profiles.contains_key(key) {
        match app.profiles[key].nip05 {
            Some(address) => Some(
                (if app.verified_nip05.contains((key, address@)) {
                    seq!['✓']
                } else {
                    seq!['?']
                }) + seq![' '] + nip05_display_spec(address@),
            ),
            None => None,
        }
    } else {
        None
    }
}

/// Rendering so far: the parts, the quoted event's id, and where the text
/// not yet rendered starts.
pub struct Rendering {
    pub parts: Seq<RenderedPartView>,
    pub quote: Option<Seq<char>>,
    pub cursor: int,
}

/// One entity rendered: the text before it as plain text; a key as an
/// `@name` mention; the first event reference as the quote; later event
/// references as their plain text.
pub open spec fn render_step(app: AppView, c: Seq<char>, st: Rendering, e: ContentEntityView) -> Rendering {
    let parts = push_text(st.parts, c.subrange(st.cursor, e.start), false);
    match e.kind {
        EntityKindView::Pubkey(k) => Rendering {
            parts: push_text(parts, seq!['@'] + author_name_spec(app, k), true),
            quote: st.quote,
            cursor: e.end,
        },
        EntityKindView::Event(id) => if st.quote is None {
            Rendering { parts, quote: Some(id), cursor: e.end }
        } else {
            Rendering { parts: push_text(parts, c.subrange(e.start, e.end), false), quote: st.quote, cursor: e.end }
        },
    }
}

/// All entities rendered in order.
pub open spec fn render_entities(app: AppView, c: Seq<char>, es: Seq<ContentEntityView>) -> Rendering
    decreases es.len(),
{
    if es.len() == 0 {
        Rendering { parts: seq![], quote: None, cursor: 0 }
    } else {
        render_step(app, c, render_entities(app, c, es.drop_last()), es.last())
    }
}

/// The parts of an event's rendered content: mentions expanded, entities
/// rendered, the rest as plain text, whitespace trimmed at both ends, then
/// the declared custom emoji split out.
pub open spec fn rendered_parts_spec(app: AppView, e: EventView) -> Seq<RenderedPartView> {
    let c = expansion_from(e.content, 0, e.tags);
    let st = render_entities(app, c, entities_from(c, 0));
    let parts = push_text(st.parts, c.subrange(st.cursor, c.len() as int), false);
    emojified(trim_back(trim_front(parts)), emoji_table(e.tags))
}

proof fn lemma_render_entities_plain(app: AppView, c: Seq<char>, es: Seq<ContentEntityView>)
    ensures
        crate::emoji::plain_parts(render_entities(app, c, es).parts),
        crate::emoji::runs_joined(render_entities(app, c, es).parts),
    decreases es.len(),
{
    if es.len() > 0 {
        lemma_render_entities_plain(app, c, es.drop_last());
        let st = render_entities(app, c, es.drop_last());
        let e = es.last();
        let parts = push_text(st.parts, c.subrange(st.cursor, e.start), false);
        crate::emoji::lemma_push_text_parts(st.parts, c.subrange(st.cursor, e.start), false);
        crate::emoji::lemma_push_text_joined(st.parts, c.subrange(st.cursor, e.start), false);
        match e.kind {
            EntityKindView::Pubkey(k) => {
                crate::emoji::lemma_push_text_parts(parts, seq!['@'] + author_name_spec(app, k), true);
                crate::emoji::lemma_push_text_joined(parts, seq!['@'] + author_name_spec(app, k), true);
            },
            EntityKindView::Event(id) => {
                crate::emoji::lemma_push_text_parts(parts, c.subrange(e.start, e.end), false);
                crate::emoji::lemma_push_text_joined(parts, c.subrange(e.start, e.end), false);
            },
        }
    }
}

/// Rendered content has no empty part; it neither starts nor ends with
/// whitespace; each emoji part shows its shortcode between colons and is no
/// mention; and no two neighbouring parts are both plain text of the same
/// kind, so text runs are never split needlessly.
pub proof fn law_rendered_parts_are_shown(app: AppView, e: EventView)
    ensures
        crate::emoji::shown_parts(rendered_parts_spec(app, e)),
        crate::emoji::solid_front(rendered_parts_spec(app, e)),
        crate::emoji::solid_back(rendered_parts_spec(app, e)),
        crate::emoji::runs_joined(rendered_parts_spec(app, e)),
{
    let c = expansion_from(e.content, 0, e.tags);
    let st = render_entities(app, c, entities_from(c, 0));
    lemma_render_entities_plain(app, c, entities_from(c, 0));
    let parts = push_text(st.parts, c.subrange(st.cursor, c.len() as int), false);
    crate::emoji::lemma_push_text_parts(st.parts, c.subrange(st.cursor, c.len() as int), false);
    crate::emoji::lemma_push_text_joined(st.parts, c.subrange(st.cursor, c.len() as int), false);
    let front = crate::emoji::trim_front(parts);
    let both = crate::emoji::trim_back(front);
    crate::emoji::lemma_trim_front_plain(parts);
    crate::emoji::lemma_trim_front_joined(parts);
    crate::emoji::lemma_trim_back_plain(front);
    crate::emoji::lemma_trim_back_joined(front);
    crate::emoji::lemma_trim_front_solid(parts);
    crate::emoji::lemma_trim_back_solid(front);
    crate::emoji::lemma_emojified_shown(both, emoji_table(e.tags));
    crate::emoji::lemma_emojified_joined(both, emoji_table(e.tags));
    crate::emoji::lemma_emojified_solid(both, emoji_table(e.tags));
}

proof fn lemma_render_quote(app: AppView, c: Seq<char>, es: Seq<ContentEntityView>)
    ensures
        match render_entities(app, c, es).quote {
            Some(id) => exists|k: int| 0 <= k < es.len() && es[k].kind == EntityKindView::Event(id)
                && forall|j: int| 0 <= j < k ==> (#[trigger] es[j]).kind is Pubkey,
            None => forall|k: int| 0 <= k < es.len() ==> (#[trigger] es[k]).kind is Pubkey,
        },
    decreases es.len(),
{
    if es.len() > 0 {
        let front = es.drop_last();
        lemma_render_quote(app, c, front);
        match render_entities(app, c, front).quote {
            Some(id) => {
                let k = choose|k: int| 0 <= k < front.len() && front[k].kind == EntityKindView::Event(id)
                    && forall|j: int| 0 <= j < k ==> (#[trigger] front[j]).kind is Pubkey;
                assert(es[k] == front[k]);
                assert forall|j: int| 0 <= j < k implies (#[trigger] es[j]).kind is Pubkey by {
                    assert(es[j] == front[j]);
                }
            },
            None => {
                assert forall|j: int| 0 <= j < es.len() - 1 implies (#[trigger] es[j]).kind is Pubkey by {
                    assert(es[j] == front[j]);
                }
                let last = es.len() - 1;
                assert(es[last] == es.last());
            },
        }
    }
}

/// The note an event's content quotes is the first note or event it
/// references (after NIP-08 mentions are expanded), and it quotes none
/// exactly when the content references only profiles.
pub proof fn law_first_note_reference_is_quoted(app: AppView, e: EventView)
    ensures
        match quoted_id_spec(app, e) {
            Some(id) => exists|k: int| 0 <= k < entities_from(expansion_from(e.content, 0, e.tags), 0).len()
                && entities_from(expansion_from(e.content, 0, e.tags), 0)[k].kind == EntityKindView::Event(id)
                && forall|j: int| 0 <= j < k ==> (#[trigger] entities_from(expansion_from(e.content, 0, e.tags), 0)[j]).kind is Pubkey,
            None => forall|k: int| 0 <= k < entities_from(expansion_from(e.content, 0, e.tags), 0).len()
                ==> (#[trigger] entities_from(expansion_from(e.content, 0, e.tags), 0)[k]).kind is Pubkey,
        },
{
    let c = expansion_from(e.content, 0, e.tags);
    lemma_render_quote(app, c, entities_from(c, 0));
}

/// The id of the note quoted in an event's content.
pub open spec fn quoted_id_spec(app: AppView, e: EventView) -> Option<Seq<char>> {
    let c = expansion_from(e.content, 0, e.tags);
    render_entities(app, c, entities_from(c, 0)).quote
}

/// The part showing a reaction summary, split around its custom emoji.
pub open spec fn reaction_parts_spec(summary: Seq<char>, table: Seq<crate::emoji::CustomEmojiView>) -> Seq<RenderedPartView> {
    emojified(seq![RenderedPartView { text: summary, mention: false, emoji: None }], table)
}

impl App {
    /// The event with id `id` known to the client: a fetched reference, else
    /// the first such event of the global timeline.
    fn lookup_event(&self, target: &String) -> (r: Option<Event>)
        ensures
            opt_event(r) == known_event(self@, target@),
    {
        if self.referenced_events.contains_key(target) {
            let copy = match self.referenced_events.get(target) {
                Some(e) => e.duplicate(),
                None => {
                    return None;
                },
            };
            return Some(copy);
        }
        let events = self.global_timeline.events();
        proof {
            crate::timeline::lemma_position_of(crate::timeline::views(events@), target@);
        }
        let found = find_event(events, target);
        match found {
            Some(p) => {
                assert(crate::timeline::views(events@)[p as int] == events@[p as int]@);
                Some(events[p].duplicate())
            },
            None => None,
        }
    }

    /// What the timeline shows for `event`.
    pub fn display_event(&self, event: &Event) -> (r: DisplayEvent)
        ensures
            r.event@ == shown_event(self@, event@).0,
            opt_chars(r.reposted_by) == shown_event(self@, event@).1,
    {
        if is_repost(event) {
            let original = match embedded_repost(event) {
                Some(o) => Some(o),
                None => match repost_target_id(event) {
                    Some(target) => self.lookup_event(&target),
                    None => None,
                },
            };
            match original {
                Some(o) => DisplayEvent { event: o, reposted_by: Some(event.pubkey.clone()) },
                None => DisplayEvent { event: event.duplicate(), reposted_by: Some(event.pubkey.clone()) },
            }
        } else {
            DisplayEvent { event: event.duplicate(), reposted_by: None }
        }
    }

    /// The selected event of the active timeline.
    pub fn selected_event(&self) -> (r: Option<&Event>)
        ensures
            match r {
                Some(e) => 0 <= self@.active().selection < self@.active().items.len() && e@
                    == self@.active().items[self@.active().selection],
                None => !(0 <= self@.active().selection < self@.active().items.len()),
            },
    {
        let events = self.timeline();
        let selected = self.selected_index();
        if selected < events.len() {
            Some(&events[selected])
        } else {
            None
        }
    }

    /// The event that actions on the selection apply to: the shown event,
    /// unless the selection is a repost whose original is unknown.
    pub fn selected_content_event(&self) -> (r: Option<Event>)
        ensures
            match selected_content_spec(self@) {
                Some(e) => r matches Some(x) && x@ == e,
                None => r is None,
            },
    {
        let selected = match self.selected_event() {
            Some(e) => e,
            None => {
                return None;
            },
        };
        let display = self.display_event(selected);
        if !is_repost(selected) || display.event.id != selected.id {
            Some(display.event)
        } else {
            None
        }
    }

    /// The parent of a reply, when `event` is one.
    pub fn reply_display(&self, event: &Event) -> (r: Option<ReplyDisplay>)
        ensures
            match reply_target_spec(event@) {
                Some(id) => r is Some && r->0.event_id@ == id && opt_event(r->0.event) == known_event(self@, id)
                    && r->0.loading == loading_spec(self@, id),
                None => r is None,
            },
    {
        let event_id = match reply_target_id(event) {
            Some(id) => id,
            None => {
                return None;
            },
        };
        let known = self.lookup_event(&event_id);
        let loading = self.pending_references.contains(&event_id) || !self.requested_references.contains(&event_id);
        Some(ReplyDisplay { event_id, event: known, loading })
    }

    /// The name shown for the key with hex form `pubkey`.
    pub fn author_name(&self, pubkey: &String) -> (r: String)
        ensures
            r@ == author_name_spec(self@, pubkey@),
    {
        let named: Option<String> = match self.profiles.get(pubkey) {
            Some(p) => match &p.display_name {
                Some(d) => Some(d.clone()),
                None => match &p.name {
                    Some(n) => Some(n.clone()),
                    None => None,
                },
            },
            None => None,
        };
        match named {
            Some(n) => n,
            None => {
                let full = match public_key_npub(pubkey.as_str()) {
                    Some(n) => n,
                    None => pubkey.clone(),
                };
                let chars = chars_of(full.as_str());
                let n = if chars.len() <= 16 {
                    chars.len()
                } else {
                    16
                };
                let mut out: Vec<char> = Vec::new();
                push_range(&mut out, &chars, 0, n);
                assert(chars@.subrange(0, n as int) =~= prefix(chars@, 16));
                string_of(&out)
            },
        }
    }

    /// The NIP-05 label for the key with hex form `pubkey`.
    pub fn nip05_label(&self, pubkey: &String) -> (r: Option<String>)
        ensures
            opt_chars(r) == nip05_label_spec(self@, pubkey@),
    {
        let profile = match self.profiles.get(pubkey) {
            Some(p) => p,
            None => {
                return None;
            },
        };
        let address = match &profile.nip05 {
            Some(a) => a.clone(),
            None => {
                return None;
            },
        };
        let mut out: Vec<char> = Vec::new();
        if self.verified_nip05.contains(pubkey, &address) {
            out.push('✓');
        } else {
            out.push('?');
        }
        out.push(' ');
        let shown = chars_of(display_nip05_address(address.as_str()).as_str());
        let ghost head = out@;
        crate::text::push_all(&mut out, &shown);
        assert(out@ =~= head + nip05_display_spec(address@));
        Some(string_of(&out))
    }

    /// The reaction summary of `event`, with its custom emoji split out.
    pub fn rendered_reactions(&self, event: &Event) -> (r: Vec<RenderedPart>)
        requires
            self.well_formed(),
        ensures
            self@.reactions.contains_key(event@.id) ==> part_views(r@) == reaction_parts_spec(
                crate::reactions::join_spaced(
                    crate::reactions::summary_items(
                        self@.reactions[event@.id].like_count(),
                        self@.reactions[event@.id].dislike_count(),
                        self@.reactions[event@.id].tally(),
                    ),
                ),
                self@.reactions[event@.id].emojis(),
            ),
            !self@.reactions.contains_key(event@.id) ==> r@.len() == 0,
    {
        let reactions = match self.reactions.get(&event.id) {
            Some(r) => r,
            None => {
                return Vec::new();
            },
        };
        let summary = reactions.summary();
        let mut parts: Vec<RenderedPart> = Vec::new();
        parts.push(RenderedPart { text: summary, mention: false, emoji: None });
        let ghost one = part_views(parts@);
        assert(one =~= seq![RenderedPartView { text: parts@[0].text@, mention: false, emoji: None }]);
        let table = reactions.custom_emojis();
        emojify_parts(parts, table)
    }

    /// Renders one entity of `content` after the text from `cursor`.
    fn render_entity(
        &self,
        content: &Vec<char>,
        parts: &mut Vec<RenderedPart>,
        quote: &mut Option<QuoteDisplay>,
        cursor: usize,
        entity: &crate::entities::ContentEntity,
    )
        requires
            cursor <= entity.start < entity.end <= content.len(),
        ensures
            ({
                let st = Rendering { parts: part_views(old(parts)@), quote: quote_id(*old(quote)), cursor: cursor as int };
                let next = render_step(self@, content@, st, entity@);
                &&& part_views(final(parts)@) == next.parts
                &&& quote_id(*final(quote)) == next.quote
                &&& (quote_fits(self@, *old(quote)) ==> quote_fits(self@, *final(quote)))
            }),
    {
        let mut before: Vec<char> = Vec::new();
        push_range(&mut before, content, cursor, entity.start);
        push_content_part(parts, &before, false);
        match &entity.kind {
            EntityKind::Pubkey(key) => {
                let name = self.author_name(key);
                let mut mention: Vec<char> = vec!['@'];
                crate::text::push_all(&mut mention, &chars_of(name.as_str()));
                assert(mention@ =~= seq!['@'] + author_name_spec(self@, key@));
                push_content_part(parts, &mention, true);
            },
            EntityKind::Event(id) => {
                if quote.is_none() {
                    let known = self.lookup_event(id);
                    let loading = self.pending_references.contains(id) || !self.requested_references.contains(id);
                    *quote = Some(QuoteDisplay { event_id: id.clone(), event: known, loading });
                } else {
                    let mut text: Vec<char> = Vec::new();
                    push_range(&mut text, content, entity.start, entity.end);
                    push_content_part(parts, &text, false);
                }
            },
        }
    }

    /// The content of `event` rendered for display, with the quoted note and
    /// the post's image links.
    #[verifier::rlimit(40)]
    pub fn rendered_content(&self, event: &Event) -> (r: RenderedContent)
        ensures
            part_views(r.parts@) == rendered_parts_spec(self@, event@),
            quote_id(r.quote) == quoted_id_spec(self@, event@),
            quote_fits(self@, r.quote),
            r.image_urls.deep_view() == post_images_spec(event@.content, event@.tags),
    {
        let content_text = expand_mentions(event.content.as_str(), &event.tags);
        let content = chars_of(content_text.as_str());
        let image_urls = post_image_urls(event.content.as_str(), &event.tags);
        let entities = content_entities(&content);
        let ghost c = content@;
        let ghost es = entities_from(c, 0);
        proof {
            lemma_entities_ordered(c, 0);
        }
        let mut parts: Vec<RenderedPart> = Vec::new();
        let mut cursor: usize = 0;
        let mut quote: Option<QuoteDisplay> = None;
        let mut k: usize = 0;
        assert(es.take(0) =~= Seq::<ContentEntityView>::empty());
        while k < entities.len()
            invariant
                k <= entities.len(),
                c == content@,
                es == entity_views(entities@),
                es == entities_from(c, 0),
                forall|j: int| 0 <= j < es.len() ==> {
                    let e = #[trigger] es[j];
                    0 <= e.start < e.end <= c.len()
                },
                forall|j: int| 0 <= j < es.len() - 1 ==> (#[trigger] es[j]).end <= es[j + 1].start,
                part_views(parts@) == render_entities(self@, c, es.take(k as int)).parts,
                cursor == render_entities(self@, c, es.take(k as int)).cursor,
                k > 0 ==> cursor == es[k - 1].end,
                k == 0 ==> cursor == 0,
                cursor <= c.len(),
                quote_id(quote) == render_entities(self@, c, es.take(k as int)).quote,
                quote_fits(self@, quote),
            decreases entities.len() - k,
        {
            let entity = &entities[k];
            assert(es[k as int] == entity@);
            assert(es.take(k + 1).drop_last() =~= es.take(k as int));
            assert(es.take(k + 1).last() == es[k as int]);
            if k > 0 {
                assert(es[k - 1].end <= es[k as int].start);
            }
            self.render_entity(&content, &mut parts, &mut quote, cursor, entity);
            cursor = entity.end;
            k = k + 1;
        }
        assert(es.take(k as int) =~= es);
        let mut rest: Vec<char> = Vec::new();
        push_range(&mut rest, &content, cursor, content.len());
        push_content_part(&mut parts, &rest, false);
        trim_content_parts(&mut parts);
        let table = custom_emoji_tags(&event.tags);
        let parts = emojify_parts(parts, &table);
        RenderedContent { parts, quote, image_urls }
    }
}

/// An optional event's value.
pub open spec fn opt_event(e: Option<Event>) -> Option<EventView> {
    match e {
        Some(x) => Some(x@),
        None => None,
    }
}

/// The event that actions on the selection apply to.
pub open spec fn selected_content_spec(app: AppView) -> Option<EventView> {
    let t = app.active();
    if 0 <= t.selection < t.items.len() {
        let selected = t.items[t.selection];
        let shown = shown_event(app, selected).0;
        if !is_repost_spec(selected) || shown.id != selected.id {
            Some(shown)
        } else {
            None
        }
    } else {
        None
    }
}

/// The id of a quote.
pub open spec fn quote_id(q: Option<QuoteDisplay>) -> Option<Seq<char>> {
    match q {
        Some(d) => Some(d.event_id@),
        None => None,
    }
}

/// A quote carries the known event and loading state of its id.
pub open spec fn quote_fits(app: AppView, q: Option<QuoteDisplay>) -> bool {
    match q {
        Some(d) => opt_event(d.event) == known_event(app, d.event_id@) && d.loading == loading_spec(app, d.event_id@),
        None => true,
    }
}

/// A key, as far as the client reacts to keys.
#[derive(Clone, Copy, Debug, PartialEq, Eq, Structural)]
pub enum KeyCode {
    Char(char),
    Tab,
    BackTab,
    Enter,
    Esc,
    Backspace,
    Delete,
    Left,
    Right,
    Up,
    Down,
    Home,
    End,
    Other,
}

/// A key event: the key, whether Control or Alt was held, and whether the key
/// was released rather than pressed.
#[derive(Clone, Copy, Debug, PartialEq, Eq, Structural)]
pub struct Key {
    pub code: KeyCode,
    pub control: bool,
    pub alt: bool,
    pub release: bool,
}

impl Key {
    /// A press of `code` with no modifier.
    pub fn press(code: KeyCode) -> (r: Key)
        ensures
            r == (Key { code, control: false, alt: false, release: false }),
    {
        Key { code, control: false, alt: false, release: false }
    }
}

/// An optional command's value.
pub open spec fn opt_command(c: Option<Command>) -> Option<CommandView> {
    match c {
        Some(x) => Some(x@),
        None => None,
    }
}

/// `s` with `c` inserted at position `k`.
pub open spec fn insert_at(s: Seq<char>, k: int, c: char) -> Seq<char> {
    s.take(k).push(c) + s.skip(k)
}

/// `s` without the positions from `lo` up to `hi`.
pub open spec fn remove_range(s: Seq<char>, lo: int, hi: int) -> Seq<char> {
    s.take(lo) + s.skip(hi)
}

/// The editor text and cursor after an editing key. Text keys insert at the
/// cursor (Enter only when composing a note); Backspace and Delete remove the
/// grapheme before or after the cursor; arrows, Home and End move it.
pub open spec fn edit_spec(s: Seq<char>, k: int, key: Key, reacting: bool) -> (Seq<char>, int) {
    match key.code {
        KeyCode::Char(c) => if !key.control && !key.alt {
            (insert_at(s, k, c), k + 1)
        } else {
            (s, k)
        },
        KeyCode::Enter => if !reacting {
            (insert_at(s, k, '\n'), k + 1)
        } else {
            (s, k)
        },
        KeyCode::Backspace => (remove_range(s, crate::editor::previous_boundary(s, k), k), crate::editor::previous_boundary(s, k)),
        KeyCode::Delete => (remove_range(s, k, crate::editor::next_boundary(s, k)), k),
        KeyCode::Left => (s, crate::editor::previous_boundary(s, k)),
        KeyCode::Right => (s, crate::editor::next_boundary(s, k)),
        KeyCode::Home => (s, crate::editor::line_start_of(s, k)),
        KeyCode::End => (s, crate::editor::line_end_of(s, k)),
        KeyCode::Up => (s, crate::editor::adjacent_line_position(s, k, false)),
        KeyCode::Down => (s, crate::editor::adjacent_line_position(s, k, true)),
        KeyCode::Tab => (insert_at(s, k, '\t'), k + 1),
        _ => (s, k),
    }
}

/// A key while the editor is open: Esc cancels; Ctrl-S sends the trimmed text
/// as a reaction to `reaction_to` or as a note replying to `reply_to`, unless
/// it is empty; any other key edits.
pub open spec fn input_key_spec(
    app: AppView,
    key: Key,
    reply_to: Option<EventView>,
    reaction_to: Option<EventView>,
) -> (AppView, Option<CommandView>) {
    if key.code == KeyCode::Esc {
        (AppView { mode: InputModeView::Normal, input: seq![], cursor: 0, status: "cancelled"@, ..app }, None)
    } else if key.code == KeyCode::Char('s') && key.control {
        let content = crate::text::trim_end_spec(crate::text::trim_start_spec(app.input));
        if content.len() == 0 {
            (AppView { status: "nothing to send"@, ..app }, None)
        } else {
            (
                AppView { mode: InputModeView::Normal, input: seq![], cursor: 0, status: "sending…"@, ..app },
                Some(
                    match reaction_to {
                        Some(e) => CommandView::React { event: e, reaction: content },
                        None => CommandView::Publish { content, reply_to },
                    },
                ),
            )
        }
    } else {
        let (text, cursor) = edit_spec(app.input, app.cursor as int, key, reaction_to is Some);
        (AppView { input: text, cursor: cursor as nat, ..app }, None)
    }
}

/// Starting to write a note (a reply to `reply_to` when given); read-only
/// clients only get a notice.
pub open spec fn compose_spec(app: AppView, reply_to: Option<EventView>) -> AppView {
    if app.read_only {
        AppView { status: "read-only: set NOSTR_SECRET_KEY to publish"@, ..app }
    } else {
        AppView { mode: InputModeView::Compose { reply_to }, input: seq![], cursor: 0, ..app }
    }
}

/// The selection one event further down, stopping at the last one.
pub open spec fn move_down(t: TimelineView) -> TimelineView {
    let last = crate::timeline::last_position(t.items.len() as int);
    TimelineView { selection: if t.selection + 1 < last { t.selection + 1 } else { last }, ..t }
}

/// The selection one event further up, stopping at the first one.
pub open spec fn move_up(t: TimelineView) -> TimelineView {
    TimelineView { selection: crate::timeline::saturating_sub(t.selection, 1), ..t }
}

/// The newest event selected, following new events again.
pub open spec fn go_top(t: TimelineView) -> TimelineView {
    TimelineView { selection: 0, live: true, unseen: 0, offset: 0, ..t }
}

/// The oldest event selected; a non-empty timeline is paused.
pub open spec fn go_bottom(t: TimelineView) -> TimelineView {
    TimelineView {
        selection: crate::timeline::last_position(t.items.len() as int),
        live: if t.items.len() > 0 {
            false
        } else {
            t.live
        },
        ..t
    }
}

/// A key in the timeline view.
pub open spec fn normal_key_spec(app: AppView, code: KeyCode) -> (AppView, Option<CommandView>) {
    let react_notice = "read-only: set NOSTR_SECRET_KEY to react"@;
    if code == KeyCode::Char('q') {
        (app, Some(CommandView::Quit))
    } else if code == KeyCode::Tab || code == KeyCode::Char(']') || code == KeyCode::BackTab || code == KeyCode::Char('[') {
        (AppView { active_tab: other_tab(app.active_tab), ..app }, None)
    } else if code == KeyCode::Char('1') {
        (AppView { active_tab: TimelineTab::Following, ..app }, None)
    } else if code == KeyCode::Char('2') {
        (AppView { active_tab: TimelineTab::Global, ..app }, None)
    } else if code == KeyCode::Char('m') {
        (AppView { settings_open: true, ..app }, None)
    } else if code == KeyCode::Char('j') || code == KeyCode::Down {
        (app.with_active(move_down(app.active())), None)
    } else if code == KeyCode::Char('k') || code == KeyCode::Up {
        (app.with_active(move_up(app.active())), None)
    } else if code == KeyCode::Char('g') {
        (app.with_active(go_top(app.active())), None)
    } else if code == KeyCode::Char('G') {
        (app.with_active(go_bottom(app.active())), None)
    } else if code == KeyCode::Char('l') || code == KeyCode::Enter {
        (AppView { detail: true, ..app }, None)
    } else if code == KeyCode::Char('h') || code == KeyCode::Esc {
        (AppView { detail: false, ..app }, None)
    } else if code == KeyCode::Char('i') || code == KeyCode::Char('o') {
        (compose_spec(app, None), None)
    } else if code == KeyCode::Char('r') {
        match selected_content_spec(app) {
            Some(e) => (compose_spec(app, Some(e)), None),
            None => (app, None),
        }
    } else if code == KeyCode::Char('f') {
        if app.read_only {
            (AppView { status: react_notice, ..app }, None)
        } else {
            match selected_content_spec(app) {
                Some(e) => (app, Some(CommandView::React { event: e, reaction: "+"@ })),
                None => (app, None),
            }
        }
    } else if code == KeyCode::Char('e') {
        if app.read_only {
            (AppView { status: react_notice, ..app }, None)
        } else {
            match selected_content_spec(app) {
                Some(e) => (AppView { mode: InputModeView::Reaction { event: e }, input: seq![], cursor: 0, ..app }, None),
                None => (app, None),
            }
        }
    } else if code == KeyCode::Char('R') {
        if app.read_only {
            (AppView { status: "read-only: set NOSTR_SECRET_KEY to repost"@, ..app }, None)
        } else {
            match selected_content_spec(app) {
                Some(e) => (app, Some(CommandView::Repost(e))),
                None => (app, None),
            }
        }
    } else {
        (app, None)
    }
}

/// Any key: releases are ignored; while the settings window is open only
/// `m`/Esc (close) and `q` (quit) count; otherwise the editor or the timeline
/// view handles it.
pub open spec fn key_spec(app: AppView, key: Key) -> (AppView, Option<CommandView>) {
    if key.release {
        (app, None)
    } else if app.settings_open {
        if key.code == KeyCode::Char('m') || key.code == KeyCode::Esc {
            (AppView { settings_open: false, ..app }, None)
        } else if key.code == KeyCode::Char('q') {
            (app, Some(CommandView::Quit))
        } else {
            (app, None)
        }
    } else {
        match app.mode {
            InputModeView::Normal => normal_key_spec(app, key.code),
            InputModeView::Compose { reply_to } => input_key_spec(app, key, reply_to, None),
            InputModeView::Reaction { event } => input_key_spec(app, key, None, Some(event)),
        }
    }
}

/// Keys in the timeline view never lengthen the editor text.
proof fn lemma_normal_key_keeps_input(app: AppView, code: KeyCode)
    ensures
        normal_key_spec(app, code).0.input.len() <= app.input.len(),
{
}

/// Moves the selection one event down, stopping at the last one.
fn move_selection_down(t: &mut TimelineState)
    requires
        old(t).well_formed(),
    ensures
        final(t).well_formed(),
        final(t)@ == move_down(old(t)@),
{
    let len = t.events().len();
    let last: usize = if len == 0 {
        0
    } else {
        len - 1
    };
    let next = t.selected() + 1;
    t.select(if next < last {
        next
    } else {
        last
    });
}

/// Moves the selection one event up, stopping at the first one.
fn move_selection_up(t: &mut TimelineState)
    requires
        old(t).well_formed(),
    ensures
        final(t).well_formed(),
        final(t)@ == move_up(old(t)@),
{
    let selected = t.selected();
    t.select(if selected > 0 {
        selected - 1
    } else {
        0
    });
}

/// Selects the newest event and follows new events again.
fn select_newest(t: &mut TimelineState)
    requires
        old(t).well_formed(),
    ensures
        final(t).well_formed(),
        final(t)@ == go_top(old(t)@),
{
    t.select(0);
    resume_timeline(t);
}

/// Selects the oldest event, pausing a non-empty timeline.
fn select_oldest(t: &mut TimelineState)
    requires
        old(t).well_formed(),
    ensures
        final(t).well_formed(),
        final(t)@ == go_bottom(old(t)@),
{
    let len = t.events().len();
    if len > 0 {
        t.pause();
    }
    t.select(if len == 0 {
        0
    } else {
        len - 1
    });
}

/// `s` with `c` inserted at position `k`.
fn insert_char(s: &Vec<char>, k: usize, c: char) -> (r: Vec<char>)
    requires
        k <= s.len(),
    ensures
        r@ == insert_at(s@, k as int, c),
        r@.len() == s@.len() + 1,
{
    let mut r: Vec<char> = Vec::new();
    push_range(&mut r, s, 0, k);
    r.push(c);
    push_range(&mut r, s, k, s.len());
    assert(r@ =~= insert_at(s@, k as int, c));
    r
}

/// `s` without the positions from `lo` up to `hi`.
fn remove_chars(s: &Vec<char>, lo: usize, hi: usize) -> (r: Vec<char>)
    requires
        lo <= hi <= s.len(),
    ensures
        r@ == remove_range(s@, lo as int, hi as int),
        r@.len() == s@.len() - (hi - lo),
{
    let mut r: Vec<char> = Vec::new();
    push_range(&mut r, s, 0, lo);
    push_range(&mut r, s, hi, s.len());
    assert(r@ =~= remove_range(s@, lo as int, hi as int));
    r
}

/// The text and cursor after an editing key.
fn edit(s: &Vec<char>, k: usize, key: Key, reacting: bool) -> (r: (Vec<char>, usize))
    requires
        k <= s.len() < usize::MAX,
    ensures
        r.0@ == edit_spec(s@, k as int, key, reacting).0,
        r.1 == edit_spec(s@, k as int, key, reacting).1,
        r.1 <= r.0@.len(),
        r.0@.len() <= s@.len() + 1,
{
    edit_text(s, k, key, reacting)
}

/// The text and cursor after an editing key, before the bound is checked.
fn edit_text(s: &Vec<char>, k: usize, key: Key, reacting: bool) -> (r: (Vec<char>, usize))
    requires
        k <= s.len() < usize::MAX,
    ensures
        r.0@ == edit_spec(s@, k as int, key, reacting).0,
        r.1 == edit_spec(s@, k as int, key, reacting).1,
        r.1 <= r.0@.len(),
        r.0@.len() <= s@.len() + 1,
{
    match key.code {
        KeyCode::Char(c) => {
            if !key.control && !key.alt {
                (insert_char(s, k, c), k + 1)
            } else {
                (copy_chars(s), k)
            }
        },
        KeyCode::Enter => {
            if !reacting {
                (insert_char(s, k, '\n'), k + 1)
            } else {
                (copy_chars(s), k)
            }
        },
        KeyCode::Backspace => {
            let p = crate::editor::previous_grapheme_boundary(s, k);
            (remove_chars(s, p, k), p)
        },
        KeyCode::Delete => {
            let n = crate::editor::next_grapheme_boundary(s, k);
            (remove_chars(s, k, n), k)
        },
        KeyCode::Left => (copy_chars(s), crate::editor::previous_grapheme_boundary(s, k)),
        KeyCode::Right => (copy_chars(s), crate::editor::next_grapheme_boundary(s, k)),
        KeyCode::Home => (copy_chars(s), crate::editor::line_start(s, k)),
        KeyCode::End => (copy_chars(s), crate::editor::line_end(s, k)),
        KeyCode::Up => (copy_chars(s), crate::editor::move_to_adjacent_line(s, k, false)),
        KeyCode::Down => (copy_chars(s), crate::editor::move_to_adjacent_line(s, k, true)),
        KeyCode::Tab => (insert_char(s, k, '\t'), k + 1),
        _ => (copy_chars(s), k),
    }
}

impl App {
    /// The editor cursor as a byte offset into the text.
    pub fn input_cursor(&self) -> (r: usize)
        requires
            self.well_formed(),
            crate::media::utf8_len(self@.input) <= usize::MAX,
        ensures
            r == crate::media::utf8_len(self@.input.take(self@.cursor as int)),
    {
        let chars = chars_of(self.input.as_str());
        let mut total: usize = 0;
        let mut i: usize = 0;
        proof {
            crate::media::lemma_utf8_len_prefix(chars@, self.input_cursor as int);
        }
        while i < self.input_cursor
            invariant
                i <= self.input_cursor <= chars@.len(),
                chars@ == self.input@,
                total == crate::media::utf8_len(chars@.take(i as int)),
                crate::media::utf8_len(chars@.take(self.input_cursor as int)) <= usize::MAX,
            decreases self.input_cursor - i,
        {
            proof {
                lemma_utf8_prefix_mono(chars@, i + 1, self.input_cursor as int);
            }
            let u = chars[i] as u32;
            let w: usize = if u < 0x80 {
                1
            } else if u < 0x800 {
                2
            } else if u < 0x10000 {
                3
            } else {
                4
            };
            assert(chars@.take(i + 1).drop_last() =~= chars@.take(i as int));
            total = total + w;
            i = i + 1;
        }
        total
    }

    /// Replaces the editor text, with the cursor at its end.
    pub fn set_input(&mut self, text: String)
        requires
            old(self).well_formed(),
        ensures
            final(self).well_formed(),
            final(self)@ == (AppView { input: text@, cursor: text@.len(), ..old(self)@ }),
    {
        let n = chars_of(text.as_str()).len();
        self.input = text;
        self.input_cursor = n;
    }

    /// Opens the editor for a note (a reply to `reply_to` when given).
    fn begin_compose(&mut self, reply_to: Option<Event>)
        requires
            old(self).well_formed(),
        ensures
            final(self).well_formed(),
            final(self)@ == compose_spec(old(self)@, opt_event(reply_to)),
    {
        if self.read_only {
            self.status = "read-only: set NOSTR_SECRET_KEY to publish".to_owned();
            return;
        }
        self.mode = InputMode::Compose { reply_to };
        self.input = String::new();
        self.input_cursor = 0;
    }

    /// Handles a key press.
    pub fn on_key(&mut self, key: Key) -> (r: Option<Command>)
        requires
            old(self).well_formed(),
            old(self)@.input.len() < usize::MAX,
        ensures
            final(self).well_formed(),
            final(self)@ == key_spec(old(self)@, key).0,
            opt_command(r) == key_spec(old(self)@, key).1,
            final(self)@.input.len() <= old(self)@.input.len() + 1,
    {
        proof {
            lemma_normal_key_keeps_input(self@, key.code);
        }
        if key.release {
            return None;
        }
        if self.settings_open {
            if key.code == KeyCode::Char('m') || key.code == KeyCode::Esc {
                self.settings_open = false;
                return None;
            } else if key.code == KeyCode::Char('q') {
                return Some(Command::Quit);
            } else {
                return None;
            }
        }
        match self.mode.duplicate() {
            InputMode::Normal => self.on_normal_key(key),
            InputMode::Compose { reply_to } => self.on_input_key(key, reply_to, None),
            InputMode::Reaction { event } => self.on_input_key(key, None, Some(event)),
        }
    }

    /// Handles a key in the timeline view.
    fn on_normal_key(&mut self, key: Key) -> (r: Option<Command>)
        requires
            old(self).well_formed(),
        ensures
            final(self).well_formed(),
            final(self)@ == normal_key_spec(old(self)@, key.code).0,
            opt_command(r) == normal_key_spec(old(self)@, key.code).1,
    {
        let code = key.code;
        if is_action_key(code) {
            self.on_action_key(code)
        } else {
            self.on_navigation_key(code)
        }
    }

    /// Handles a key that moves around the timeline view.
    fn on_navigation_key(&mut self, code: KeyCode) -> (r: Option<Command>)
        requires
            old(self).well_formed(),
            !is_action_spec(code),
        ensures
            final(self).well_formed(),
            final(self)@ == normal_key_spec(old(self)@, code).0,
            opt_command(r) == normal_key_spec(old(self)@, code).1,
    {
        if code == KeyCode::Char('q') {
            Some(Command::Quit)
        } else if code == KeyCode::Tab || code == KeyCode::Char(']') || code == KeyCode::BackTab || code
            == KeyCode::Char('[') {
            let next = match self.active_tab {
                TimelineTab::Following => TimelineTab::Global,
                TimelineTab::Global => TimelineTab::Following,
            };
            self.select_tab(next);
            None
        } else if code == KeyCode::Char('1') {
            self.select_tab(TimelineTab::Following);
            None
        } else if code == KeyCode::Char('2') {
            self.select_tab(TimelineTab::Global);
            None
        } else if code == KeyCode::Char('m') {
            self.settings_open = true;
            None
        } else if code == KeyCode::Char('j') || code == KeyCode::Down {
            match self.active_tab {
                TimelineTab::Following => move_selection_down(&mut self.following_timeline),
                TimelineTab::Global => move_selection_down(&mut self.global_timeline),
            }
            None
        } else if code == KeyCode::Char('k') || code == KeyCode::Up {
            match self.active_tab {
                TimelineTab::Following => move_selection_up(&mut self.following_timeline),
                TimelineTab::Global => move_selection_up(&mut self.global_timeline),
            }
            None
        } else if code == KeyCode::Char('g') {
            match self.active_tab {
                TimelineTab::Following => select_newest(&mut self.following_timeline),
                TimelineTab::Global => select_newest(&mut self.global_timeline),
            }
            None
        } else if code == KeyCode::Char('G') {
            match self.active_tab {
                TimelineTab::Following => select_oldest(&mut self.following_timeline),
                TimelineTab::Global => select_oldest(&mut self.global_timeline),
            }
            None
        } else if code == KeyCode::Char('l') || code == KeyCode::Enter {
            self.detail = true;
            None
        } else if code == KeyCode::Char('h') || code == KeyCode::Esc {
            self.detail = false;
            None
        } else {
            None
        }
    }

    /// Handles a key that composes, reacts or reposts.
    fn on_action_key(&mut self, code: KeyCode) -> (r: Option<Command>)
        requires
            old(self).well_formed(),
            is_action_spec(code),
        ensures
            final(self).well_formed(),
            final(self)@ == normal_key_spec(old(self)@, code).0,
            opt_command(r) == normal_key_spec(old(self)@, code).1,
    {
        if code == KeyCode::Char('i') || code == KeyCode::Char('o') {
            self.begin_compose(None);
            None
        } else if code == KeyCode::Char('r') {
            match self.selected_content_event() {
                Some(event) => self.begin_compose(Some(event)),
                None => {},
            }
            None
        } else if code == KeyCode::Char('f') {
            if self.read_only {
                self.status = "read-only: set NOSTR_SECRET_KEY to react".to_owned();
                return None;
            }
            match self.selected_content_event() {
                Some(event) => Some(Command::React { event, reaction: "+".to_owned() }),
                None => None,
            }
        } else if code == KeyCode::Char('e') {
            if self.read_only {
                self.status = "read-only: set NOSTR_SECRET_KEY to react".to_owned();
                return None;
            }
            match self.selected_content_event() {
                Some(event) => {
                    self.mode = InputMode::Reaction { event };
                    self.input = String::new();
                    self.input_cursor = 0;
                },
                None => {},
            }
            None
        } else if code == KeyCode::Char('R') {
            if self.read_only {
                self.status = "read-only: set NOSTR_SECRET_KEY to repost".to_owned();
                None
            } else {
                match self.selected_content_event() {
                    Some(event) => Some(Command::Repost(event)),
                    None => None,
                }
            }
        } else {
            None
        }
    }

    /// Handles a key while the editor is open.
    fn on_input_key(&mut self, key: Key, reply_to: Option<Event>, reaction_to: Option<Event>) -> (r: Option<Command>)
        requires
            old(self).well_formed(),
            old(self)@.input.len() < usize::MAX,
        ensures
            final(self).well_formed(),
            final(self)@ == input_key_spec(old(self)@, key, opt_event(reply_to), opt_event(reaction_to)).0,
            opt_command(r) == input_key_spec(old(self)@, key, opt_event(reply_to), opt_event(reaction_to)).1,
            final(self)@.input.len() <= old(self)@.input.len() + 1,
    {
        if key.code == KeyCode::Esc {
            self.mode = InputMode::Normal;
            self.input = String::new();
            self.input_cursor = 0;
            self.status = "cancelled".to_owned();
            return None;
        }
        let chars = chars_of(self.input.as_str());
        if key.code == KeyCode::Char('s') && key.control {
            let content = crate::text::trim_end_chars(&crate::text::trim_start_chars(&chars));
            if content.len() == 0 {
                self.status = "nothing to send".to_owned();
                return None;
            }
            self.mode = InputMode::Normal;
            self.input = String::new();
            self.input_cursor = 0;
            self.status = "sending…".to_owned();
            let text = string_of(&content);
            return match reaction_to {
                Some(event) => Some(Command::React { event, reaction: text }),
                None => Some(Command::Publish { content: text, reply_to }),
            };
        }
        let (edited, cursor) = edit(&chars, self.input_cursor, key, reaction_to.is_some());
        self.input = string_of(&edited);
        self.input_cursor = cursor;
        None
    }
}

/// A prefix takes no more UTF-8 bytes than a longer prefix.
proof fn lemma_utf8_prefix_mono(s: Seq<char>, i: int, j: int)
    requires
        0 <= i <= j <= s.len(),
    ensures
        crate::media::utf8_len(s.take(i)) <= crate::media::utf8_len(s.take(j)),
{
    crate::media::lemma_utf8_len_prefix(s.take(j), i);
    assert(s.take(j).take(i) =~= s.take(i));
}

/// The keys that compose, react or repost.
pub open spec fn is_action_spec(code: KeyCode) -> bool {
    code == KeyCode::Char('i') || code == KeyCode::Char('o') || code == KeyCode::Char('r') || code == KeyCode::Char('f')
        || code == KeyCode::Char('e') || code == KeyCode::Char('R')
}

/// Whether `code` composes, reacts or reposts.
fn is_action_key(code: KeyCode) -> (r: bool)
    ensures
        r == is_action_spec(code),
{
    code == KeyCode::Char('i') || code == KeyCode::Char('o') || code == KeyCode::Char('r') || code == KeyCode::Char('f')
        || code == KeyCode::Char('e') || code == KeyCode::Char('R')
}

/// A tally is well formed and none of its counts exceeds `bound`.
pub open spec fn counts_fit(r: Reactions, bound: nat) -> bool {
    &&& r.well_formed()
    &&& r.like_count() <= bound
    &&& r.dislike_count() <= bound
    &&& forall|c: Seq<char>| #[trigger] crate::reactions::tally_count(r.tally(), c) <= bound
}

/// What the network side reports. Metadata arrives already read into a
/// [`Profile`] (`None` where its JSON did not parse).
#[derive(Debug)]
pub enum UiEvent {
    Event(Event, Option<Profile>),
    FollowList(Vec<String>),
    Profile { pubkey: String, profile: Option<Profile> },
    ReferencedEvent { event_id: String, event: Option<Event> },
    Identity(String),
    Status(String),
    Nip05Verified { pubkey: String, address: String, verified: bool },
    Image { key: String, url: String, image: Option<crate::picture::RasterImage> },
}

/// The image key of an avatar: `avatar:` and the key.
pub open spec fn avatar_key(pubkey: Seq<char>) -> Seq<char> {
    "avatar:"@ + pubkey
}

/// The image key of a custom emoji: `emoji:` and its url.
pub open spec fn emoji_key(url: Seq<char>) -> Seq<char> {
    "emoji:"@ + url
}

/// The image key of a post image preview: `post:` and its url.
pub open spec fn post_key(url: Seq<char>) -> Seq<char> {
    "post:"@ + url
}

/// The image key of a post image in the detail view: `detail:` and its url.
pub open spec fn detail_key(url: Seq<char>) -> Seq<char> {
    "detail:"@ + url
}

/// `prefix` followed by `text`.
fn prefixed(prefix: &str, text: &str) -> (r: String)
    ensures
        r@ == prefix@ + text@,
{
    let mut v = chars_of(prefix);
    crate::text::push_all(&mut v, &chars_of(text));
    string_of(&v)
}

/// The image key of the avatar of `pubkey`.
pub fn avatar_image_key(pubkey: &str) -> (r: String)
    ensures
        r@ == avatar_key(pubkey@),
{
    prefixed("avatar:", pubkey)
}

/// The image key of a custom emoji image.
pub fn emoji_image_key(url: &str) -> (r: String)
    ensures
        r@ == emoji_key(url@),
{
    prefixed("emoji:", url)
}

/// The image key of a post image preview.
pub fn post_image_key(url: &str) -> (r: String)
    ensures
        r@ == post_key(url@),
{
    prefixed("post:", url)
}

/// The image key of a post image shown in the detail view.
pub fn detail_image_key(url: &str) -> (r: String)
    ensures
        r@ == detail_key(url@),
{
    prefixed("detail:", url)
}

/// An optional text's characters.
pub open spec fn opt_text(o: Option<String>) -> Option<Seq<char>> {
    crate::text::opt_chars(o)
}

/// Applying profile metadata for `pubkey`: it is no longer pending; a new
/// NIP-05 address (not verified, not being verified) is sent for
/// verification; the avatar image is dropped if its source changed; the
/// profile is stored. Metadata that did not parse only clears the pending mark.
pub open spec fn apply_profile_spec(app: AppView, pubkey: Seq<char>, profile: Option<Profile>) -> (AppView, Option<CommandView>) {
    let app1 = AppView { pending_profiles: app.pending_profiles.remove(pubkey), ..app };
    match profile {
        None => (app1, None),
        Some(p) => {
            let verify = match p.nip05 {
                Some(a) => !app1.verified_nip05.contains((pubkey, a@)) && !app1.pending_nip05.contains((pubkey, a@)),
                None => false,
            };
            let pending = if verify {
                app1.pending_nip05.insert((pubkey, p.nip05->0@))
            } else {
                app1.pending_nip05
            };
            (
                AppView {
                    pending_nip05: pending,
                    images: crate::cache::source_updated_spec(app1.images, avatar_key(pubkey), opt_text(p.picture)),
                    profiles: app1.profiles.insert(pubkey, p),
                    ..app1
                },
                if verify {
                    Some(CommandView::VerifyNip05 { pubkey, address: p.nip05->0@ })
                } else {
                    None
                },
            )
        },
    }
}

/// The first used emoji whose `:shortcode:` is exactly `content`.
pub open spec fn reaction_emoji(used: Seq<crate::emoji::CustomEmojiView>, content: Seq<char>) -> Option<crate::emoji::CustomEmojiView>
    decreases used.len(),
{
    if used.len() == 0 {
        None
    } else if seq![':'] + used[0].shortcode + seq![':'] == content {
        Some(used[0])
    } else {
        reaction_emoji(used.drop_first(), content)
    }
}

/// Likes recorded for `target`.
pub open spec fn likes_of(m: Map<Seq<char>, Reactions>, target: Seq<char>) -> nat {
    if m.contains_key(target) {
        m[target].like_count()
    } else {
        0
    }
}

/// Dislikes recorded for `target`.
pub open spec fn dislikes_of(m: Map<Seq<char>, Reactions>, target: Seq<char>) -> nat {
    if m.contains_key(target) {
        m[target].dislike_count()
    } else {
        0
    }
}

/// The count of the custom reaction `k` recorded for `target`.
pub open spec fn custom_count_of(m: Map<Seq<char>, Reactions>, target: Seq<char>, k: Seq<char>) -> nat {
    if m.contains_key(target) {
        crate::reactions::tally_count(m[target].tally(), k)
    } else {
        0
    }
}

/// The custom reaction emoji recorded for `target`.
pub open spec fn emojis_of(m: Map<Seq<char>, Reactions>, target: Seq<char>) -> Seq<crate::emoji::CustomEmojiView> {
    if m.contains_key(target) {
        m[target].emojis()
    } else {
        seq![]
    }
}

/// The reactions after counting the reaction event `e` to `target`: its
/// content counts once (a like, a dislike or a custom reaction), and a custom
/// emoji whose `:shortcode:` is the whole content is recorded with its URL
/// (the first URL for a shortcode stays).
pub open spec fn reaction_counted(
    before: Map<Seq<char>, Reactions>,
    after: Map<Seq<char>, Reactions>,
    target: Seq<char>,
    e: EventView,
) -> bool {
    let class = crate::reactions::classify(e.content);
    let emoji = reaction_emoji(crate::emoji::used_emoji_spec(e.content, e.tags), e.content);
    let old_emojis = emojis_of(before, target);
    &&& after.dom() == before.dom().insert(target)
    &&& forall|k: Seq<char>| k != target && #[trigger] before.contains_key(k) ==> after[k] == before[k]
    &&& likes_of(after, target) == likes_of(before, target) + if class is Like { 1int } else { 0 }
    &&& dislikes_of(after, target) == dislikes_of(before, target) + if class is Dislike { 1int } else { 0 }
    &&& forall|k: Seq<char>| #[trigger] custom_count_of(after, target, k) == custom_count_of(before, target, k) + if class is Custom && k == e.content { 1int } else { 0 }
    &&& emojis_of(after, target) == match emoji {
        Some(em) => if crate::emoji::lookup(old_emojis, em.shortcode) is Some {
            old_emojis
        } else {
            old_emojis.push(em)
        },
        None => old_emojis,
    }
}

/// What adding the event `e` does to the client (`metadata`: its content read
/// as a profile) and which command it asks for, where this is a function of
/// the state; a reaction's effect on the tallies is given by `reaction_counted`.
pub open spec fn add_event_spec(app: AppView, e: EventView, metadata: Option<Profile>) -> (AppView, Option<CommandView>) {
    let app1 = AppView { seen: app.seen.insert(e.id), ..app };
    if app.seen.contains(e.id) {
        (app, None)
    } else if e.kind == crate::event::KIND_METADATA {
        if app1.profile_timestamps.contains_key(e.pubkey) && app1.profile_timestamps[e.pubkey] >= e.created_at {
            (app1, None)
        } else {
            apply_profile_spec(
                AppView { profile_timestamps: app1.profile_timestamps.insert(e.pubkey, e.created_at), ..app1 },
                e.pubkey,
                metadata,
            )
        }
    } else if e.kind == crate::event::KIND_TEXT_NOTE || is_repost_spec(e) {
        let profile_key = if is_repost_spec(e) {
            match embedded_repost_spec(e) {
                Some(o) => o.pubkey,
                None => e.pubkey,
            }
        } else {
            e.pubkey
        };
        let app2 = AppView {
            global_timeline: crate::timeline::added(app1.global_timeline, e),
            following_timeline: if app.following.contains(e.pubkey) {
                crate::timeline::added(app1.following_timeline, e)
            } else {
                app1.following_timeline
            },
            ..app1
        };
        if !app2.profiles.contains_key(profile_key) && !app2.pending_profiles.contains(profile_key) {
            (
                AppView { pending_profiles: app2.pending_profiles.insert(profile_key), ..app2 },
                Some(CommandView::FetchProfile(profile_key)),
            )
        } else {
            (app2, None)
        }
    } else {
        (app1, None)
    }
}

/// The events of `s` by the keys in `following`, in order.
pub open spec fn by_followed(s: Seq<EventView>, following: Set<Seq<char>>) -> Seq<EventView>
    decreases s.len(),
{
    if s.len() == 0 {
        seq![]
    } else if following.contains(s.last().pubkey) {
        by_followed(s.drop_last(), following).push(s.last())
    } else {
        by_followed(s.drop_last(), following)
    }
}

/// The keys of a follow list, as a set.
pub open spec fn key_set(keys: Seq<Seq<char>>) -> Set<Seq<char>> {
    keys.to_set()
}

/// What adding the event `e` does: [`add_event_spec`], except that a new
/// reaction with a target updates the tallies as `reaction_counted` says.
pub open spec fn event_added(app: AppView, e: EventView, metadata: Option<Profile>, after: AppView, command: Option<CommandView>) -> bool {
    if !app.seen.contains(e.id) && e.kind == crate::event::KIND_REACTION && crate::nostr_calls::first_event_id_of(e.tags) is Some {
        let target = crate::nostr_calls::first_event_id_of(e.tags)->0;
        &&& after == (AppView { seen: app.seen.insert(e.id), reactions: after.reactions, ..app })
        &&& reaction_counted(app.reactions, after.reactions, target, e)
        &&& command is None
    } else {
        (after, command) == add_event_spec(app, e, metadata)
    }
}

impl App {
    /// Applies profile metadata for the key with hex form `pubkey`.
    fn apply_profile(&mut self, pubkey: String, profile: Option<Profile>) -> (r: Option<Command>)
        requires
            old(self).well_formed(),
        ensures
            final(self).well_formed(),
            (final(self)@, opt_command(r)) == apply_profile_spec(old(self)@, pubkey@, profile),
    {
        let ghost given = profile;
        let ghost key_text = pubkey@;
        self.pending_profiles.remove(&pubkey);
        assert(self.images@ == old(self)@.images);
        let profile = match profile {
            Some(p) => p,
            None => {
                return None;
            },
        };
        let verification = match &profile.nip05 {
            Some(address) => {
                if !self.verified_nip05.contains(&pubkey, address) && self.pending_nip05.insert(
                    pubkey.clone(),
                    address.clone(),
                ) {
                    Some(Command::VerifyNip05 { pubkey: pubkey.clone(), address: address.clone() })
                } else {
                    None
                }
            },
            None => None,
        };
        let key = avatar_image_key(pubkey.as_str());
        let ghost images_before = self.images@;
        match &profile.picture {
            Some(url) => {
                let u = url.as_str();
                self.images.source_updated(key.as_str(), Some(u));
            },
            None => self.images.source_updated(key.as_str(), None),
        }
        assert(self.images@ == crate::cache::source_updated_spec(images_before, avatar_key(pubkey@), opt_text(profile.picture)));
        assert(images_before == old(self)@.images);
        self.profiles.insert(pubkey, profile);
        assert(self@.images == apply_profile_spec(old(self)@, key_text, given).0.images);
        assert(self@.profiles == apply_profile_spec(old(self)@, key_text, given).0.profiles);
        assert(self@.pending_nip05 == apply_profile_spec(old(self)@, key_text, given).0.pending_nip05);
        assert(self@.pending_profiles == apply_profile_spec(old(self)@, key_text, given).0.pending_profiles);
        assert(self@.verified_nip05 == apply_profile_spec(old(self)@, key_text, given).0.verified_nip05);
        assert(opt_command(verification) == apply_profile_spec(old(self)@, key_text, given).1);
        verification
    }

    /// Counts the reaction `event` for the event its first `e` tag names.
    fn count_reaction(&mut self, event: &Event)
        requires
            old(self).well_formed(),
            old(self)@.seen.contains(event@.id),
            old(self)@.seen.len() >= 1,
            forall|k: Seq<char>| #[trigger] old(self)@.reactions.contains_key(k) ==> counts_fit(
                old(self)@.reactions[k],
                (old(self)@.seen.len() - 1) as nat,
            ),
        ensures
            final(self).well_formed(),
            match crate::nostr_calls::first_event_id_of(event@.tags) {
                Some(target) => final(self)@ == (AppView { reactions: final(self)@.reactions, ..old(self)@ })
                    && reaction_counted(old(self)@.reactions, final(self)@.reactions, target, event@),
                None => final(self)@ == old(self)@,
            },
    {
        let target = match crate::nostr_calls::first_tagged_event_id(&event.tags) {
            Some(t) => t,
            None => {
                return;
            },
        };
        let seen_count = self.seen.len();
        let ghost bound = (old(self)@.seen.len() - 1) as nat;
        let used = crate::emoji::used_custom_emojis(event.content.as_str(), &event.tags);
        let emoji = find_reaction_emoji(&used, &event.content);
        let taken = self.reactions.take(&target);
        let mut reactions = match taken {
            Some(r) => {
                assert(old(self)@.reactions.contains_key(target@));
                assert(counts_fit(r, bound));
                r
            },
            None => Reactions::new(),
        };
        assert(counts_fit(reactions, bound));
        assert(crate::reactions::tally_count(reactions.tally(), event@.content) <= bound);
        reactions.add(event.content.as_str());
        match emoji {
            Some(e) => reactions.add_custom_emoji(e),
            None => {},
        }
        let ghost before = old(self)@.reactions;
        let ghost fresh = reactions;
        assert(seen_count == bound + 1);
        assert(counts_fit(fresh, bound + 1)) by {
            assert forall|c: Seq<char>| #[trigger] crate::reactions::tally_count(fresh.tally(), c) <= bound + 1 by {
                assert(crate::reactions::tally_count(fresh.tally(), c) <= crate::reactions::tally_count(
                    old_tally(taken),
                    c,
                ) + 1);
            }
        }
        self.reactions.insert(target, reactions);
        proof {
            let after = self@.reactions;
            assert(after.dom() =~= before.dom().insert(target@));
            assert forall|k: Seq<char>| #[trigger] after.contains_key(k) implies counts_fit(after[k], self@.seen.len()) by {
                if k != target@ {
                    assert(before.contains_key(k));
                    assert(counts_fit(before[k], bound));
                }
            }
        }
    }
}

/// The first emoji of `used` whose `:shortcode:` is exactly `content`.
fn find_reaction_emoji(used: &Vec<crate::emoji::CustomEmoji>, content: &String) -> (r: Option<crate::emoji::CustomEmoji>)
    ensures
        match reaction_emoji(crate::emoji::emoji_views(used@), content@) {
            Some(e) => r matches Some(x) && x@ == e,
            None => r is None,
        },
{
    let text = chars_of(content.as_str());
    let ghost all = crate::emoji::emoji_views(used@);
    let mut i: usize = 0;
    assert(all.skip(0) =~= all);
    while i < used.len()
        invariant
            i <= used.len(),
            all == crate::emoji::emoji_views(used@),
            text@ == content@,
            reaction_emoji(all, content@) == reaction_emoji(all.skip(i as int), content@),
        decreases used.len() - i,
    {
        let mut wrapped: Vec<char> = vec![':'];
        crate::text::push_all(&mut wrapped, &chars_of(used[i].shortcode.as_str()));
        wrapped.push(':');
        assert(all.skip(i as int)[0] == used@[i as int]@);
        assert(all.skip(i as int).drop_first() =~= all.skip(i + 1));
        assert(wrapped@ =~= seq![':'] + used@[i as int]@.shortcode + seq![':']);
        if crate::text::same_chars(&wrapped, &text) {
            return Some(used[i].duplicate());
        }
        i = i + 1;
    }
    None
}

/// The custom tally of a taken entry, empty when there was none.
pub open spec fn old_tally(taken: Option<Reactions>) -> Seq<(Seq<char>, nat)> {
    match taken {
        Some(r) => r.tally(),
        None => seq![],
    }
}

impl App {
    /// Takes in an event from a relay; an event already seen changes nothing.
    fn add_event(&mut self, event: Event, metadata: Option<Profile>) -> (r: Option<Command>)
        requires
            old(self).well_formed(),
        ensures
            final(self).well_formed(),
            event_added(old(self)@, event@, metadata, final(self)@, opt_command(r)),
    {
        let id = event.id.clone();
        let seen_before = self.seen.len();
        if !self.seen.insert(id) {
            assert(old(self)@.seen.insert(event@.id) =~= old(self)@.seen);
            assert(self@ == old(self)@);
            return None;
        }
        let seen_after = self.seen.len();
        assert(seen_after == seen_before + 1);
        assert forall|k: Seq<char>| #[trigger] self@.reactions.contains_key(k) implies counts_fit(
            self@.reactions[k],
            (self@.seen.len() - 1) as nat,
        ) by {
            assert(counts_fit(old(self)@.reactions[k], old(self)@.seen.len()));
        }
        if event.kind == crate::event::KIND_METADATA {
            let pubkey = event.pubkey.clone();
            match self.profile_timestamps.get(&pubkey) {
                Some(ts) => {
                    if *ts >= event.created_at {
                        return None;
                    }
                },
                None => {},
            }
            self.profile_timestamps.insert(pubkey.clone(), event.created_at);
            return self.apply_profile(pubkey, metadata);
        }
        if event.kind == crate::event::KIND_TEXT_NOTE || is_repost(&event) {
            let profile_key = if is_repost(&event) {
                match embedded_repost(&event) {
                    Some(original) => original.pubkey,
                    None => event.pubkey.clone(),
                }
            } else {
                event.pubkey.clone()
            };
            let is_following = self.following_pubkeys.contains(&event.pubkey);
            let ghost e = event@;
            add_timeline_event(&mut self.global_timeline, event.duplicate());
            if is_following {
                add_timeline_event(&mut self.following_timeline, event);
            }
            let ghost pending_before = self@.pending_profiles;
            if !self.profiles.contains_key(&profile_key) && self.pending_profiles.insert(profile_key.clone()) {
                return Some(Command::FetchProfile(profile_key));
            }
            assert(self@.pending_profiles =~= pending_before);
            return None;
        }
        if event.kind == crate::event::KIND_REACTION {
            self.count_reaction(&event);
        }
        None
    }

    /// Takes in a report from the network side.
    pub fn on_ui_event(&mut self, message: UiEvent) -> (r: Option<Command>)
        requires
            old(self).well_formed(),
        ensures
            final(self).well_formed(),
            ui_event_outcome(old(self)@, message, final(self)@, opt_command(r)),
    {
        let ghost msg = message;
        let r = match message {
            UiEvent::Event(event, metadata) => self.add_event(event, metadata),
            UiEvent::FollowList(keys) => {
                self.apply_follow_list(keys);
                None
            },
            UiEvent::Profile { pubkey, profile } => {
                if self.profiles.contains_key(&pubkey) {
                    self.pending_profiles.remove(&pubkey);
                    None
                } else {
                    self.apply_profile(pubkey, profile)
                }
            },
            UiEvent::ReferencedEvent { event_id, event } => self.store_reference(event_id, event),
            UiEvent::Identity(identity) => {
                self.identity = identity;
                None
            },
            UiEvent::Status(status) => {
                self.status = status;
                None
            },
            UiEvent::Nip05Verified { pubkey, address, verified } => {
                self.pending_nip05.remove(&pubkey, &address);
                if verified {
                    self.verified_nip05.insert(pubkey, address);
                }
                None
            },
            UiEvent::Image { key, url, image } => {
                self.images.complete(key, url, image);
                None
            },
        };
        assert(ui_event_outcome(old(self)@, msg, self@, opt_command(r)));
        r
    }
}

impl App {
    /// Replaces the followed keys and rebuilds the following timeline.
    fn apply_follow_list(&mut self, keys: Vec<String>)
        requires
            old(self).well_formed(),
        ensures
            final(self).well_formed(),
            final(self)@ == (AppView {
                following_available: true,
                following: key_set(keys.deep_view()),
                following_timeline: crate::timeline::replaced(
                    old(self)@.following_timeline,
                    by_followed(old(self)@.global_timeline.items, key_set(keys.deep_view())),
                ),
                ..old(self)@
            }),
    {
        self.following_available = true;
        let mut following = TextSet::new();
        let mut i: usize = 0;
        while i < keys.len()
            invariant
                i <= keys.len(),
                following.contents() == keys.deep_view().take(i as int).to_set(),
            decreases keys.len() - i,
        {
            following.insert(keys[i].clone());
            proof {
                let d = keys.deep_view();
                assert(d.take(i + 1) =~= d.take(i as int).push(d[i as int]));
                d.take(i as int).lemma_push_to_set_commute(d[i as int]);
            }
            i = i + 1;
        }
        assert(keys.deep_view().take(i as int) =~= keys.deep_view());
        self.following_pubkeys = following;
        let events = followed_events(self.global_timeline.events(), &self.following_pubkeys);
        replace_timeline_events(&mut self.following_timeline, events);
    }

    /// Stores a fetched referenced event when its id is the one asked for.
    fn store_reference(&mut self, event_id: String, event: Option<Event>) -> (r: Option<Command>)
        requires
            old(self).well_formed(),
        ensures
            final(self).well_formed(),
            ({
                let app1 = AppView {
                    pending_references: old(self)@.pending_references.remove(event_id@),
                    ..old(self)@
                };
                match event {
                    Some(e) => if e@.id == event_id@ {
                        let app2 = AppView { referenced: app1.referenced.insert(event_id@, e), ..app1 };
                        if !app2.profiles.contains_key(e@.pubkey) && !app2.pending_profiles.contains(e@.pubkey) {
                            final(self)@ == (AppView {
                                pending_profiles: app2.pending_profiles.insert(e@.pubkey),
                                ..app2
                            }) && opt_command(r) == Some(CommandView::FetchProfile(e@.pubkey))
                        } else {
                            final(self)@ == app2 && r is None
                        }
                    } else {
                        final(self)@ == app1 && r is None
                    },
                    None => final(self)@ == app1 && r is None,
                }
            }),
    {
        self.pending_references.remove(&event_id);
        match event {
            Some(found) => {
                if found.id == event_id {
                    let pubkey = found.pubkey.clone();
                    self.referenced_events.insert(event_id, found);
                    let ghost pending_before = self@.pending_profiles;
                    if !self.profiles.contains_key(&pubkey) && self.pending_profiles.insert(pubkey.clone()) {
                        return Some(Command::FetchProfile(pubkey));
                    }
                    assert(self@.pending_profiles =~= pending_before);
                }
                None
            },
            None => None,
        }
    }
}

/// What a report from the network side does to the client and which command
/// it asks for: an event is added; a follow list replaces the followed keys
/// and rebuilds the following timeline from the global one; a profile is
/// applied unless one is known (then it is only no longer pending); a fetched
/// reference is stored when its id matches, and its author's profile is asked
/// for; identity and status are shown; a NIP-05 result is recorded; a
/// downloaded image completes its cache entry.
pub open spec fn ui_event_outcome(app: AppView, message: UiEvent, after: AppView, command: Option<CommandView>) -> bool {
    match message {
    UiEvent::Event(event, metadata) => event_added(app, event@, metadata, after, command),
    UiEvent::FollowList(keys) => command is None && after == (AppView {
        following_available: true,
        following: key_set(keys.deep_view()),
        following_timeline: crate::timeline::replaced(
            app.following_timeline,
            by_followed(app.global_timeline.items, key_set(keys.deep_view())),
        ),
        ..app
    }),
    UiEvent::Profile { pubkey, profile } => if app.profiles.contains_key(pubkey@) {
        command is None && after == (AppView {
            pending_profiles: app.pending_profiles.remove(pubkey@),
            ..app
        })
    } else {
        (after, command) == apply_profile_spec(app, pubkey@, profile)
    },
    UiEvent::ReferencedEvent { event_id, event } => {
        let app1 = AppView {
            pending_references: app.pending_references.remove(event_id@),
            ..app
        };
        match event {
            Some(e) => if e@.id == event_id@ {
                let app2 = AppView { referenced: app1.referenced.insert(event_id@, e), ..app1 };
                if !app2.profiles.contains_key(e@.pubkey) && !app2.pending_profiles.contains(e@.pubkey) {
                    after == (AppView {
                        pending_profiles: app2.pending_profiles.insert(e@.pubkey),
                        ..app2
                    }) && command == Some(CommandView::FetchProfile(e@.pubkey))
                } else {
                    after == app2 && command is None
                }
            } else {
                after == app1 && command is None
            },
            None => after == app1 && command is None,
        }
    },
    UiEvent::Identity(identity) => command is None && after == (AppView { identity: identity@, ..app }),
    UiEvent::Status(status) => command is None && after == (AppView { status: status@, ..app }),
    UiEvent::Nip05Verified { pubkey, address, verified } => command is None && after == (AppView {
        pending_nip05: app.pending_nip05.remove((pubkey@, address@)),
        verified_nip05: if verified {
            app.verified_nip05.insert((pubkey@, address@))
        } else {
            app.verified_nip05
        },
        ..app
    }),
    UiEvent::Image { key, url, image } => command is None && after == (AppView {
        images: crate::cache::complete_spec(app.images, key@, url@, crate::cache::raster_size(image)),
        ..app
    }),
        }
}

/// Across calls: each note that asking for references fetches shows as
/// loading afterwards, and an answer without the note for a requested id
/// ends its loading.
pub proof fn law_fetched_reference_loads_then_settles(
    app: AppView,
    id: Seq<char>,
    message: UiEvent,
    after: AppView,
    command: Option<CommandView>,
)
    ensures
        requested_event_ids(app).contains(id) ==> loading_spec(reference_requests(app).0, id),
        (match message {
            UiEvent::ReferencedEvent { event_id, event } => event_id@ == id && event is None,
            _ => false,
        }) && app.requested_references.contains(id) && ui_event_outcome(app, message, after, command)
            ==> !loading_spec(after, id),
{
    if requested_event_ids(app).contains(id) {
        let ids = requested_event_ids(app);
        let j = choose|j: int| 0 <= j < ids.len() && ids[j] == id;
        law_references_are_fetched_once(app);
        assert(ids[j] == id);
    }
}

/// The events of `events` by keys in `following`, in order.
fn followed_events(events: &Vec<Event>, following: &TextSet) -> (r: Vec<Event>)
    ensures
        crate::timeline::views(r@) == by_followed(crate::timeline::views(events@), following.contents()),
{
    let ghost all = crate::timeline::views(events@);
    let mut r: Vec<Event> = Vec::new();
    let mut i: usize = 0;
    assert(all.take(0) =~= Seq::<EventView>::empty());
    while i < events.len()
        invariant
            i <= events.len(),
            all == crate::timeline::views(events@),
            crate::timeline::views(r@) == by_followed(all.take(i as int), following.contents()),
        decreases events.len() - i,
    {
        assert(all.take(i + 1).drop_last() =~= all.take(i as int));
        assert(all.take(i + 1).last() == events@[i as int]@);
        if following.contains(&events[i].pubkey) {
            let ghost before = r@;
            r.push(events[i].duplicate());
            assert(crate::timeline::views(r@) =~= crate::timeline::views(before).push(events@[i as int]@));
        }
        i = i + 1;
    }
    assert(all.take(i as int) =~= all);
    r
}

/// How far around the selection images and references are fetched.
pub const VIEWPORT_RADIUS: usize = 12;

/// At most this many referenced events are being fetched at once.
pub const MAX_PENDING_REFERENCES: usize = 4;

/// The first position of the events near the selection.
pub open spec fn viewport_start(selected: int) -> int {
    crate::timeline::saturating_sub(selected, VIEWPORT_RADIUS as int)
}

/// The end of the events near the selection.
pub open spec fn viewport_end(selected: int, len: int) -> int {
    if selected + VIEWPORT_RADIUS + 1 < len {
        selected + VIEWPORT_RADIUS + 1
    } else {
        len
    }
}

/// Image downloads gathered so far: (key, url) candidates, the authors and
/// the image keys already considered.
pub struct Gather {
    pub cands: Seq<(Seq<char>, Seq<char>)>,
    pub authors: Set<Seq<char>>,
    pub images: Set<Seq<char>>,
}

/// A candidate image, unless its key was already considered.
pub open spec fn add_image(g: Gather, key: Seq<char>, url: Seq<char>) -> Gather {
    if g.images.contains(key) {
        g
    } else {
        Gather { cands: g.cands.push((key, url)), images: g.images.insert(key), ..g }
    }
}

/// The images of custom emoji.
pub open spec fn add_emoji_images(g: Gather, emojis: Seq<crate::emoji::CustomEmojiView>) -> Gather
    decreases emojis.len(),
{
    if emojis.len() == 0 {
        g
    } else {
        add_image(add_emoji_images(g, emojis.drop_last()), emoji_key(emojis.last().url), emojis.last().url)
    }
}

/// The images of a post; the selected post also asks for its detail images.
pub open spec fn add_post_images(g: Gather, urls: Seq<Seq<char>>, selected: bool) -> Gather
    decreases urls.len(),
{
    if urls.len() == 0 {
        g
    } else {
        let u = urls.last();
        let g1 = add_image(add_post_images(g, urls.drop_last(), selected), post_key(u), u);
        if selected {
            Gather { cands: g1.cands.push((detail_key(u), u)), ..g1 }
        } else {
            g1
        }
    }
}

/// The images one timeline event needs: its author's avatar (once per
/// author), its custom emoji, its post images, and the emoji of its reactions.
pub open spec fn gather_event(app: AppView, g: Gather, e: EventView, selected: bool) -> Gather {
    let shown = shown_event(app, e).0;
    let key = shown.pubkey;
    let g1 = if g.authors.contains(key) {
        g
    } else {
        let g0 = Gather { authors: g.authors.insert(key), ..g };
        if app.profiles.contains_key(key) && app.profiles[key].picture is Some {
            Gather { cands: g0.cands.push((avatar_key(key), app.profiles[key].picture->0@)), ..g0 }
        } else {
            g0
        }
    };
    let g2 = add_emoji_images(g1, crate::emoji::used_emoji_spec(shown.content, shown.tags));
    let g3 = add_post_images(g2, crate::media::post_images_spec(shown.content, shown.tags), selected);
    if app.reactions.contains_key(shown.id) {
        add_emoji_images(g3, app.reactions[shown.id].emojis())
    } else {
        g3
    }
}

/// The images of the events `s`, which start at timeline position `start`.
pub open spec fn gather_events(app: AppView, s: Seq<EventView>, start: int, selected: int) -> Gather
    decreases s.len(),
{
    if s.len() == 0 {
        Gather { cands: seq![], authors: Set::empty(), images: Set::empty() }
    } else {
        gather_event(app, gather_events(app, s.drop_last(), start, selected), s.last(), start + s.len() - 1 == selected)
    }
}

/// Gathering keeps what was gathered and leaves the authors alone.
pub open spec fn gather_grows(g: Gather, h: Gather) -> bool {
    &&& h.authors == g.authors
    &&& forall|x: (Seq<char>, Seq<char>)| g.cands.contains(x) ==> #[trigger] h.cands.contains(x)
}

/// Every author considered whose profile has a picture has its avatar among
/// the candidates.
pub open spec fn avatars_gathered(app: AppView, g: Gather) -> bool {
    forall|a: Seq<char>| #[trigger] g.authors.contains(a) && app.profiles.contains_key(a) && app.profiles[a].picture is Some
        ==> g.cands.contains((avatar_key(a), app.profiles[a].picture->0@))
}

proof fn lemma_add_emoji_images_grows(g: Gather, emojis: Seq<crate::emoji::CustomEmojiView>)
    ensures
        gather_grows(g, add_emoji_images(g, emojis)),
    decreases emojis.len(),
{
    if emojis.len() > 0 {
        lemma_add_emoji_images_grows(g, emojis.drop_last());
        let h = add_emoji_images(g, emojis.drop_last());
        let r = add_emoji_images(g, emojis);
        assert forall|x: (Seq<char>, Seq<char>)| h.cands.contains(x) implies #[trigger] r.cands.contains(x) by {
            if !h.images.contains(emoji_key(emojis.last().url)) {
                let j = choose|j: int| 0 <= j < h.cands.len() && h.cands[j] == x;
                assert(r.cands[j] == x);
            }
        }
    }
}

proof fn lemma_add_post_images_grows(g: Gather, urls: Seq<Seq<char>>, selected: bool)
    ensures
        gather_grows(g, add_post_images(g, urls, selected)),
    decreases urls.len(),
{
    if urls.len() > 0 {
        lemma_add_post_images_grows(g, urls.drop_last(), selected);
        let u = urls.last();
        let h = add_post_images(g, urls.drop_last(), selected);
        let g1 = add_image(h, post_key(u), u);
        let r = add_post_images(g, urls, selected);
        assert forall|x: (Seq<char>, Seq<char>)| h.cands.contains(x) implies #[trigger] r.cands.contains(x) by {
            let j = choose|j: int| 0 <= j < h.cands.len() && h.cands[j] == x;
            assert(g1.cands[j] == x);
            assert(r.cands[j] == x);
        }
    }
}

proof fn lemma_gather_event_avatar(app: AppView, g: Gather, e: EventView, selected: bool)
    requires
        avatars_gathered(app, g),
    ensures
        avatars_gathered(app, gather_event(app, g, e, selected)),
        gather_event(app, g, e, selected).authors == g.authors.insert(shown_event(app, e).0.pubkey),
        forall|x: (Seq<char>, Seq<char>)| g.cands.contains(x) ==> #[trigger] gather_event(app, g, e, selected).cands.contains(x),
{
    let shown = shown_event(app, e).0;
    let author = shown.pubkey;
    let key = author;
    let g1 = if g.authors.contains(key) {
        g
    } else {
        let g0 = Gather { authors: g.authors.insert(key), ..g };
        if app.profiles.contains_key(key) && app.profiles[key].picture is Some {
            Gather { cands: g0.cands.push((avatar_key(key), app.profiles[key].picture->0@)), ..g0 }
        } else {
            g0
        }
    };
    assert(g1.authors == g.authors.insert(key));
    assert forall|x: (Seq<char>, Seq<char>)| g.cands.contains(x) implies #[trigger] g1.cands.contains(x) by {
        let j = choose|j: int| 0 <= j < g.cands.len() && g.cands[j] == x;
        assert(g1.cands[j] == x);
    }
    assert(avatars_gathered(app, g1)) by {
        assert forall|a: Seq<char>| #[trigger] g1.authors.contains(a) && app.profiles.contains_key(a)
            && app.profiles[a].picture is Some implies g1.cands.contains((avatar_key(a), app.profiles[a].picture->0@)) by {
            if a == key && !g.authors.contains(key) {
                assert(g1.cands[g1.cands.len() - 1] == (avatar_key(a), app.profiles[a].picture->0@));
            } else {
                assert(g.cands.contains((avatar_key(a), app.profiles[a].picture->0@)));
            }
        }
    }
    let g2 = add_emoji_images(g1, crate::emoji::used_emoji_spec(shown.content, shown.tags));
    lemma_add_emoji_images_grows(g1, crate::emoji::used_emoji_spec(shown.content, shown.tags));
    let g3 = add_post_images(g2, crate::media::post_images_spec(shown.content, shown.tags), selected);
    lemma_add_post_images_grows(g2, crate::media::post_images_spec(shown.content, shown.tags), selected);
    if app.reactions.contains_key(shown.id) {
        lemma_add_emoji_images_grows(g3, app.reactions[shown.id].emojis());
    }
}

proof fn lemma_gather_events_avatars(app: AppView, s: Seq<EventView>, start: int, selected: int)
    ensures
        avatars_gathered(app, gather_events(app, s, start, selected)),
        forall|j: int| 0 <= j < s.len() ==> gather_events(app, s, start, selected).authors.contains(
            #[trigger] shown_event(app, s[j]).0.pubkey,
        ),
    decreases s.len(),
{
    if s.len() > 0 {
        lemma_gather_events_avatars(app, s.drop_last(), start, selected);
        let g = gather_events(app, s.drop_last(), start, selected);
        lemma_gather_event_avatar(app, g, s.last(), start + s.len() - 1 == selected);
        let r = gather_events(app, s, start, selected);
        assert forall|j: int| 0 <= j < s.len() implies r.authors.contains(#[trigger] shown_event(app, s[j]).0.pubkey) by {
            if j < s.len() - 1 {
                assert(s[j] == s.drop_last()[j]);
            }
        }
    }
}

/// The avatar that an event near the selection contributes is that of the
/// author the timeline shows for it (the original's author for a repost
/// whose original is known): whenever that author's profile has a picture,
/// the picture is among the images asked for, under the author's avatar key.
pub proof fn law_avatars_follow_the_shown_author(app: AppView, k: int)
    requires
        app.active().selection < app.active().items.len(),
        viewport_start(app.active().selection) <= k < viewport_end(app.active().selection, app.active().items.len() as int),
        app.profiles.contains_key(shown_event(app, app.active().items[k]).0.pubkey),
        app.profiles[shown_event(app, app.active().items[k]).0.pubkey].picture is Some,
    ensures
        images_near_selection(app).contains(
            (
                avatar_key(shown_event(app, app.active().items[k]).0.pubkey),
                app.profiles[shown_event(app, app.active().items[k]).0.pubkey].picture->0@,
            ),
        ),
{
    let t = app.active();
    let start = viewport_start(t.selection);
    let end = viewport_end(t.selection, t.items.len() as int);
    let s = t.items.subrange(start, end);
    lemma_gather_events_avatars(app, s, start, t.selection);
    assert(s[k - start] == t.items[k]);
}

/// Asking the cache for each candidate in turn: the cache after, and the
/// candidates it says to fetch.
pub open spec fn request_all(v: crate::cache::ImageCacheView, cands: Seq<(Seq<char>, Seq<char>)>) -> (crate::cache::ImageCacheView, Seq<(Seq<char>, Seq<char>)>)
    decreases cands.len(),
{
    if cands.len() == 0 {
        (v, seq![])
    } else {
        let (v1, fetch) = request_all(v, cands.drop_last());
        let (v2, ok) = crate::cache::request_spec(v1, cands.last().0, cands.last().1);
        (v2, if ok {
            fetch.push(cands.last())
        } else {
            fetch
        })
    }
}

/// The image downloads near the selection: nothing when images are off or
/// the timeline is empty.
pub open spec fn image_requests(app: AppView) -> (crate::cache::ImageCacheView, Seq<(Seq<char>, Seq<char>)>) {
    let t = app.active();
    if !app.images.enabled || t.items.len() == 0 {
        (app.images, seq![])
    } else {
        let start = viewport_start(t.selection);
        let end = viewport_end(t.selection, t.items.len() as int);
        request_all(app.images, gather_events(app, t.items.subrange(start, end), start, t.selection).cands)
    }
}

proof fn lemma_request_all(v: crate::cache::ImageCacheView, cands: Seq<(Seq<char>, Seq<char>)>)
    requires
        v.in_flight.len() <= crate::cache::MAX_PENDING_IMAGES,
    ensures
        request_all(v, cands).0.in_flight.len() == v.in_flight.len() + request_all(v, cands).1.len(),
        request_all(v, cands).0.in_flight.len() <= crate::cache::MAX_PENDING_IMAGES,
        request_all(v, cands).0.enabled == v.enabled,
        forall|i: int| 0 <= i < request_all(v, cands).1.len() ==> {
            let p = #[trigger] request_all(v, cands).1[i];
            &&& crate::media::is_safe_url(p.1)
            &&& cands.contains(p)
        },
    decreases cands.len(),
{
    if cands.len() > 0 {
        lemma_request_all(v, cands.drop_last());
        let (v1, fetch) = request_all(v, cands.drop_last());
        let r = request_all(v, cands).1;
        assert forall|i: int| 0 <= i < r.len() implies {
            let p = #[trigger] r[i];
            &&& crate::media::is_safe_url(p.1)
            &&& cands.contains(p)
        } by {
            if i < fetch.len() {
                assert(r[i] == fetch[i]);
                let j = choose|j: int| 0 <= j < cands.drop_last().len() && cands.drop_last()[j] == fetch[i];
                assert(cands[j] == cands.drop_last()[j]);
            } else {
                assert(cands[cands.len() - 1] == cands.last());
            }
        }
    }
}

/// The images that the events within `VIEWPORT_RADIUS` of the selection
/// need, as (key, url) pairs.
pub open spec fn images_near_selection(app: AppView) -> Seq<(Seq<char>, Seq<char>)> {
    let t = app.active();
    let start = viewport_start(t.selection);
    let end = viewport_end(t.selection, t.items.len() as int);
    gather_events(app, t.items.subrange(start, end), start, t.selection).cands
}

/// Asking for images fetches nothing when images are off or the timeline is
/// empty; otherwise each download it starts is of a safe https URL, for an
/// image of an event within `VIEWPORT_RADIUS` of the selection, and no more
/// than `MAX_PENDING_IMAGES` downloads are ever in flight.
pub proof fn law_image_downloads_are_bounded(app: AppView)
    requires
        app.images.in_flight.len() <= crate::cache::MAX_PENDING_IMAGES,
    ensures
        forall|i: int| 0 <= i < image_requests(app).1.len() ==> images_near_selection(app).contains(#[trigger] image_requests(app).1[i]),
        !app.images.enabled || app.active().items.len() == 0 ==> image_requests(app) == (app.images, Seq::<(Seq<char>, Seq<char>)>::empty()),
        image_requests(app).0.in_flight.len() == app.images.in_flight.len() + image_requests(app).1.len(),
        image_requests(app).0.in_flight.len() <= crate::cache::MAX_PENDING_IMAGES,
        forall|i: int| 0 <= i < image_requests(app).1.len() ==> crate::media::is_safe_url(#[trigger] image_requests(app).1[i].1),
{
    let t = app.active();
    if app.images.enabled && t.items.len() > 0 {
        let start = viewport_start(t.selection);
        let end = viewport_end(t.selection, t.items.len() as int);
        let cands = gather_events(app, t.items.subrange(start, end), start, t.selection).cands;
        lemma_request_all(app.images, cands);
        assert forall|i: int| 0 <= i < image_requests(app).1.len() implies crate::media::is_safe_url(#[trigger] image_requests(app).1[i].1)
            && images_near_selection(app).contains(image_requests(app).1[i]) by {
            let p = request_all(app.images, cands).1[i];
            assert(crate::media::is_safe_url(p.1));
        }
    }
}

/// Fetch commands for (key, url) pairs.
pub open spec fn fetch_commands(pairs: Seq<(Seq<char>, Seq<char>)>) -> Seq<CommandView> {
    pairs.map_values(|p: (Seq<char>, Seq<char>)| CommandView::FetchImage { key: p.0, url: p.1 })
}

/// Gathered candidates, as values.
struct Gatherer {
    cands: Vec<(String, String)>,
    authors: TextSet,
    images: TextSet,
}

impl Gatherer {
    /// What has been gathered.
    spec fn state(&self) -> Gather {
        Gather {
            cands: self.cands@.map_values(|p: (String, String)| (p.0@, p.1@)),
            authors: self.authors.contents(),
            images: self.images.contents(),
        }
    }

    /// Adds a candidate unless its key was already considered.
    fn add_image(&mut self, key: String, url: String)
        ensures
            final(self).state() == add_image(old(self).state(), key@, url@),
    {
        let ghost before = self.state();
        let ghost pair = (key@, url@);
        if self.images.insert(key.clone()) {
            let ghost cands = self.cands@;
            self.cands.push((key, url));
            assert(self.state().cands =~= before.cands.push(pair));
        } else {
            assert(before.images.insert(pair.0) =~= before.images);
        }
    }

    /// Adds a candidate without checking its key.
    fn push(&mut self, key: String, url: String)
        ensures
            final(self).state() == (Gather { cands: old(self).state().cands.push((key@, url@)), ..old(self).state() }),
    {
        let ghost before = self.state();
        self.cands.push((key, url));
        assert(self.state().cands =~= before.cands.push((key@, url@)));
    }

    /// Adds the images of custom emoji.
    fn add_emoji_images(&mut self, emojis: &Vec<crate::emoji::CustomEmoji>)
        ensures
            final(self).state() == add_emoji_images(old(self).state(), crate::emoji::emoji_views(emojis@)),
    {
        let ghost all = crate::emoji::emoji_views(emojis@);
        let mut i: usize = 0;
        assert(all.take(0) =~= Seq::<crate::emoji::CustomEmojiView>::empty());
        while i < emojis.len()
            invariant
                i <= emojis.len(),
                all == crate::emoji::emoji_views(emojis@),
                self.state() == add_emoji_images(old(self).state(), all.take(i as int)),
            decreases emojis.len() - i,
        {
            assert(all.take(i + 1).drop_last() =~= all.take(i as int));
            assert(all.take(i + 1).last() == emojis@[i as int]@);
            let url = emojis[i].url.clone();
            let key = emoji_image_key(url.as_str());
            self.add_image(key, url);
            i = i + 1;
        }
        assert(all.take(i as int) =~= all);
    }

    /// Adds the images of a post, and its detail images when selected.
    fn add_post_images(&mut self, urls: &Vec<String>, selected: bool)
        ensures
            final(self).state() == add_post_images(old(self).state(), urls.deep_view(), selected),
    {
        let ghost all = urls.deep_view();
        let mut i: usize = 0;
        assert(all.take(0) =~= Seq::<Seq<char>>::empty());
        while i < urls.len()
            invariant
                i <= urls.len(),
                all == urls.deep_view(),
                self.state() == add_post_images(old(self).state(), all.take(i as int), selected),
            decreases urls.len() - i,
        {
            assert(all.take(i + 1).drop_last() =~= all.take(i as int));
            assert(all.take(i + 1).last() == urls@[i as int]@);
            let url = urls[i].clone();
            self.add_image(post_image_key(url.as_str()), url.clone());
            if selected {
                self.push(detail_image_key(url.as_str()), url);
            }
            i = i + 1;
        }
        assert(all.take(i as int) =~= all);
    }
}

impl App {
    /// Gathers the images one timeline event needs.
    fn gather_event(&self, g: &mut Gatherer, event: &Event, selected: bool)
        ensures
            final(g).state() == gather_event(self@, old(g).state(), event@, selected),
    {
        let display = self.display_event(event);
        let key = display.event.pubkey.clone();
        if g.authors.insert(key.clone()) {
            match self.profiles.get(&key) {
                Some(profile) => match &profile.picture {
                    Some(url) => g.push(avatar_image_key(key.as_str()), url.clone()),
                    None => {},
                },
                None => {},
            }
        } else {
            assert(old(g).state().authors.insert(key@) =~= old(g).state().authors);
        }
        let emojis = crate::emoji::used_custom_emojis(display.event.content.as_str(), &display.event.tags);
        g.add_emoji_images(&emojis);
        let urls = post_image_urls(display.event.content.as_str(), &display.event.tags);
        g.add_post_images(&urls, selected);
        match self.reactions.get(&display.event.id) {
            Some(reactions) => g.add_emoji_images(reactions.custom_emojis()),
            None => {},
        }
    }

    /// Asks the image cache for the images near the selection and returns a
    /// fetch command for each download it accepts.
    pub fn image_commands(&mut self) -> (r: Vec<Command>)
        requires
            old(self).well_formed(),
        ensures
            final(self).well_formed(),
            final(self)@ == (AppView { images: image_requests(old(self)@).0, ..old(self)@ }),
            command_views(r@) == fetch_commands(image_requests(old(self)@).1),
    {
        let len = self.timeline().len();
        if !self.images.is_enabled() || len == 0 {
            let none: Vec<Command> = Vec::new();
            assert(fetch_commands(seq![]) =~= Seq::<CommandView>::empty());
            assert(command_views(none@) =~= Seq::<CommandView>::empty());
            return none;
        }
        let selected = self.selected_index();
        let start: usize = if selected >= VIEWPORT_RADIUS {
            selected - VIEWPORT_RADIUS
        } else {
            0
        };
        let end: usize = if len - selected > VIEWPORT_RADIUS + 1 {
            selected + VIEWPORT_RADIUS + 1
        } else {
            len
        };
        let ghost app = self@;
        let ghost window = app.active().items.subrange(start as int, end as int);
        let mut g = Gatherer { cands: Vec::new(), authors: TextSet::new(), images: TextSet::new() };
        assert(g.state().cands =~= Seq::<(Seq<char>, Seq<char>)>::empty());
        assert(window.take(0) =~= Seq::<EventView>::empty());
        let mut i: usize = start;
        while i < end
            invariant
                start <= i <= end <= len,
                len == app.active().items.len(),
                self@ == app,
                window == app.active().items.subrange(start as int, end as int),
                g.state() == gather_events(app, window.take(i - start), start as int, selected as int),
            decreases end - i,
        {
            let events = self.timeline();
            let ghost before = window.take(i - start);
            assert(window.take(i - start + 1).drop_last() =~= before);
            assert(crate::timeline::views(events@)[i as int] == events@[i as int]@);
            assert(window.take(i - start + 1).last() == events@[i as int]@);
            self.gather_event(&mut g, &events[i], i == selected);
            i = i + 1;
        }
        assert(window.take(end - start) =~= window);
        let ghost cands = g.state().cands;
        let mut commands: Vec<Command> = Vec::new();
        let mut k: usize = 0;
        assert(cands.take(0) =~= Seq::<(Seq<char>, Seq<char>)>::empty());
        while k < g.cands.len()
            invariant
                k <= g.cands.len(),
                cands == g.state().cands,
                self.well_formed(),
                self@ == (AppView { images: request_all(app.images, cands.take(k as int)).0, ..app }),
                command_views(commands@) == fetch_commands(request_all(app.images, cands.take(k as int)).1),
            decreases g.cands.len() - k,
        {
            assert(cands.take(k + 1).drop_last() =~= cands.take(k as int));
            assert(cands.take(k + 1).last() == cands[k as int]);
            assert(cands[k as int] == (g.cands@[k as int].0@, g.cands@[k as int].1@));
            let key = g.cands[k].0.clone();
            let url = g.cands[k].1.clone();
            let ghost before = commands@;
            if self.images.request(key.as_str(), url.as_str()) {
                commands.push(Command::FetchImage { key, url });
                assert(command_views(commands@) =~= command_views(before).push(
                    CommandView::FetchImage { key: cands[k as int].0, url: cands[k as int].1 },
                ));
                assert(fetch_commands(request_all(app.images, cands.take(k + 1)).1) =~= fetch_commands(
                    request_all(app.images, cands.take(k as int)).1,
                ).push(CommandView::FetchImage { key: cands[k as int].0, url: cands[k as int].1 }));
            }
            k = k + 1;
        }
        assert(cands.take(k as int) =~= cands);
        commands
    }
}

/// References gathered so far: events and profiles to fetch, and the ids and
/// keys already considered.
pub struct RefGather {
    pub ids: Seq<Seq<char>>,
    pub pubkeys: Seq<Seq<char>>,
    pub unique: Set<Seq<char>>,
    pub unique_pubkeys: Set<Seq<char>>,
}

/// A profile to fetch, unless its key was considered, is known or is pending.
pub open spec fn consider_pubkey(app: AppView, g: RefGather, key: Seq<char>) -> RefGather {
    if g.unique_pubkeys.contains(key) {
        g
    } else {
        let g1 = RefGather { unique_pubkeys: g.unique_pubkeys.insert(key), ..g };
        if !app.profiles.contains_key(key) && !app.pending_profiles.contains(key) {
            RefGather { pubkeys: g1.pubkeys.push(key), ..g1 }
        } else {
            g1
        }
    }
}

/// An event to fetch, unless its id was considered, it is known, or it was
/// requested before.
pub open spec fn consider_id(app: AppView, g: RefGather, id: Seq<char>) -> RefGather {
    if g.unique.contains(id) {
        g
    } else {
        let g1 = RefGather { unique: g.unique.insert(id), ..g };
        if !app.referenced.contains_key(id) && global_event(app, id) is None && !app.requested_references.contains(id) {
            RefGather { ids: g1.ids.push(id), ..g1 }
        } else {
            g1
        }
    }
}

/// The references that content entities make.
pub open spec fn consider_entities(app: AppView, g: RefGather, es: Seq<ContentEntityView>) -> RefGather
    decreases es.len(),
{
    if es.len() == 0 {
        g
    } else {
        let g1 = consider_entities(app, g, es.drop_last());
        match es.last().kind {
            EntityKindView::Event(id) => consider_id(app, g1, id),
            EntityKindView::Pubkey(k) => consider_pubkey(app, g1, k),
        }
    }
}

/// The references one timeline event makes: its shown author and reposter,
/// the original of a repost not yet known, the parent of a reply, and the
/// events and profiles its content names.
pub open spec fn refs_of_event(app: AppView, g: RefGather, e: EventView) -> RefGather {
    let (shown, reposter) = shown_event(app, e);
    let g1 = consider_pubkey(app, g, shown.pubkey);
    let g2 = match reposter {
        Some(k) => consider_pubkey(app, g1, k),
        None => g1,
    };
    let g3 = if is_repost_spec(e) && shown.id == e.id {
        match repost_target_spec(e) {
            Some(id) => consider_id(app, g2, id),
            None => g2,
        }
    } else {
        g2
    };
    let g4 = match reply_target_spec(shown) {
        Some(id) => consider_id(app, g3, id),
        None => g3,
    };
    let c = expansion_from(shown.content, 0, shown.tags);
    consider_entities(app, g4, entities_from(c, 0))
}

/// The references of the events `s`, in order.
pub open spec fn refs_of_events(app: AppView, s: Seq<EventView>) -> RefGather
    decreases s.len(),
{
    if s.len() == 0 {
        RefGather { ids: seq![], pubkeys: seq![], unique: Set::empty(), unique_pubkeys: Set::empty() }
    } else {
        refs_of_event(app, refs_of_events(app, s.drop_last()), s.last())
    }
}

/// The references near the selection, what the client records, and the
/// commands: every new profile, then events up to the pending limit.
pub open spec fn reference_requests(app: AppView) -> (AppView, Seq<CommandView>) {
    let t = app.active();
    if t.items.len() == 0 {
        (app, seq![])
    } else {
        let start = viewport_start(t.selection);
        let end = viewport_end(t.selection, t.items.len() as int);
        let g = refs_of_events(app, t.items.subrange(start, end));
        let available = crate::timeline::saturating_sub(MAX_PENDING_REFERENCES as int, app.pending_references.len() as int);
        let taken = if g.ids.len() <= available {
            g.ids
        } else {
            g.ids.take(available)
        };
        (
            AppView {
                pending_profiles: app.pending_profiles + g.pubkeys.to_set(),
                requested_references: app.requested_references + taken.to_set(),
                pending_references: app.pending_references + taken.to_set(),
                ..app
            },
            g.pubkeys.map_values(|k: Seq<char>| CommandView::FetchProfile(k)) + taken.map_values(
                |i: Seq<char>| CommandView::FetchEvent(i),
            ),
        )
    }
}

/// What gathering references keeps of the ids and keys it collects: each
/// once, each considered, and none known or asked for before.
pub open spec fn refs_fresh(app: AppView, g: RefGather) -> bool {
    &&& g.ids.no_duplicates()
    &&& g.pubkeys.no_duplicates()
    &&& forall|i: int| 0 <= i < g.ids.len() ==> {
        let id = #[trigger] g.ids[i];
        &&& g.unique.contains(id)
        &&& !app.referenced.contains_key(id)
        &&& global_event(app, id) is None
        &&& !app.requested_references.contains(id)
    }
    &&& forall|i: int| 0 <= i < g.pubkeys.len() ==> {
        let k = #[trigger] g.pubkeys[i];
        &&& g.unique_pubkeys.contains(k)
        &&& !app.profiles.contains_key(k)
        &&& !app.pending_profiles.contains(k)
    }
}

proof fn lemma_consider_id_fresh(app: AppView, g: RefGather, id: Seq<char>)
    requires
        refs_fresh(app, g),
    ensures
        refs_fresh(app, consider_id(app, g, id)),
{
    let r = consider_id(app, g, id);
    if !g.unique.contains(id) && r.ids.len() > g.ids.len() {
        assert forall|a: int, b: int| 0 <= a < b < r.ids.len() implies r.ids[a] != r.ids[b] by {
            if b == g.ids.len() {
                assert(g.unique.contains(g.ids[a]));
            }
        }
    }
}

proof fn lemma_consider_pubkey_fresh(app: AppView, g: RefGather, key: Seq<char>)
    requires
        refs_fresh(app, g),
    ensures
        refs_fresh(app, consider_pubkey(app, g, key)),
{
    let r = consider_pubkey(app, g, key);
    if !g.unique_pubkeys.contains(key) && r.pubkeys.len() > g.pubkeys.len() {
        assert forall|a: int, b: int| 0 <= a < b < r.pubkeys.len() implies r.pubkeys[a] != r.pubkeys[b] by {
            if b == g.pubkeys.len() {
                assert(g.unique_pubkeys.contains(g.pubkeys[a]));
            }
        }
    }
}

proof fn lemma_consider_entities_fresh(app: AppView, g: RefGather, es: Seq<ContentEntityView>)
    requires
        refs_fresh(app, g),
    ensures
        refs_fresh(app, consider_entities(app, g, es)),
    decreases es.len(),
{
    if es.len() > 0 {
        lemma_consider_entities_fresh(app, g, es.drop_last());
        let g1 = consider_entities(app, g, es.drop_last());
        match es.last().kind {
            EntityKindView::Event(id) => lemma_consider_id_fresh(app, g1, id),
            EntityKindView::Pubkey(k) => lemma_consider_pubkey_fresh(app, g1, k),
        }
    }
}

proof fn lemma_refs_of_events_fresh(app: AppView, s: Seq<EventView>)
    ensures
        refs_fresh(app, refs_of_events(app, s)),
    decreases s.len(),
{
    if s.len() > 0 {
        lemma_refs_of_events_fresh(app, s.drop_last());
        let g = refs_of_events(app, s.drop_last());
        let e = s.last();
        let (shown, reposter) = shown_event(app, e);
        lemma_consider_pubkey_fresh(app, g, shown.pubkey);
        let g1 = consider_pubkey(app, g, shown.pubkey);
        let g2 = match reposter {
            Some(k) => {
                lemma_consider_pubkey_fresh(app, g1, k);
                consider_pubkey(app, g1, k)
            },
            None => g1,
        };
        let g3 = if is_repost_spec(e) && shown.id == e.id {
            match repost_target_spec(e) {
                Some(id) => {
                    lemma_consider_id_fresh(app, g2, id);
                    consider_id(app, g2, id)
                },
                None => g2,
            }
        } else {
            g2
        };
        let g4 = match reply_target_spec(shown) {
            Some(id) => {
                lemma_consider_id_fresh(app, g3, id);
                consider_id(app, g3, id)
            },
            None => g3,
        };
        let c = expansion_from(shown.content, 0, shown.tags);
        lemma_consider_entities_fresh(app, g4, entities_from(c, 0));
    }
}

/// Every key considered whose profile is neither known nor pending is among
/// the profiles to fetch.
pub open spec fn fresh_keys_fetched(app: AppView, g: RefGather) -> bool {
    forall|k: Seq<char>| #[trigger] g.unique_pubkeys.contains(k) && !app.profiles.contains_key(k)
        && !app.pending_profiles.contains(k) ==> g.pubkeys.contains(k)
}

/// Gathering only adds considered keys.
pub open spec fn keys_kept(g: RefGather, h: RefGather) -> bool {
    forall|k: Seq<char>| g.unique_pubkeys.contains(k) ==> #[trigger] h.unique_pubkeys.contains(k)
}

proof fn lemma_consider_pubkey_fetches(app: AppView, g: RefGather, key: Seq<char>)
    requires
        fresh_keys_fetched(app, g),
    ensures
        fresh_keys_fetched(app, consider_pubkey(app, g, key)),
        keys_kept(g, consider_pubkey(app, g, key)),
        consider_pubkey(app, g, key).unique_pubkeys.contains(key),
{
    let r = consider_pubkey(app, g, key);
    if !g.unique_pubkeys.contains(key) {
        assert forall|k: Seq<char>| #[trigger] r.unique_pubkeys.contains(k) && !app.profiles.contains_key(k)
            && !app.pending_profiles.contains(k) implies r.pubkeys.contains(k) by {
            if k == key {
                assert(r.pubkeys[r.pubkeys.len() - 1] == key);
            } else {
                assert(g.pubkeys.contains(k));
                let j = choose|j: int| 0 <= j < g.pubkeys.len() && g.pubkeys[j] == k;
                assert(r.pubkeys[j] == k);
            }
        }
    }
}

proof fn lemma_consider_entities_fetch(app: AppView, g: RefGather, es: Seq<ContentEntityView>)
    requires
        fresh_keys_fetched(app, g),
    ensures
        fresh_keys_fetched(app, consider_entities(app, g, es)),
        keys_kept(g, consider_entities(app, g, es)),
        forall|j: int| 0 <= j < es.len() && (#[trigger] es[j]).kind is Pubkey
            ==> consider_entities(app, g, es).unique_pubkeys.contains(es[j].kind->Pubkey_0),
    decreases es.len(),
{
    if es.len() > 0 {
        let front = es.drop_last();
        lemma_consider_entities_fetch(app, g, front);
        let h = consider_entities(app, g, front);
        let r = consider_entities(app, g, es);
        match es.last().kind {
            EntityKindView::Event(id) => {
                assert(r == consider_id(app, h, id));
            },
            EntityKindView::Pubkey(k) => {
                lemma_consider_pubkey_fetches(app, h, k);
            },
        }
        assert forall|j: int| 0 <= j < es.len() && (#[trigger] es[j]).kind is Pubkey
            implies r.unique_pubkeys.contains(es[j].kind->Pubkey_0) by {
            if j < es.len() - 1 {
                assert(es[j] == front[j]);
            }
        }
    }
}

proof fn lemma_refs_of_events_fetch(app: AppView, s: Seq<EventView>)
    ensures
        fresh_keys_fetched(app, refs_of_events(app, s)),
        forall|i: int, j: int| 0 <= i < s.len() && 0 <= j < entities_from(
            expansion_from(shown_event(app, s[i]).0.content, 0, shown_event(app, s[i]).0.tags),
            0,
        ).len() && (#[trigger] entities_from(
            expansion_from(shown_event(app, s[i]).0.content, 0, shown_event(app, s[i]).0.tags),
            0,
        )[j]).kind is Pubkey ==> refs_of_events(app, s).unique_pubkeys.contains(entities_from(
            expansion_from(shown_event(app, s[i]).0.content, 0, shown_event(app, s[i]).0.tags),
            0,
        )[j].kind->Pubkey_0),
    decreases s.len(),
{
    if s.len() > 0 {
        let front = s.drop_last();
        lemma_refs_of_events_fetch(app, front);
        let g = refs_of_events(app, front);
        let e = s.last();
        let (shown, reposter) = shown_event(app, e);
        lemma_consider_pubkey_fetches(app, g, shown.pubkey);
        let g1 = consider_pubkey(app, g, shown.pubkey);
        let g2 = match reposter {
            Some(k) => {
                lemma_consider_pubkey_fetches(app, g1, k);
                consider_pubkey(app, g1, k)
            },
            None => g1,
        };
        let g3 = if is_repost_spec(e) && shown.id == e.id {
            match repost_target_spec(e) {
                Some(id) => consider_id(app, g2, id),
                None => g2,
            }
        } else {
            g2
        };
        let g4 = match reply_target_spec(shown) {
            Some(id) => consider_id(app, g3, id),
            None => g3,
        };
        let c = expansion_from(shown.content, 0, shown.tags);
        lemma_consider_entities_fetch(app, g4, entities_from(c, 0));
        let r = refs_of_events(app, s);
        assert(r == consider_entities(app, g4, entities_from(c, 0)));
        assert forall|i: int, j: int| 0 <= i < s.len() && 0 <= j < entities_from(
            expansion_from(shown_event(app, s[i]).0.content, 0, shown_event(app, s[i]).0.tags),
            0,
        ).len() && (#[trigger] entities_from(
            expansion_from(shown_event(app, s[i]).0.content, 0, shown_event(app, s[i]).0.tags),
            0,
        )[j]).kind is Pubkey implies r.unique_pubkeys.contains(entities_from(
            expansion_from(shown_event(app, s[i]).0.content, 0, shown_event(app, s[i]).0.tags),
            0,
        )[j].kind->Pubkey_0) by {
            if i < s.len() - 1 {
                assert(s[i] == front[i]);
            }
        }
    }
}

/// Every key that a profile reference in the content of an event near the
/// selection names (a `nostr:` profile URI or an `@npub` mention, after
/// NIP-08 mentions are expanded), whose profile is neither known nor being
/// fetched, is among the profiles that asking for references fetches.
pub proof fn law_mentioned_profiles_are_fetched(app: AppView, i: int, j: int, key: Seq<char>)
    requires
        app.active().selection < app.active().items.len(),
        viewport_start(app.active().selection) <= i < viewport_end(app.active().selection, app.active().items.len() as int),
        0 <= j < entities_from(
            expansion_from(
                shown_event(app, app.active().items[i]).0.content,
                0,
                shown_event(app, app.active().items[i]).0.tags,
            ),
            0,
        ).len(),
        entities_from(
            expansion_from(
                shown_event(app, app.active().items[i]).0.content,
                0,
                shown_event(app, app.active().items[i]).0.tags,
            ),
            0,
        )[j].kind == EntityKindView::Pubkey(key),
        !app.profiles.contains_key(key),
        !app.pending_profiles.contains(key),
    ensures
        requested_profile_keys(app).contains(key),
{
    let t = app.active();
    let start = viewport_start(t.selection);
    let end = viewport_end(t.selection, t.items.len() as int);
    let s = t.items.subrange(start, end);
    lemma_refs_of_events_fetch(app, s);
    assert(s[i - start] == t.items[i]);
}

/// The profiles that the references near the selection ask for.
pub open spec fn requested_profile_keys(app: AppView) -> Seq<Seq<char>> {
    let t = app.active();
    if t.items.len() == 0 {
        seq![]
    } else {
        refs_of_events(app, t.items.subrange(viewport_start(t.selection), viewport_end(t.selection, t.items.len() as int))).pubkeys
    }
}

/// The events that the references near the selection ask for.
pub open spec fn requested_event_ids(app: AppView) -> Seq<Seq<char>> {
    let t = app.active();
    if t.items.len() == 0 {
        seq![]
    } else {
        let g = refs_of_events(app, t.items.subrange(viewport_start(t.selection), viewport_end(t.selection, t.items.len() as int)));
        let available = crate::timeline::saturating_sub(MAX_PENDING_REFERENCES as int, app.pending_references.len() as int);
        if g.ids.len() <= available {
            g.ids
        } else {
            g.ids.take(available)
        }
    }
}

/// Asking for references fetches each profile and event once, only those
/// neither known nor asked for before, at most `MAX_PENDING_REFERENCES`
/// events pending in all; it records what it asks for and leaves the
/// timelines and the selection alone.
pub proof fn law_references_are_fetched_once(app: AppView)
    ensures
        reference_requests(app).1 == requested_profile_keys(app).map_values(|k: Seq<char>| CommandView::FetchProfile(k))
            + requested_event_ids(app).map_values(|i: Seq<char>| CommandView::FetchEvent(i)),
        requested_event_ids(app).no_duplicates(),
        requested_event_ids(app).len() <= crate::timeline::saturating_sub(
            MAX_PENDING_REFERENCES as int,
            app.pending_references.len() as int,
        ),
        forall|i: int| 0 <= i < requested_event_ids(app).len() ==> {
            let id = #[trigger] requested_event_ids(app)[i];
            &&& !app.referenced.contains_key(id)
            &&& global_event(app, id) is None
            &&& !app.requested_references.contains(id)
            &&& reference_requests(app).0.requested_references.contains(id)
            &&& reference_requests(app).0.pending_references.contains(id)
        },
        requested_profile_keys(app).no_duplicates(),
        forall|i: int| 0 <= i < requested_profile_keys(app).len() ==> {
            let k = #[trigger] requested_profile_keys(app)[i];
            &&& !app.profiles.contains_key(k)
            &&& !app.pending_profiles.contains(k)
            &&& reference_requests(app).0.pending_profiles.contains(k)
        },
        reference_requests(app).0.global_timeline == app.global_timeline,
        reference_requests(app).0.following_timeline == app.following_timeline,
        reference_requests(app).0.referenced == app.referenced,
        reference_requests(app).0.profiles == app.profiles,
{
    let t = app.active();
    if t.items.len() > 0 {
        let s = t.items.subrange(viewport_start(t.selection), viewport_end(t.selection, t.items.len() as int));
        lemma_refs_of_events_fresh(app, s);
        let g = refs_of_events(app, s);
        let ids = requested_event_ids(app);
        let after = reference_requests(app).0;
        assert forall|i: int| 0 <= i < ids.len() implies {
            let id = #[trigger] ids[i];
            &&& !app.referenced.contains_key(id)
            &&& global_event(app, id) is None
            &&& !app.requested_references.contains(id)
            &&& after.requested_references.contains(id)
            &&& after.pending_references.contains(id)
        } by {
            assert(ids[i] == g.ids[i]);
            assert(ids.to_set().contains(ids[i]));
        }
        assert forall|i: int| 0 <= i < g.pubkeys.len() implies #[trigger] after.pending_profiles.contains(g.pubkeys[i]) by {
            assert(g.pubkeys.to_set().contains(g.pubkeys[i]));
        }
        if g.ids.len() > ids.len() {
            assert forall|a: int, b: int| 0 <= a < b < ids.len() implies ids[a] != ids[b] by {
                assert(ids[a] == g.ids[a] && ids[b] == g.ids[b]);
            }
        }
    }
}

/// Gathered references.
struct RefGatherer {
    ids: Vec<String>,
    pubkeys: Vec<String>,
    unique: TextSet,
    unique_pubkeys: TextSet,
}

impl RefGatherer {
    /// What has been gathered.
    spec fn state(&self) -> RefGather {
        RefGather {
            ids: self.ids.deep_view(),
            pubkeys: self.pubkeys.deep_view(),
            unique: self.unique.contents(),
            unique_pubkeys: self.unique_pubkeys.contents(),
        }
    }
}

impl App {
    /// Considers fetching the profile of `key`.
    fn consider_pubkey(&self, g: &mut RefGatherer, key: &String)
        ensures
            final(g).state() == consider_pubkey(self@, old(g).state(), key@),
    {
        let ghost before = g.state();
        if g.unique_pubkeys.insert(key.clone()) {
            if !self.profiles.contains_key(key) && !self.pending_profiles.contains(key) {
                g.pubkeys.push(key.clone());
                assert(g.state().pubkeys =~= before.pubkeys.push(key@));
            }
        } else {
            assert(before.unique_pubkeys.insert(key@) =~= before.unique_pubkeys);
        }
    }

    /// Whether the global timeline holds an event with id `id`.
    fn in_global_timeline(&self, id: &String) -> (r: bool)
        ensures
            r == (global_event(self@, id@) is Some),
    {
        find_event(self.global_timeline.events(), id).is_some()
    }

    /// Considers fetching the event `id`.
    fn consider_id(&self, g: &mut RefGatherer, id: &String)
        ensures
            final(g).state() == consider_id(self@, old(g).state(), id@),
    {
        let ghost before = g.state();
        if g.unique.insert(id.clone()) {
            if !self.referenced_events.contains_key(id) && !self.in_global_timeline(id)
                && !self.requested_references.contains(id) {
                g.ids.push(id.clone());
                assert(g.state().ids =~= before.ids.push(id@));
            }
        } else {
            assert(before.unique.insert(id@) =~= before.unique);
        }
    }

    /// Considers the references of content entities.
    fn consider_entities(&self, g: &mut RefGatherer, entities: &Vec<crate::entities::ContentEntity>)
        ensures
            final(g).state() == consider_entities(self@, old(g).state(), entity_views(entities@)),
    {
        let ghost all = entity_views(entities@);
        let mut i: usize = 0;
        assert(all.take(0) =~= Seq::<ContentEntityView>::empty());
        while i < entities.len()
            invariant
                i <= entities.len(),
                all == entity_views(entities@),
                g.state() == consider_entities(self@, old(g).state(), all.take(i as int)),
            decreases entities.len() - i,
        {
            assert(all.take(i + 1).drop_last() =~= all.take(i as int));
            assert(all.take(i + 1).last() == entities@[i as int]@);
            match &entities[i].kind {
                EntityKind::Event(id) => self.consider_id(g, id),
                EntityKind::Pubkey(k) => self.consider_pubkey(g, k),
            }
            i = i + 1;
        }
        assert(all.take(i as int) =~= all);
    }

    /// Gathers the references of one timeline event.
    fn refs_of_event(&self, g: &mut RefGatherer, event: &Event)
        ensures
            final(g).state() == refs_of_event(self@, old(g).state(), event@),
    {
        let display = self.display_event(event);
        self.consider_pubkey(g, &display.event.pubkey);
        match &display.reposted_by {
            Some(k) => self.consider_pubkey(g, k),
            None => {},
        }
        if is_repost(event) && display.event.id == event.id {
            match repost_target_id(event) {
                Some(id) => self.consider_id(g, &id),
                None => {},
            }
        }
        match reply_target_id(&display.event) {
            Some(id) => self.consider_id(g, &id),
            None => {},
        }
        let expanded = expand_mentions(display.event.content.as_str(), &display.event.tags);
        let entities = content_entities(&chars_of(expanded.as_str()));
        self.consider_entities(g, &entities);
    }

    /// Asks for the profiles and referenced events near the selection that
    /// are neither known nor being fetched, without adding referenced events
    /// to a timeline; at most `MAX_PENDING_REFERENCES` events are pending.
    pub fn reference_commands(&mut self) -> (r: Vec<Command>)
        requires
            old(self).well_formed(),
        ensures
            final(self).well_formed(),
            final(self)@ == reference_requests(old(self)@).0,
            command_views(r@) == reference_requests(old(self)@).1,
    {
        let pending_count = self.pending_references.len();
        let available: usize = if pending_count < MAX_PENDING_REFERENCES {
            MAX_PENDING_REFERENCES - pending_count
        } else {
            0
        };
        let len = self.timeline().len();
        if len == 0 {
            let none: Vec<Command> = Vec::new();
            assert(command_views(none@) =~= Seq::<CommandView>::empty());
            return none;
        }
        let selected = self.selected_index();
        let start: usize = if selected >= VIEWPORT_RADIUS {
            selected - VIEWPORT_RADIUS
        } else {
            0
        };
        let end: usize = if len - selected > VIEWPORT_RADIUS + 1 {
            selected + VIEWPORT_RADIUS + 1
        } else {
            len
        };
        let ghost app = self@;
        let ghost window = app.active().items.subrange(start as int, end as int);
        let mut g = RefGatherer { ids: Vec::new(), pubkeys: Vec::new(), unique: TextSet::new(), unique_pubkeys: TextSet::new() };
        assert(g.state().ids =~= Seq::<Seq<char>>::empty());
        assert(g.state().pubkeys =~= Seq::<Seq<char>>::empty());
        assert(window.take(0) =~= Seq::<EventView>::empty());
        let mut i: usize = start;
        while i < end
            invariant
                start <= i <= end <= len,
                len == app.active().items.len(),
                self@ == app,
                window == app.active().items.subrange(start as int, end as int),
                g.state() == refs_of_events(app, window.take(i - start)),
            decreases end - i,
        {
            let events = self.timeline();
            assert(window.take(i - start + 1).drop_last() =~= window.take(i - start));
            assert(crate::timeline::views(events@)[i as int] == events@[i as int]@);
            assert(window.take(i - start + 1).last() == events@[i as int]@);
            self.refs_of_event(&mut g, &events[i]);
            i = i + 1;
        }
        assert(window.take(end - start) =~= window);
        let ghost gathered = g.state();
        let mut commands: Vec<Command> = Vec::new();
        let mut k: usize = 0;
        assert(gathered.pubkeys.take(0).to_set() =~= Set::<Seq<char>>::empty());
        assert(app.pending_profiles + Set::<Seq<char>>::empty() =~= app.pending_profiles);
        while k < g.pubkeys.len()
            invariant
                k <= g.pubkeys.len(),
                gathered.pubkeys == g.pubkeys.deep_view(),
                self.well_formed(),
                self@ == (AppView { pending_profiles: app.pending_profiles + gathered.pubkeys.take(k as int).to_set(), ..app }),
                command_views(commands@) == gathered.pubkeys.take(k as int).map_values(|key: Seq<char>| CommandView::FetchProfile(key)),
            decreases g.pubkeys.len() - k,
        {
            let key = g.pubkeys[k].clone();
            let ghost before = commands@;
            let ghost pk = gathered.pubkeys.take(k as int);
            self.pending_profiles.insert(key.clone());
            commands.push(Command::FetchProfile(key));
            proof {
                assert(gathered.pubkeys.take(k + 1) =~= pk.push(gathered.pubkeys[k as int]));
                pk.lemma_push_to_set_commute(gathered.pubkeys[k as int]);
                assert(app.pending_profiles + gathered.pubkeys.take(k + 1).to_set() =~= (app.pending_profiles
                    + pk.to_set()).insert(gathered.pubkeys[k as int]));
                assert(command_views(commands@) =~= command_views(before).push(
                    CommandView::FetchProfile(gathered.pubkeys[k as int]),
                ));
            }
            k = k + 1;
        }
        assert(gathered.pubkeys.take(k as int) =~= gathered.pubkeys);
        let ghost profiles_done = commands@;
        let ghost mid = self@;
        let limit: usize = if g.ids.len() <= available {
            g.ids.len()
        } else {
            available
        };
        let ghost taken = gathered.ids.take(limit as int);
        let mut j: usize = 0;
        assert(taken.take(0).to_set() =~= Set::<Seq<char>>::empty());
        assert(mid.requested_references + Set::<Seq<char>>::empty() =~= mid.requested_references);
        assert(mid.pending_references + Set::<Seq<char>>::empty() =~= mid.pending_references);
        while j < limit
            invariant
                j <= limit <= g.ids.len(),
                gathered.ids == g.ids.deep_view(),
                taken == gathered.ids.take(limit as int),
                self.well_formed(),
                self@ == (AppView {
                    requested_references: mid.requested_references + taken.take(j as int).to_set(),
                    pending_references: mid.pending_references + taken.take(j as int).to_set(),
                    ..mid
                }),
                command_views(commands@) == command_views(profiles_done) + taken.take(j as int).map_values(
                    |i: Seq<char>| CommandView::FetchEvent(i),
                ),
            decreases limit - j,
        {
            let id = g.ids[j].clone();
            let ghost before = commands@;
            let ghost tk = taken.take(j as int);
            assert(taken[j as int] == gathered.ids[j as int]);
            self.requested_references.insert(id.clone());
            self.pending_references.insert(id.clone());
            commands.push(Command::FetchEvent(id));
            proof {
                assert(taken.take(j + 1) =~= tk.push(taken[j as int]));
                tk.lemma_push_to_set_commute(taken[j as int]);
                assert(mid.requested_references + taken.take(j + 1).to_set() =~= (mid.requested_references
                    + tk.to_set()).insert(taken[j as int]));
                assert(mid.pending_references + taken.take(j + 1).to_set() =~= (mid.pending_references
                    + tk.to_set()).insert(taken[j as int]));
                assert(command_views(commands@) =~= command_views(before).push(CommandView::FetchEvent(taken[j as int])));
                assert(taken.take(j + 1).map_values(|i: Seq<char>| CommandView::FetchEvent(i)) =~= tk.map_values(
                    |i: Seq<char>| CommandView::FetchEvent(i),
                ).push(CommandView::FetchEvent(taken[j as int])));
            }
            j = j + 1;
        }
        assert(taken.take(j as int) =~= taken);
        proof {
            if gathered.ids.len() <= available {
                assert(gathered.ids.take(gathered.ids.len() as int) =~= gathered.ids);
            }
            assert(available == crate::timeline::saturating_sub(
                MAX_PENDING_REFERENCES as int,
                app.pending_references.len() as int,
            ));
        }
        commands
    }
}

/// The client with the image `key` for `url` marked as recently used, when drawable.
pub open spec fn image_touched(app: AppView, key: Seq<char>, url: Seq<char>) -> AppView {
    if crate::cache::entry_ready(app.images.cached, key, url) {
        AppView {
            images: crate::cache::ImageCacheView { cached: crate::cache::touched(app.images.cached, key), ..app.images },
            ..app
        }
    } else {
        app
    }
}

/// The avatar url of the key `pubkey`, from its profile.
pub open spec fn avatar_url(app: AppView, pubkey: Seq<char>) -> Option<Seq<char>> {
    if app.profiles.contains_key(pubkey) {
        opt_text(app.profiles[pubkey].picture)
    } else {
        None
    }
}

impl App {
    /// Whether images are shown.
    pub fn kitty_images_enabled(&self) -> (r: bool)
        ensures
            r == self@.images.enabled,
    {
        self.images.is_enabled()
    }

    /// The drawable image the image cache keeps for `key`.
    pub closed spec fn drawable_image(&self, key: Seq<char>) -> ratatui_image::protocol::StatefulProtocol {
        self.images.drawable(key)
    }

    /// The drawable avatar of the key with hex form `pubkey`.
    pub fn avatar_protocol_mut(&mut self, pubkey: &String) -> (r: Option<&mut ratatui_image::protocol::StatefulProtocol>)
        requires
            old(self).well_formed(),
        ensures
            final(self).well_formed(),
            match avatar_url(old(self)@, pubkey@) {
                Some(url) => r is Some == crate::cache::entry_ready(old(self)@.images.cached, avatar_key(pubkey@), url)
                    && final(self)@ == image_touched(old(self)@, avatar_key(pubkey@), url),
                None => r is None && final(self)@ == old(self)@,
            },
            r matches Some(p) ==> *p == old(self).drawable_image(avatar_key(pubkey@)),
    {
        let url = match self.profiles.get(pubkey) {
            Some(profile) => match &profile.picture {
                Some(url) => url.clone(),
                None => {
                    return None;
                },
            },
            None => {
                return None;
            },
        };
        let key = avatar_image_key(pubkey.as_str());
        self.images.protocol_mut(key.as_str(), url.as_str())
    }

    /// Whether the image of a custom emoji can be drawn.
    pub fn custom_emoji_ready(&self, emoji: &crate::emoji::CustomEmoji) -> (r: bool)
        ensures
            r == crate::cache::entry_ready(self@.images.cached, emoji_key(emoji@.url), emoji@.url),
    {
        let key = emoji_image_key(emoji.url.as_str());
        self.images.has_protocol(key.as_str(), emoji.url.as_str())
    }

    /// The drawable image of a custom emoji.
    pub fn custom_emoji_protocol_mut(&mut self, emoji: &crate::emoji::CustomEmoji) -> (r: Option<&mut ratatui_image::protocol::StatefulProtocol>)
        requires
            old(self).well_formed(),
        ensures
            final(self).well_formed(),
            r is Some == crate::cache::entry_ready(old(self)@.images.cached, emoji_key(emoji@.url), emoji@.url),
            final(self)@ == image_touched(old(self)@, emoji_key(emoji@.url), emoji@.url),
            r matches Some(p) ==> *p == old(self).drawable_image(emoji_key(emoji@.url)),
    {
        let key = emoji_image_key(emoji.url.as_str());
        self.images.protocol_mut(key.as_str(), emoji.url.as_str())
    }

    /// The preview size of a post image scaled into `max_width` by
    /// `max_height` cells, once it is drawable.
    pub fn post_image_preview_size(&self, url: &str, max_width: u16, max_height: u16) -> (r: Option<(u16, u16)>)
        requires
            self.well_formed(),
        ensures
            r == if crate::cache::entry_ready(self@.images.cached, post_key(url@), url@) {
                Some(crate::cache::preview_cells(self@.images, post_key(url@), max_width, max_height))
            } else {
                None
            },
    {
        let key = post_image_key(url);
        self.images.preview_size(key.as_str(), url, max_width, max_height)
    }

    /// The drawable preview of a post image.
    pub fn post_image_protocol_mut(&mut self, url: &str) -> (r: Option<&mut ratatui_image::protocol::StatefulProtocol>)
        requires
            old(self).well_formed(),
        ensures
            final(self).well_formed(),
            r is Some == crate::cache::entry_ready(old(self)@.images.cached, post_key(url@), url@),
            final(self)@ == image_touched(old(self)@, post_key(url@), url@),
            r matches Some(p) ==> *p == old(self).drawable_image(post_key(url@)),
    {
        let key = post_image_key(url);
        self.images.protocol_mut(key.as_str(), url)
    }

    /// The size of a post image in the detail view, once it is drawable.
    pub fn detail_post_image_preview_size(&self, url: &str, max_width: u16, max_height: u16) -> (r: Option<(u16, u16)>)
        requires
            self.well_formed(),
        ensures
            r == if crate::cache::entry_ready(self@.images.cached, detail_key(url@), url@) {
                Some(crate::cache::preview_cells(self@.images, detail_key(url@), max_width, max_height))
            } else {
                None
            },
    {
        let key = detail_image_key(url);
        self.images.preview_size(key.as_str(), url, max_width, max_height)
    }

    /// The drawable post image for the detail view.
    pub fn detail_post_image_protocol_mut(&mut self, url: &str) -> (r: Option<&mut ratatui_image::protocol::StatefulProtocol>)
        requires
            old(self).well_formed(),
        ensures
            final(self).well_formed(),
            r is Some == crate::cache::entry_ready(old(self)@.images.cached, detail_key(url@), url@),
            final(self)@ == image_touched(old(self)@, detail_key(url@), url@),
            r matches Some(p) ==> *p == old(self).drawable_image(detail_key(url@)),
    {
        let key = detail_image_key(url);
        self.images.protocol_mut(key.as_str(), url)
    }

    /// Hands out the Kitty ids of dropped images for deletion.
    pub fn take_deleted_image_ids(&mut self) -> (r: Vec<u32>)
        requires
            old(self).well_formed(),
        ensures
            final(self).well_formed(),
            r@ == old(self)@.images.released,
            final(self)@ == (AppView {
                images: crate::cache::ImageCacheView { released: seq![], ..old(self)@.images },
                ..old(self)@
            }),
    {
        self.images.take_deleted_ids()
    }

    /// Drops every cached image and pending download.
    pub fn clear_images(&mut self)
        requires
            old(self).well_formed(),
        ensures
            final(self).well_formed(),
            final(self)@ == (AppView {
                images: crate::cache::ImageCacheView {
                    cached: seq![],
                    in_flight: seq![],
                    released: old(self)@.images.released + crate::cache::all_ids(old(self)@.images.cached),
                    ..old(self)@.images
                },
                ..old(self)@
            }),
    {
        self.images.clear();
    }
}


/// Every event of the following timeline is by a followed key.
pub open spec fn only_followed(app: AppView) -> bool {
    forall|i: int| 0 <= i < app.following_timeline.items.len()
        ==> app.following.contains(#[trigger] app.following_timeline.items[i].pubkey)
}

proof fn lemma_by_followed(s: Seq<EventView>, following: Set<Seq<char>>)
    ensures
        forall|i: int| 0 <= i < by_followed(s, following).len()
            ==> following.contains(#[trigger] by_followed(s, following)[i].pubkey),
    decreases s.len(),
{
    if s.len() > 0 {
        lemma_by_followed(s.drop_last(), following);
        let prev = by_followed(s.drop_last(), following);
        let b = by_followed(s, following);
        assert forall|i: int| 0 <= i < b.len() implies following.contains(#[trigger] b[i].pubkey) by {
            if i < prev.len() {
                assert(b[i] == prev[i]);
            }
        }
    }
}

proof fn lemma_same_members(a: Seq<EventView>, b: Seq<EventView>, following: Set<Seq<char>>)
    requires
        a.to_multiset() == b.to_multiset(),
        forall|i: int| 0 <= i < b.len() ==> following.contains(#[trigger] b[i].pubkey),
    ensures
        forall|i: int| 0 <= i < a.len() ==> following.contains(#[trigger] a[i].pubkey),
{
    assert forall|i: int| 0 <= i < a.len() implies following.contains(#[trigger] a[i].pubkey) by {
        a.to_multiset_ensures();
        b.to_multiset_ensures();
        assert(a.to_multiset().count(a[i]) > 0);
        assert(b.contains(a[i]));
        let j = choose|j: int| 0 <= j < b.len() && b[j] == a[i];
        assert(following.contains(b[j].pubkey));
    }
}

/// The following timeline only ever holds events by followed keys: whatever
/// the network reports, an event by another key is never routed there, and a
/// new follow list rebuilds it from the followed keys' events.
pub proof fn law_following_timeline_holds_only_followed_authors(
    app: AppView,
    message: UiEvent,
    after: AppView,
    command: Option<CommandView>,
)
    requires
        crate::timeline::newest_first(app.following_timeline.items),
        only_followed(app),
        ui_event_outcome(app, message, after, command),
    ensures
        only_followed(after),
{
    match message {
        UiEvent::Event(event, metadata) => {
            let e = event@;
            if !app.seen.contains(e.id) && e.kind == crate::event::KIND_REACTION
                && crate::nostr_calls::first_event_id_of(e.tags) is Some {
            } else if app.seen.contains(e.id) || e.kind == crate::event::KIND_METADATA {
            } else if e.kind == crate::event::KIND_TEXT_NOTE || is_repost_spec(e) {
                if app.following.contains(e.pubkey) {
                    let s = app.following_timeline.items;
                    crate::timeline::lemma_insert_newest(s, e);
                    let t = crate::timeline::insert_newest(s, e);
                    s.to_multiset_ensures();
                    assert forall|i: int| 0 <= i < t.len() implies app.following.contains(#[trigger] t[i].pubkey) by {
                        t.to_multiset_ensures();
                        assert(t.to_multiset().count(t[i]) > 0);
                        if t[i] != e {
                            assert(s.to_multiset().count(t[i]) > 0);
                            let j = choose|j: int| 0 <= j < s.len() && s[j] == t[i];
                            assert(app.following.contains(s[j].pubkey));
                        }
                    }
                }
            }
        },
        UiEvent::FollowList(keys) => {
            let f = key_set(keys.deep_view());
            let b = by_followed(app.global_timeline.items, f);
            lemma_by_followed(app.global_timeline.items, f);
            crate::timeline::lemma_sort_newest(b);
            lemma_same_members(crate::timeline::sort_newest(b), b, f);
        },
        _ => {},
    }
}

/// An event is shown and counted once: reporting an event a second time, as
/// when a relay echoes a note or reaction that was just published, changes
/// nothing and asks for nothing.
pub proof fn law_event_is_shown_once(
    app: AppView,
    e: EventView,
    metadata: Option<Profile>,
    once: AppView,
    first: Option<CommandView>,
    again_metadata: Option<Profile>,
    twice: AppView,
    second: Option<CommandView>,
)
    requires
        event_added(app, e, metadata, once, first),
        event_added(once, e, again_metadata, twice, second),
    ensures
        once.seen.contains(e.id),
        twice == once,
        second is None,
{
}

/// No note or repost is dropped: the first report of one adds it once to the
/// global timeline, which stays newest first and keeps every earlier event,
/// and to the following timeline exactly when its author is followed.
pub proof fn law_note_joins_the_timelines(
    app: AppView,
    e: EventView,
    metadata: Option<Profile>,
    after: AppView,
    command: Option<CommandView>,
)
    requires
        crate::timeline::newest_first(app.global_timeline.items),
        crate::timeline::newest_first(app.following_timeline.items),
        !app.seen.contains(e.id),
        e.kind == crate::event::KIND_TEXT_NOTE || is_repost_spec(e),
        event_added(app, e, metadata, after, command),
    ensures
        after.seen.contains(e.id),
        crate::timeline::newest_first(after.global_timeline.items),
        after.global_timeline.items.to_multiset() == app.global_timeline.items.to_multiset().insert(e),
        app.following.contains(e.pubkey) ==> crate::timeline::newest_first(after.following_timeline.items),
        app.following.contains(e.pubkey) ==> after.following_timeline.items.to_multiset()
            == app.following_timeline.items.to_multiset().insert(e),
        !app.following.contains(e.pubkey) ==> after.following_timeline.items == app.following_timeline.items,
{
    crate::timeline::lemma_insert_newest(app.global_timeline.items, e);
    crate::timeline::lemma_insert_newest(app.following_timeline.items, e);
}

/// In the timeline, `m` opens the settings modal and `m` closes it again,
/// leaving the client as it was.
pub proof fn law_settings_key_toggles_modal(app: AppView, key: Key)
    requires
        app.mode is Normal,
        !app.settings_open,
        key.code == KeyCode::Char('m'),
        !key.release,
    ensures
        key_spec(app, key).0.settings_open,
        key_spec(app, key).1 is None,
        key_spec(key_spec(app, key).0, key).0 == app,
        key_spec(key_spec(app, key).0, key).1 is None,
{
}


/// Whether a command publishes something: a note, a reaction or a repost.
pub open spec fn sends_event(c: Option<CommandView>) -> bool {
    match c {
        Some(CommandView::Publish { .. }) => true,
        Some(CommandView::React { .. }) => true,
        Some(CommandView::Repost(_)) => true,
        _ => false,
    }
}

/// A read-only client stays read-only and in the timeline whatever key is
/// pressed, and no key makes it publish a note, a reaction or a repost.
pub proof fn law_read_only_client_never_publishes(app: AppView, key: Key)
    requires
        app.read_only,
        app.mode is Normal,
    ensures
        key_spec(app, key).0.read_only,
        key_spec(app, key).0.mode is Normal,
        !sends_event(key_spec(app, key).1),
{
}

/// Nothing the network reports changes whether the client is read-only or
/// what the editor is doing.
pub proof fn law_reports_keep_the_editor(app: AppView, message: UiEvent, after: AppView, command: Option<CommandView>)
    requires
        ui_event_outcome(app, message, after, command),
    ensures
        after.read_only == app.read_only,
        after.mode == app.mode,
        after.input == app.input,
        !sends_event(command),
{
}

/// What the terminal reports, as far as the client reacts to it.
#[derive(Clone, Copy, Debug, PartialEq, Eq, Structural)]
pub enum TerminalInput {
    Key(Key),
    Resize,
    Other,
}

/// What a batch of terminal input did: whether the screen needs drawing,
/// whether to quit, and the commands for the network side, in order.
#[derive(Debug)]
pub struct TerminalEventBatch {
    pub needs_redraw: bool,
    pub quit: bool,
    pub commands: Vec<Command>,
}

/// A batch's progress as values.
pub struct BatchView {
    pub app: AppView,
    pub needs_redraw: bool,
    pub quit: bool,
    pub commands: Seq<CommandView>,
}

/// One terminal input applied to a batch: a key goes to the client (a quit
/// ends the batch, other commands are kept); a resize only asks for drawing.
pub open spec fn batch_step(b: BatchView, input: TerminalInput) -> BatchView {
    match input {
        TerminalInput::Key(key) => {
            let (app, command) = key_spec(b.app, key);
            match command {
                Some(CommandView::Quit) => BatchView { app, needs_redraw: true, quit: true, ..b },
                Some(c) => BatchView { app, needs_redraw: true, commands: b.commands.push(c), ..b },
                None => BatchView { app, needs_redraw: true, ..b },
            }
        },
        TerminalInput::Resize => BatchView { needs_redraw: true, ..b },
        TerminalInput::Other => b,
    }
}

/// The batch after the first `n` inputs, stopping at a quit.
pub open spec fn batch_after(app: AppView, inputs: Seq<TerminalInput>, n: int) -> BatchView
    decreases n,
{
    if n <= 0 {
        BatchView { app, needs_redraw: false, quit: false, commands: seq![] }
    } else {
        let b = batch_after(app, inputs, n - 1);
        if b.quit {
            b
        } else {
            batch_step(b, inputs[n - 1])
        }
    }
}

proof fn lemma_batch_stops(app: AppView, inputs: Seq<TerminalInput>, i: int, j: int)
    requires
        0 <= i <= j,
        batch_after(app, inputs, i).quit,
    ensures
        batch_after(app, inputs, j) == batch_after(app, inputs, i),
    decreases j - i,
{
    if i < j {
        lemma_batch_stops(app, inputs, i, j - 1);
    }
}

/// Applies a batch of terminal input in order, stopping at the first key
/// that quits.
pub fn apply_terminal_events(app: &mut App, events: Vec<TerminalInput>) -> (r: TerminalEventBatch)
    requires
        old(app).well_formed(),
        old(app)@.input.len() + events.len() < usize::MAX,
    ensures
        final(app).well_formed(),
        final(app)@ == batch_after(old(app)@, events@, events.len() as int).app,
        r.needs_redraw == batch_after(old(app)@, events@, events.len() as int).needs_redraw,
        r.quit == batch_after(old(app)@, events@, events.len() as int).quit,
        command_views(r.commands@) == batch_after(old(app)@, events@, events.len() as int).commands,
{
    let ghost start = app@;
    let mut batch = TerminalEventBatch { needs_redraw: false, quit: false, commands: Vec::new() };
    let mut i: usize = 0;
    assert(command_views(batch.commands@) =~= Seq::<CommandView>::empty());
    while i < events.len()
        invariant
            app.well_formed(),
            i <= events.len(),
            start == old(app)@,
            start.input.len() + events.len() < usize::MAX,
            app@.input.len() <= start.input.len() + i,
            !batch.quit,
            app@ == batch_after(start, events@, i as int).app,
            batch.needs_redraw == batch_after(start, events@, i as int).needs_redraw,
            !batch_after(start, events@, i as int).quit,
            command_views(batch.commands@) == batch_after(start, events@, i as int).commands,
        decreases events.len() - i,
    {
        let input = events[i];
        match input {
            TerminalInput::Key(key) => {
                batch.needs_redraw = true;
                let command = app.on_key(key);
                match command {
                    Some(c) => {
                        let quit = match c {
                            Command::Quit => true,
                            _ => false,
                        };
                        if quit {
                            batch.quit = true;
                            proof {
                                lemma_batch_stops(start, events@, i + 1, events.len() as int);
                            }
                            return batch;
                        }
                        let ghost before = batch.commands@;
                        batch.commands.push(c);
                        assert(command_views(batch.commands@) =~= command_views(before).push(c@));
                    },
                    None => {},
                }
            },
            TerminalInput::Resize => {
                batch.needs_redraw = true;
            },
            TerminalInput::Other => {},
        }
        i = i + 1;
    }
    batch
}

} // verus!
