# nostr_ratatui

A terminal Nostr client with Vim-style keys, whose core is written in Verus
and proved against its contracts.

`src/` is the verified library:

- `app` — the client state: timelines, profiles, reactions, references, the
  editor and the keys; what every key and every network report does
  (`key_spec`, `ui_event_outcome`), and the commands it sends back.
- `timeline` — newest-first timelines that keep the selected note while paused.
- `cache` — the bounded Kitty image cache and the image ids it frees.
- `editor` — grapheme-aware cursor moves and hard wrapping by terminal width.
- `layout`, `chrome` — what goes on each row of the screen, and the texts
  around the timeline.
- `mentions`, `publish`, `emoji`, `entities`, `media`, `threads`, `reactions`,
  `present` — NIP-08/NIP-19/NIP-21 mentions, NIP-30 custom emoji, image links,
  reply threading, NIP-25 reaction tallies, and short presentation rules.
- `nostr_calls` — the calls into `nostr-sdk` that the rules rest on.

Keyed collections. The client's maps and sets keyed by text (`keyed`:
`TextMap`, `TextSet`, `PairSet`) are lists with distinct keys rather than
std's `HashMap` and `HashSet`: vstd specifies those only for keys that obey
its hashing key model, which it grants to integers, booleans and boxes of
them but not to `String`, so with text keys nothing could be said of their
contents. For the same reason the image cache (`cache`) keeps its entries,
keyed by text, in one list in recency order instead of a text-keyed
`HashMap` beside a `VecDeque` of keys; the list stands for both, with each
key once and the least recently used first, as part of its invariant.

`app/` is the program around it: arguments, the terminal, the relay
connections and downloads, and drawing with ratatui.

Keys: `j`/`k` move, `g`/`G` top and bottom, `l`/`Enter` open the detail view,
`h`/`Esc` close it, `i`/`o` write a note, `r` reply, `f` like, `e` react with
an emoji, `R` repost, `m` settings, `Tab`/`1`/`2` switch timelines, `Ctrl-S`
send, `q` quit. Without `NOSTR_SECRET_KEY` the client is read-only.
