//! NIP-25 reaction tallies for one event.

use vstd::prelude::*;

use crate::emoji::{emoji_views, CustomEmoji, CustomEmojiView};
use crate::present::{decimal, push_decimal};
use crate::media::char_rows;
use crate::text::{chars_of, push_all, string_of};

verus! {

/// `a` sorts before `b`: characters compared by code point, a proper prefix first.
pub open spec fn lex_lt(a: Seq<char>, b: Seq<char>) -> bool
    decreases a.len(),
{
    if a.len() == 0 {
        b.len() > 0
    } else if b.len() == 0 {
        false
    } else if a[0] != b[0] {
        a[0] < b[0]
    } else {
        lex_lt(a.skip(1), b.skip(1))
    }
}

/// `lex_lt` is irreflexive and transitive, and any two distinct sequences are ordered.
pub proof fn lemma_lex_order(a: Seq<char>, b: Seq<char>, c: Seq<char>)
    ensures
        !lex_lt(a, a),
        lex_lt(a, b) && lex_lt(b, c) ==> lex_lt(a, c),
        a != b ==> lex_lt(a, b) || lex_lt(b, a),
        lex_lt(a, b) ==> !lex_lt(b, a),
    decreases a.len(),
{
    if a.len() > 0 {
        lemma_lex_order(a.skip(1), a.skip(1), a.skip(1));
    }
    if a.len() > 0 && b.len() > 0 && c.len() > 0 {
        lemma_lex_order(a.skip(1), b.skip(1), c.skip(1));
    }
    if a.len() > 0 && b.len() > 0 {
        lemma_lex_order(a.skip(1), b.skip(1), b.skip(1));
        if a != b && a[0] == b[0] {
            if a.skip(1) == b.skip(1) {
                assert(a =~= seq![a[0]] + a.skip(1));
                assert(b =~= seq![b[0]] + b.skip(1));
            }
        }
    } else if a.len() == 0 && b.len() == 0 {
        assert(a =~= b);
    }
}

/// `s` compares by code point.
fn lex_lt_exec(a: &Vec<char>, b: &Vec<char>) -> (r: bool)
    ensures
        r == lex_lt(a@, b@),
{
    let mut i: usize = 0;
    assert(a@.skip(0) =~= a@);
    assert(b@.skip(0) =~= b@);
    while i < a.len() && i < b.len() && a[i] == b[i]
        invariant
            i <= a.len(),
            i <= b.len(),
            lex_lt(a@, b@) == lex_lt(a@.skip(i as int), b@.skip(i as int)),
        decreases a.len() - i,
    {
        assert(a@.skip(i as int).skip(1) =~= a@.skip(i + 1));
        assert(b@.skip(i as int).skip(1) =~= b@.skip(i + 1));
        i = i + 1;
    }
    if i == a.len() {
        i < b.len()
    } else if i == b.len() {
        false
    } else {
        a[i] < b[i]
    }
}

/// A tally entry: a custom reaction and how many times it was given.
#[derive(Clone, Debug)]
pub struct CustomCount {
    pub reaction: String,
    pub count: usize,
}

/// The counts of reactions to one event.
#[derive(Clone, Debug)]
pub struct Reactions {
    likes: usize,
    dislikes: usize,
    custom: Vec<CustomCount>,
    custom_emojis: Vec<CustomEmoji>,
}

/// The custom tallies as (reaction, count) pairs.
pub open spec fn custom_view(v: Seq<CustomCount>) -> Seq<(Seq<char>, nat)> {
    v.map_values(|c: CustomCount| (c.reaction@, c.count as nat))
}

/// Custom tallies are listed once each, in increasing reaction order.
pub open spec fn sorted_tally(t: Seq<(Seq<char>, nat)>) -> bool {
    forall|i: int, j: int| 0 <= i < j < t.len() ==> lex_lt(#[trigger] t[i].0, #[trigger] t[j].0)
}

/// The count for `reaction` in a tally (zero when absent).
pub open spec fn tally_count(t: Seq<(Seq<char>, nat)>, reaction: Seq<char>) -> nat
    decreases t.len(),
{
    if t.len() == 0 {
        0
    } else if t.last().0 == reaction {
        t.last().1
    } else {
        tally_count(t.drop_last(), reaction)
    }
}

/// The characters `+`.
pub open spec fn plus() -> Seq<char> {
    seq!['+']
}

/// The characters `-`.
pub open spec fn minus() -> Seq<char> {
    seq!['-']
}

/// What a reaction's content counts as: `+` and the empty content are likes,
/// `-` is a dislike, anything else is a custom reaction.
pub enum ReactionClass {
    Like,
    Dislike,
    Custom,
}

/// The class of a reaction content.
pub open spec fn classify(value: Seq<char>) -> ReactionClass {
    if value == plus() || value.len() == 0 {
        ReactionClass::Like
    } else if value == minus() {
        ReactionClass::Dislike
    } else {
        ReactionClass::Custom
    }
}

/// The summary line: `+likes` when there are likes, `-dislikes` when there are
/// dislikes, then each custom reaction with its count, in reaction order,
/// separated by single spaces.
pub open spec fn summary_items(likes: nat, dislikes: nat, t: Seq<(Seq<char>, nat)>) -> Seq<Seq<char>> {
    let head: Seq<Seq<char>> = if likes > 0 {
        seq![plus() + decimal(likes)]
    } else {
        seq![]
    };
    let head2: Seq<Seq<char>> = if dislikes > 0 {
        head.push(minus() + decimal(dislikes))
    } else {
        head
    };
    head2 + t.map_values(|e: (Seq<char>, nat)| e.0 + decimal(e.1))
}

/// Items joined with single spaces.
pub open spec fn join_spaced(items: Seq<Seq<char>>) -> Seq<char>
    decreases items.len(),
{
    if items.len() == 0 {
        seq![]
    } else if items.len() == 1 {
        items[0]
    } else {
        join_spaced(items.drop_last()) + seq![' '] + items.last()
    }
}

impl Reactions {
    /// The custom tallies in reaction order.
    pub closed spec fn tally(&self) -> Seq<(Seq<char>, nat)> {
        custom_view(self.custom@)
    }

    /// The emoji that custom reactions use.
    pub closed spec fn emojis(&self) -> Seq<CustomEmojiView> {
        emoji_views(self.custom_emojis@)
    }

    /// The number of likes.
    pub closed spec fn like_count(&self) -> nat {
        self.likes as nat
    }

    /// The number of dislikes.
    pub closed spec fn dislike_count(&self) -> nat {
        self.dislikes as nat
    }

    /// The number of likes.
    pub fn likes(&self) -> (r: usize)
        ensures
            r == self.like_count(),
    {
        self.likes
    }

    /// The number of dislikes.
    pub fn dislikes(&self) -> (r: usize)
        ensures
            r == self.dislike_count(),
    {
        self.dislikes
    }

    /// The emoji that custom reactions use.
    pub fn custom_emojis(&self) -> (r: &Vec<CustomEmoji>)
        ensures
            emoji_views(r@) == self.emojis(),
    {
        &self.custom_emojis
    }

    /// Records the image of a custom reaction emoji; a shortcode keeps its first URL.
    pub fn add_custom_emoji(&mut self, emoji: CustomEmoji)
        requires
            old(self).well_formed(),
        ensures
            final(self).well_formed(),
            final(self).like_count() == old(self).like_count(),
            final(self).dislike_count() == old(self).dislike_count(),
            final(self).tally() == old(self).tally(),
            crate::emoji::lookup(old(self).emojis(), emoji@.shortcode) is Some ==> final(self).emojis() == old(self).emojis(),
            crate::emoji::lookup(old(self).emojis(), emoji@.shortcode) is None ==> final(self).emojis() == old(self).emojis().push(emoji@),
    {
        if crate::emoji::lookup_emoji(&self.custom_emojis, &emoji.shortcode).is_none() {
            let ghost before = self.custom_emojis@;
            self.custom_emojis.push(emoji);
            assert(emoji_views(self.custom_emojis@) =~= emoji_views(before).push(self.custom_emojis@.last()@));
        }
    }

    /// Tallies are sorted and each count is positive.
    pub closed spec fn well_formed(&self) -> bool {
        &&& sorted_tally(self.tally())
        &&& forall|i: int| 0 <= i < self.custom@.len() ==> (#[trigger] self.custom@[i]).count > 0
    }

    /// No reactions yet.
    pub fn new() -> (r: Reactions)
        ensures
            r.well_formed(),
            r.like_count() == 0,
            r.dislike_count() == 0,
            r.tally() == Seq::<(Seq<char>, nat)>::empty(),
            r.emojis() == Seq::<CustomEmojiView>::empty(),
    {
        let r = Reactions { likes: 0, dislikes: 0, custom: Vec::new(), custom_emojis: Vec::new() };
        assert(custom_view(r.custom@) =~= Seq::<(Seq<char>, nat)>::empty());
        assert(emoji_views(r.custom_emojis@) =~= Seq::<CustomEmojiView>::empty());
        r
    }

    /// Counts one reaction with content `value`.
    pub fn add(&mut self, value: &str)
        requires
            old(self).well_formed(),
            old(self).like_count() < usize::MAX,
            old(self).dislike_count() < usize::MAX,
            tally_count(old(self).tally(), value@) < usize::MAX,
        ensures
            final(self).well_formed(),
            final(self).emojis() == old(self).emojis(),
            final(self).like_count() == old(self).like_count() + if classify(value@) is Like { 1int } else { 0 },
            final(self).dislike_count() == old(self).dislike_count() + if classify(value@) is Dislike { 1int } else { 0 },
            forall|k: Seq<char>| tally_count(#[trigger] final(self).tally(), k) == tally_count(old(self).tally(), k)
                + if classify(value@) is Custom && k == value@ { 1int } else { 0 },
            forall|k: Seq<char>| #![trigger tally_count(final(self).tally(), k)]
                tally_count(final(self).tally(), k) > 0 <==> (tally_count(old(self).tally(), k) > 0 || (
                classify(value@) is Custom && k == value@)),
            reaction_added(*old(self), value@, *final(self)),
    {
        let v = chars_of(value);
        if v.len() == 0 || (v.len() == 1 && v[0] == '+') {
            assert(v@.len() == 0 || v@ =~= plus());
            self.likes = self.likes + 1;
            return;
        }
        if v.len() == 1 && v[0] == '-' {
            assert(v@ =~= minus());
            assert(v@ != plus());
            self.dislikes = self.dislikes + 1;
            return;
        }
        assert(v@ != plus() && v@ != minus()) by {
            if v@ == plus() {
                assert(v@[0] == '+');
            }
            if v@ == minus() {
                assert(v@[0] == '-');
            }
        }
        self.insert_custom(&v);
    }

    /// Increments the tally of a custom reaction, keeping the tally sorted.
    fn insert_custom(&mut self, key: &Vec<char>)
        requires
            old(self).well_formed(),
            tally_count(old(self).tally(), key@) < usize::MAX,
            key@ != plus(),
            key@.len() > 0,
            key@ != minus(),
        ensures
            final(self).well_formed(),
            final(self).like_count() == old(self).like_count(),
            final(self).dislike_count() == old(self).dislike_count(),
            final(self).emojis() == old(self).emojis(),
            forall|k: Seq<char>| tally_count(#[trigger] final(self).tally(), k) == tally_count(old(self).tally(), k)
                + if k == key@ { 1int } else { 0 },
            forall|k: Seq<char>| #![trigger tally_count(final(self).tally(), k)]
                tally_count(final(self).tally(), k) > 0 <==> (tally_count(old(self).tally(), k) > 0 || k == key@),
    {
        let ghost t0 = self.tally();
        let mut i: usize = 0;
        while i < self.custom.len()
            invariant
                i <= self.custom.len(),
                t0 == custom_view(self.custom@),
                forall|j: int| 0 <= j < i ==> lex_lt(#[trigger] t0[j].0, key@),
            ensures
                i >= self.custom.len() || !lex_lt(t0[i as int].0, key@),
            decreases self.custom.len() - i,
        {
            let here = chars_of(self.custom[i].reaction.as_str());
            assert(t0[i as int].0 == here@);
            if !lex_lt_exec(&here, key) {
                break;
            }
            i = i + 1;
        }
        proof {
            lemma_sorted_unique(t0);
        }
        if i < self.custom.len() && chars_equal_string(&self.custom[i].reaction, key) {
            let ghost before = self.custom@;
            let old_count = self.custom[i].count;
            assert(t0[i as int].1 == old_count as nat);
            assert(tally_count(t0, key@) == old_count) by {
                lemma_count_present(t0, i as int);
            }
            let entry = CustomCount { reaction: self.custom[i].reaction.clone(), count: old_count + 1 };
            self.custom.set(i, entry);
            proof {
                let t1 = custom_view(self.custom@);
                assert(t1 =~= t0.update(i as int, (key@, (old_count + 1) as nat)));
                lemma_tally_update(t0, i as int, key@, (old_count + 1) as nat);
                assert forall|j: int| 0 <= j < self.custom@.len() implies (#[trigger] self.custom@[j]).count > 0 by {
                    if j != i {
                        assert(self.custom@[j] == before[j]);
                    }
                }
            }
        } else {
            let ghost before = self.custom@;
            self.custom.insert(i, CustomCount { reaction: string_of(key), count: 1 });
            proof {
                let t1 = custom_view(self.custom@);
                assert(t1 =~= t0.insert(i as int, (key@, 1nat)));
                if i < before.len() {
                    lemma_lex_order(t0[i as int].0, key@, key@);
                }
                lemma_tally_insert(t0, i as int, key@);
                assert forall|j: int| 0 <= j < self.custom@.len() implies (#[trigger] self.custom@[j]).count > 0 by {
                    if j < i {
                        assert(self.custom@[j] == before[j]);
                    } else if j > i {
                        assert(self.custom@[j] == before[j - 1]);
                    }
                }
            }
        }
    }

    /// The summary line, e.g. `+1 🔥2`.
    pub fn summary(&self) -> (r: String)
        ensures
            r@ == join_spaced(summary_items(self.like_count(), self.dislike_count(), self.tally())),
    {
        let ghost t = self.tally();
        let mut parts: Vec<Vec<char>> = Vec::new();
        let ghost head: Seq<Seq<char>> = seq![];
        if self.likes > 0 {
            let mut p: Vec<char> = Vec::new();
            p.push('+');
            assert(p@ =~= plus());
            push_decimal(&mut p, self.likes as u64);
            parts.push(p);
            proof {
                head = seq![plus() + decimal(self.likes as nat)];
            }
        }
        assert(parts_view(parts@) =~= head);
        if self.dislikes > 0 {
            let mut p: Vec<char> = Vec::new();
            p.push('-');
            assert(p@ =~= minus());
            push_decimal(&mut p, self.dislikes as u64);
            let ghost before = parts@;
            parts.push(p);
            proof {
                assert(parts_view(parts@) =~= parts_view(before).push(p@));
                head = head.push(minus() + decimal(self.dislikes as nat));
            }
        }
        assert(parts_view(parts@) =~= head);
        assert(t.take(0).map_values(|e: (Seq<char>, nat)| e.0 + decimal(e.1)) =~= Seq::<Seq<char>>::empty());
        assert(parts_view(parts@) =~= summary_items(self.likes as nat, self.dislikes as nat, t.take(0)));
        let mut i: usize = 0;
        while i < self.custom.len()
            invariant
                i <= self.custom.len(),
                t == custom_view(self.custom@),
                parts_view(parts@) == summary_items(self.likes as nat, self.dislikes as nat, t.take(i as int)),
            decreases self.custom.len() - i,
        {
            let mut p = chars_of(self.custom[i].reaction.as_str());
            push_decimal(&mut p, self.custom[i].count as u64);
            let ghost before = parts@;
            parts.push(p);
            proof {
                let a = summary_items(self.likes as nat, self.dislikes as nat, t.take(i as int));
                let b = summary_items(self.likes as nat, self.dislikes as nat, t.take(i + 1));
                assert(t.take(i + 1) =~= t.take(i as int).push(t[i as int]));
                assert(b =~= a.push(t[i as int].0 + decimal(t[i as int].1)));
                assert(parts_view(parts@) =~= parts_view(before).push(p@));
            }
            i = i + 1;
        }
        assert(t.take(i as int) =~= t);
        let ghost items = parts_view(parts@);
        let mut out: Vec<char> = Vec::new();
        let mut k: usize = 0;
        assert(items.take(0) =~= Seq::<Seq<char>>::empty());
        while k < parts.len()
            invariant
                k <= parts.len(),
                items == parts_view(parts@),
                out@ == join_spaced(items.take(k as int)),
            decreases parts.len() - k,
        {
            assert(items.take(k + 1).drop_last() =~= items.take(k as int));
            assert(items[k as int] == parts@[k as int]@);
            if k > 0 {
                out.push(' ');
            } else {
                assert(out@ =~= Seq::<char>::empty());
            }
            push_all(&mut out, &parts[k]);
            proof {
                if k == 0 {
                    assert(out@ =~= items.take(1)[0]);
                }
            }
            k = k + 1;
        }
        assert(items.take(k as int) =~= items);
        string_of(&out)
    }
}

/// The characters of each part.
pub open spec fn parts_view(parts: Seq<Vec<char>>) -> Seq<Seq<char>> {
    parts.map_values(|p: Vec<char>| p@)
}

/// Keys occur at most once.
pub open spec fn unique_keys(t: Seq<(Seq<char>, nat)>) -> bool {
    forall|i: int, j: int| 0 <= i < j < t.len() ==> #[trigger] t[i].0 != #[trigger] t[j].0
}

/// A sorted tally has unique keys.
pub proof fn lemma_sorted_unique(t: Seq<(Seq<char>, nat)>)
    requires
        sorted_tally(t),
    ensures
        unique_keys(t),
{
    assert forall|i: int, j: int| 0 <= i < j < t.len() implies #[trigger] t[i].0 != #[trigger] t[j].0 by {
        lemma_lex_order(t[i].0, t[i].0, t[i].0);
    }
}

/// An absent key counts zero.
pub proof fn lemma_count_absent(t: Seq<(Seq<char>, nat)>, k: Seq<char>)
    requires
        forall|i: int| 0 <= i < t.len() ==> (#[trigger] t[i]).0 != k,
    ensures
        tally_count(t, k) == 0,
    decreases t.len(),
{
    if t.len() > 0 {
        assert(t.last() == t[t.len() - 1]);
        assert forall|i: int| 0 <= i < t.drop_last().len() implies (#[trigger] t.drop_last()[i]).0 != k by {
            assert(t.drop_last()[i] == t[i]);
        }
        lemma_count_absent(t.drop_last(), k);
    }
}

/// A present key counts its entry.
pub proof fn lemma_count_present(t: Seq<(Seq<char>, nat)>, i: int)
    requires
        unique_keys(t),
        0 <= i < t.len(),
    ensures
        tally_count(t, t[i].0) == t[i].1,
    decreases t.len(),
{
    if i < t.len() - 1 {
        assert(t.last() == t[t.len() - 1]);
        assert(t.drop_last()[i] == t[i]);
        assert(unique_keys(t.drop_last())) by {
            assert forall|a: int, b: int| 0 <= a < b < t.drop_last().len() implies #[trigger] t.drop_last()[a].0
                != #[trigger] t.drop_last()[b].0 by {
                assert(t.drop_last()[a] == t[a]);
                assert(t.drop_last()[b] == t[b]);
            }
        }
        lemma_count_present(t.drop_last(), i);
    }
}

/// Counts of a tally with unique keys, by position.
pub proof fn lemma_count(t: Seq<(Seq<char>, nat)>, k: Seq<char>)
    requires
        unique_keys(t),
    ensures
        (exists|i: int| 0 <= i < t.len() && t[i].0 == k) ==> (forall|i: int|
            0 <= i < t.len() && t[i].0 == k ==> tally_count(t, k) == #[trigger] t[i].1),
        !(exists|i: int| 0 <= i < t.len() && t[i].0 == k) ==> tally_count(t, k) == 0,
{
    if exists|i: int| 0 <= i < t.len() && t[i].0 == k {
        assert forall|i: int| 0 <= i < t.len() && t[i].0 == k implies tally_count(t, k) == #[trigger] t[i].1 by {
            lemma_count_present(t, i);
        }
    } else {
        lemma_count_absent(t, k);
    }
}

/// Raising the count of an existing key.
pub proof fn lemma_tally_update(t: Seq<(Seq<char>, nat)>, i: int, key: Seq<char>, n: nat)
    requires
        sorted_tally(t),
        0 <= i < t.len(),
        t[i].0 == key,
    ensures
        sorted_tally(t.update(i, (key, n))),
        forall|k: Seq<char>| tally_count(t.update(i, (key, n)), k) == if k == key { n } else { tally_count(t, k) },
{
    let t1 = t.update(i, (key, n));
    assert forall|a: int, b: int| 0 <= a < b < t1.len() implies lex_lt(#[trigger] t1[a].0, #[trigger] t1[b].0) by {
        assert(t1[a].0 == t[a].0);
        assert(t1[b].0 == t[b].0);
    }
    lemma_sorted_unique(t);
    lemma_sorted_unique(t1);
    assert forall|k: Seq<char>| tally_count(t1, k) == if k == key { n } else { tally_count(t, k) } by {
        if k == key {
            lemma_count_present(t1, i);
        } else if exists|j: int| 0 <= j < t.len() && t[j].0 == k {
            let j = choose|j: int| 0 <= j < t.len() && t[j].0 == k;
            assert(t1[j] == t[j]);
            lemma_count_present(t, j);
            lemma_count_present(t1, j);
        } else {
            lemma_count_absent(t, k);
            assert forall|j: int| 0 <= j < t1.len() implies (#[trigger] t1[j]).0 != k by {
                if j != i {
                    assert(t1[j] == t[j]);
                }
            }
            lemma_count_absent(t1, k);
        }
    }
}

/// Adding a new key at its sorted position.
pub proof fn lemma_tally_insert(t: Seq<(Seq<char>, nat)>, i: int, key: Seq<char>)
    requires
        sorted_tally(t),
        0 <= i <= t.len(),
        forall|j: int| 0 <= j < i ==> lex_lt(#[trigger] t[j].0, key),
        i < t.len() ==> lex_lt(key, t[i].0),
    ensures
        sorted_tally(t.insert(i, (key, 1nat))),
        tally_count(t, key) == 0,
        forall|k: Seq<char>| tally_count(t.insert(i, (key, 1nat)), k) == if k == key { 1 } else { tally_count(t, k) },
{
    let t1 = t.insert(i, (key, 1nat));
    assert forall|a: int, b: int| 0 <= a < b < t1.len() implies lex_lt(#[trigger] t1[a].0, #[trigger] t1[b].0) by {
        if b < i {
            assert(t1[a] == t[a] && t1[b] == t[b]);
        } else if b == i {
            assert(t1[a] == t[a]);
        } else if a == i {
            assert(t1[b] == t[b - 1]);
            if b - 1 > i {
                lemma_lex_order(key, t[i].0, t[b - 1].0);
            }
        } else if a < i {
            assert(t1[a] == t[a] && t1[b] == t[b - 1]);
        } else {
            assert(t1[a] == t[a - 1] && t1[b] == t[b - 1]);
        }
    }
    lemma_sorted_unique(t);
    lemma_sorted_unique(t1);
    assert(t1[i] == (key, 1nat));
    assert forall|j: int| 0 <= j < t.len() implies (#[trigger] t[j]).0 != key by {
        if j < i {
            lemma_lex_order(t[j].0, t[j].0, t[j].0);
        } else {
            if j > i {
                lemma_lex_order(key, t[i].0, t[j].0);
            }
            lemma_lex_order(key, key, key);
        }
    }
    lemma_count_absent(t, key);
    assert forall|k: Seq<char>| tally_count(t1, k) == if k == key { 1 } else { tally_count(t, k) } by {
        if k == key {
            lemma_count_present(t1, i);
            lemma_count_absent(t, k);
        } else if exists|j: int| 0 <= j < t.len() && t[j].0 == k {
            let j = choose|j: int| 0 <= j < t.len() && t[j].0 == k;
            lemma_count_present(t, j);
            if j < i {
                assert(t1[j] == t[j]);
                lemma_count_present(t1, j);
            } else {
                assert(t1[j + 1] == t[j]);
                lemma_count_present(t1, j + 1);
            }
        } else {
            lemma_count_absent(t, k);
            assert forall|j: int| 0 <= j < t1.len() implies (#[trigger] t1[j]).0 != k by {
                if j < i {
                    assert(t1[j] == t[j]);
                } else if j > i {
                    assert(t1[j] == t[j - 1]);
                }
            }
            lemma_count_absent(t1, k);
        }
    }
}

/// `s` holds exactly the characters `key`.
fn chars_equal_string(s: &String, key: &Vec<char>) -> (r: bool)
    ensures
        r == (s@ == key@),
{
    crate::text::same_chars(&chars_of(s.as_str()), key)
}


/// Every count of a tally is positive.
pub open spec fn positive_counts(t: Seq<(Seq<char>, nat)>) -> bool {
    forall|i: int| 0 <= i < t.len() ==> (#[trigger] t[i]).1 > 0
}

/// A key with a positive count is one of the tally's keys.
proof fn lemma_counted_key_present(t: Seq<(Seq<char>, nat)>, k: Seq<char>) -> (i: int)
    requires
        unique_keys(t),
        tally_count(t, k) > 0,
    ensures
        0 <= i < t.len(),
        t[i].0 == k,
{
    lemma_count(t, k);
    choose|i: int| 0 <= i < t.len() && t[i].0 == k
}

/// Two sorted tallies with positive counts that count every reaction alike
/// are the same.
pub proof fn lemma_tallies_equal(a: Seq<(Seq<char>, nat)>, b: Seq<(Seq<char>, nat)>)
    requires
        sorted_tally(a),
        sorted_tally(b),
        positive_counts(a),
        positive_counts(b),
        forall|k: Seq<char>| #[trigger] tally_count(a, k) == tally_count(b, k),
    ensures
        a == b,
    decreases a.len() + b.len(),
{
    lemma_sorted_unique(a);
    lemma_sorted_unique(b);
    if a.len() == 0 && b.len() == 0 {
        assert(a =~= b);
    } else if a.len() == 0 {
        lemma_count_present(b, b.len() - 1);
        assert(tally_count(a, b[b.len() - 1].0) == 0);
        assert(b[b.len() - 1].1 > 0);
    } else if b.len() == 0 {
        lemma_count_present(a, a.len() - 1);
        assert(tally_count(b, a[a.len() - 1].0) == 0);
        assert(a[a.len() - 1].1 > 0);
    } else {
        let la = a.len() - 1;
        let lb = b.len() - 1;
        let ka = a[la].0;
        let kb = b[lb].0;
        lemma_count_present(a, la);
        lemma_count_present(b, lb);
        assert(a[la].1 > 0 && b[lb].1 > 0);
        assert(tally_count(b, ka) == tally_count(a, ka));
        assert(tally_count(a, kb) == tally_count(b, kb));
        let i = lemma_counted_key_present(b, ka);
        let j = lemma_counted_key_present(a, kb);
        if ka != kb {
            lemma_lex_order(ka, kb, ka);
            assert(i < lb);
            assert(j < la);
            assert(lex_lt(b[i].0, b[lb].0));
            assert(lex_lt(a[j].0, a[la].0));
            assert(false);
        }
        assert(a.last() == a[la]);
        assert(b.last() == b[lb]);
        let da = a.drop_last();
        let db = b.drop_last();
        assert forall|k: Seq<char>| #[trigger] tally_count(da, k) == tally_count(db, k) by {
            if k == ka {
                assert forall|x: int| 0 <= x < da.len() implies (#[trigger] da[x]).0 != k by {
                    assert(da[x] == a[x]);
                }
                assert forall|x: int| 0 <= x < db.len() implies (#[trigger] db[x]).0 != k by {
                    assert(db[x] == b[x]);
                }
                lemma_count_absent(da, k);
                lemma_count_absent(db, k);
            } else {
                assert(tally_count(a, k) == tally_count(da, k));
                assert(tally_count(b, k) == tally_count(db, k));
            }
        }
        assert(sorted_tally(da)) by {
            assert forall|x: int, y: int| 0 <= x < y < da.len() implies lex_lt(#[trigger] da[x].0, #[trigger] da[y].0) by {
                assert(da[x] == a[x]);
                assert(da[y] == a[y]);
            }
        }
        assert(sorted_tally(db)) by {
            assert forall|x: int, y: int| 0 <= x < y < db.len() implies lex_lt(#[trigger] db[x].0, #[trigger] db[y].0) by {
                assert(db[x] == b[x]);
                assert(db[y] == b[y]);
            }
        }
        assert(positive_counts(da)) by {
            assert forall|x: int| 0 <= x < da.len() implies (#[trigger] da[x]).1 > 0 by {
                assert(da[x] == a[x]);
            }
        }
        assert(positive_counts(db)) by {
            assert forall|x: int| 0 <= x < db.len() implies (#[trigger] db[x]).1 > 0 by {
                assert(db[x] == b[x]);
            }
        }
        lemma_tallies_equal(da, db);
        assert(a =~= da.push(a.last()));
        assert(b =~= db.push(b.last()));
    }
}

/// A well-formed tally lists each custom reaction once, in increasing order,
/// each with a positive count.
pub proof fn lemma_well_formed_tally(r: Reactions)
    requires
        r.well_formed(),
    ensures
        sorted_tally(r.tally()),
        positive_counts(r.tally()),
        unique_keys(r.tally()),
{
    assert forall|i: int| 0 <= i < r.tally().len() implies (#[trigger] r.tally()[i]).1 > 0 by {
        assert(r.tally()[i] == (r.custom@[i].reaction@, r.custom@[i].count as nat));
    }
    lemma_sorted_unique(r.tally());
}

proof fn lemma_join_spaced_empty(items: Seq<Seq<char>>)
    requires
        forall|i: int| 0 <= i < items.len() ==> (#[trigger] items[i]).len() > 0,
    ensures
        (join_spaced(items).len() == 0) == (items.len() == 0),
    decreases items.len(),
{
    if items.len() > 1 {
        lemma_join_spaced_empty(items.drop_last());
    }
}

/// The summary line is empty exactly when nothing was counted: no likes, no
/// dislikes and no custom reaction.
pub proof fn law_summary_is_empty_only_without_reactions(r: Reactions)
    requires
        r.well_formed(),
    ensures
        (r.summary_text().len() == 0) == (r.like_count() == 0 && r.dislike_count() == 0 && r.tally().len() == 0),
{
    let items = summary_items(r.like_count(), r.dislike_count(), r.tally());
    assert forall|i: int| 0 <= i < items.len() implies (#[trigger] items[i]).len() > 0 by {
        let head: Seq<Seq<char>> = if r.like_count() > 0 {
            seq![plus() + decimal(r.like_count())]
        } else {
            seq![]
        };
        let head2: Seq<Seq<char>> = if r.dislike_count() > 0 {
            head.push(minus() + decimal(r.dislike_count()))
        } else {
            head
        };
        if i >= head2.len() {
            let e = r.tally()[i - head2.len()];
            assert(items[i] == e.0 + decimal(e.1));
            assert(decimal(e.1).len() > 0);
        } else if i < head.len() {
            assert(items[i] == plus() + decimal(r.like_count()));
        } else {
            assert(items[i] == minus() + decimal(r.dislike_count()));
        }
    }
    lemma_join_spaced_empty(items);
}

/// What adding the reaction `value` does: likes, dislikes or the reaction's
/// own count go up by one, everything else stays.
pub open spec fn reaction_added(before: Reactions, value: Seq<char>, after: Reactions) -> bool {
    &&& after.well_formed()
    &&& after.emojis() == before.emojis()
    &&& after.like_count() == before.like_count() + if classify(value) is Like { 1int } else { 0 }
    &&& after.dislike_count() == before.dislike_count() + if classify(value) is Dislike { 1int } else { 0 }
    &&& forall|k: Seq<char>| tally_count(#[trigger] after.tally(), k) == tally_count(before.tally(), k)
        + if classify(value) is Custom && k == value { 1int } else { 0 }
}

impl Reactions {
    /// The summary line of these reactions.
    pub open spec fn summary_text(&self) -> Seq<char> {
        join_spaced(summary_items(self.like_count(), self.dislike_count(), self.tally()))
    }
}

/// The summary line counts reactions, whatever order they arrived in: two
/// tallies that count likes, dislikes and every custom reaction alike show
/// the same line.
pub proof fn law_summary_depends_only_on_counts(a: Reactions, b: Reactions)
    requires
        a.well_formed(),
        b.well_formed(),
        a.like_count() == b.like_count(),
        a.dislike_count() == b.dislike_count(),
        forall|k: Seq<char>| #[trigger] tally_count(a.tally(), k) == tally_count(b.tally(), k),
    ensures
        a.summary_text() == b.summary_text(),
{
    assert(positive_counts(a.tally())) by {
        assert forall|i: int| 0 <= i < a.tally().len() implies (#[trigger] a.tally()[i]).1 > 0 by {
            assert(a.tally()[i] == (a.custom@[i].reaction@, a.custom@[i].count as nat));
        }
    }
    assert(positive_counts(b.tally())) by {
        assert forall|i: int| 0 <= i < b.tally().len() implies (#[trigger] b.tally()[i]).1 > 0 by {
            assert(b.tally()[i] == (b.custom@[i].reaction@, b.custom@[i].count as nat));
        }
    }
    lemma_tallies_equal(a.tally(), b.tally());
}

/// Two reactions added in either order give the same summary line: the
/// summary is stable under the order in which relays deliver reactions.
pub proof fn law_reaction_order_does_not_matter(
    start: Reactions,
    x: Seq<char>,
    y: Seq<char>,
    with_x: Reactions,
    x_then_y: Reactions,
    with_y: Reactions,
    y_then_x: Reactions,
)
    requires
        start.well_formed(),
        reaction_added(start, x, with_x),
        reaction_added(with_x, y, x_then_y),
        reaction_added(start, y, with_y),
        reaction_added(with_y, x, y_then_x),
    ensures
        x_then_y.summary_text() == y_then_x.summary_text(),
        x_then_y.emojis() == y_then_x.emojis(),
{
    assert forall|k: Seq<char>| #[trigger] tally_count(x_then_y.tally(), k) == tally_count(y_then_x.tally(), k) by {
        assert(tally_count(with_x.tally(), k) == tally_count(start.tally(), k) + if classify(x) is Custom && k == x { 1int } else { 0 });
        assert(tally_count(with_y.tally(), k) == tally_count(start.tally(), k) + if classify(y) is Custom && k == y { 1int } else { 0 });
    }
    law_summary_depends_only_on_counts(x_then_y, y_then_x);
}

impl Default for Reactions {
    fn default() -> (r: Reactions)
        ensures
            r.well_formed(),
            r.like_count() == 0,
            r.dislike_count() == 0,
            r.tally() == Seq::<(Seq<char>, nat)>::empty(),
            r.emojis() == Seq::<CustomEmojiView>::empty(),
    {
        Reactions::new()
    }
}

} // verus!
