//! Emoji usage: counting the custom emojis of messages and reactions, and
//! the lists of most and least used emotes.

use vstd::prelude::*;
use vstd::string::*;
use crate::text::{dec, parse_u64, parsed_u64, push_dec, push_str, str_eq};

verus! {

/// How often an emoji was used in messages and as a reaction.
#[derive(Debug, Clone, Copy, PartialEq, Eq, Structural)]
pub struct EmojiStats {
    pub text_count: u64,
    pub reaction_count: u64,
}

impl EmojiStats {
    /// No uses.
    pub fn zero() -> (r: EmojiStats)
        ensures
            r.text_count == 0 && r.reaction_count == 0,
    {
        EmojiStats { text_count: 0, reaction_count: 0 }
    }

    /// All uses.
    pub fn total(&self) -> (r: u64)
        requires
            self.text_count + self.reaction_count <= u64::MAX,
        ensures
            r == self.text_count + self.reaction_count,
    {
        self.text_count + self.reaction_count
    }
}

/// `a` comes before `b`: fewer uses in messages, then fewer as reactions.
pub open spec fn stats_lt(a: EmojiStats, b: EmojiStats) -> bool {
    a.text_count < b.text_count || (a.text_count == b.text_count && a.reaction_count
        < b.reaction_count)
}

pub open spec fn stats_le(a: EmojiStats, b: EmojiStats) -> bool {
    stats_lt(a, b) || a == b
}

/// The use counts of emojis, by emoji id, each id once.
pub struct EmojiUsage {
    entries: Vec<(u64, EmojiStats)>,
}

pub open spec fn id_pos(s: Seq<(u64, EmojiStats)>, id: u64) -> Option<int>
    decreases s.len(),
{
    if s.len() == 0 {
        None
    } else if s.last().0 == id {
        Some(s.len() - 1)
    } else {
        id_pos(s.drop_last(), id)
    }
}

proof fn lemma_id_pos(s: Seq<(u64, EmojiStats)>, id: u64)
    ensures
        match id_pos(s, id) {
            Some(p) => 0 <= p < s.len() && s[p].0 == id,
            None => forall|j: int| 0 <= j < s.len() ==> s[j].0 != id,
        },
    decreases s.len(),
{
    if s.len() > 0 && s.last().0 != id {
        lemma_id_pos(s.drop_last(), id);
        if id_pos(s, id) is None {
            assert forall|j: int| 0 <= j < s.len() implies s[j].0 != id by {
                if j < s.len() - 1 {
                    assert(s.drop_last()[j] == s[j]);
                }
            }
        }
    }
}

pub open spec fn distinct_ids(s: Seq<(u64, EmojiStats)>) -> bool {
    forall|i: int, j: int| 0 <= i < s.len() && 0 <= j < s.len() && i != j ==> s[i].0 != s[j].0
}

/// The counts of emoji `id`: none yet counts as zero.
pub open spec fn stats_of(s: Seq<(u64, EmojiStats)>, id: u64) -> EmojiStats {
    match id_pos(s, id) {
        Some(p) => s[p].1,
        None => EmojiStats { text_count: 0, reaction_count: 0 },
    }
}

/// The counts after `id`'s counts become `st`: in place, else at the end.
pub open spec fn with_stats(s: Seq<(u64, EmojiStats)>, id: u64, st: EmojiStats) -> Seq<(u64, EmojiStats)> {
    match id_pos(s, id) {
        Some(p) => s.update(p, (id, st)),
        None => s.push((id, st)),
    }
}

/// The counts of every emoji stay below `bound`.
pub open spec fn counts_below(s: Seq<(u64, EmojiStats)>, bound: nat) -> bool {
    forall|i: int|
        0 <= i < s.len() ==> (#[trigger] s[i]).1.text_count < bound && s[i].1.reaction_count
            < bound
}

impl View for EmojiUsage {
    type V = Seq<(u64, EmojiStats)>;

    closed spec fn view(&self) -> Seq<(u64, EmojiStats)> {
        self.entries@
    }
}

impl EmojiUsage {
    pub closed spec fn wf(&self) -> bool {
        distinct_ids(self@)
    }

    /// No counts.
    pub fn new() -> (r: EmojiUsage)
        ensures
            r.wf(),
            r@ == Seq::<(u64, EmojiStats)>::empty(),
    {
        EmojiUsage { entries: Vec::new() }
    }

    /// The counts, by emoji id.
    pub fn entries(&self) -> (r: &Vec<(u64, EmojiStats)>)
        ensures
            r@ == self@,
    {
        &self.entries
    }

    fn position(&self, id: u64) -> (r: Option<usize>)
        ensures
            match r {
                Some(i) => id_pos(self@, id) == Some(i as int),
                None => id_pos(self@, id) is None,
            },
    {
        let ghost s = self@;
        let mut i: usize = self.entries.len();
        assert(s.take(i as int) =~= s);
        while i > 0
            invariant
                i <= self.entries.len(),
                s == self.entries@,
                id_pos(s, id) == id_pos(s.take(i as int), id),
            decreases i,
        {
            assert(s.take(i as int).drop_last() =~= s.take(i - 1));
            if self.entries[i - 1].0 == id {
                return Some(i - 1);
            }
            i -= 1;
        }
        None
    }

    /// The counts of emoji `id`.
    pub fn get(&self, id: u64) -> (r: EmojiStats)
        ensures
            r == stats_of(self@, id),
    {
        proof {
            lemma_id_pos(self@, id);
        }
        match self.position(id) {
            Some(p) => self.entries[p].1,
            None => EmojiStats::zero(),
        }
    }

    /// Sets the counts of emoji `id`.
    pub fn set(&mut self, id: u64, st: EmojiStats)
        requires
            old(self).wf(),
        ensures
            final(self).wf(),
            final(self)@ == with_stats(old(self)@, id, st),
    {
        let ghost s = self@;
        proof {
            lemma_id_pos(s, id);
        }
        match self.position(id) {
            Some(p) => {
                self.entries.set(p, (id, st));
                assert(self@ =~= s.update(p as int, (id, st)));
                assert forall|a: int, b: int|
                    0 <= a < self@.len() && 0 <= b < self@.len() && a != b implies self@[a].0
                    != self@[b].0 by {
                    assert(a != p ==> self@[a] == s[a]);
                    assert(b != p ==> self@[b] == s[b]);
                }
            },
            None => {
                self.entries.push((id, st));
                assert(self@ =~= s.push((id, st)));
                assert forall|a: int, b: int|
                    0 <= a < self@.len() && 0 <= b < self@.len() && a != b implies self@[a].0
                    != self@[b].0 by {
                    assert(a < s.len() ==> self@[a] == s[a]);
                    assert(b < s.len() ==> self@[b] == s[b]);
                }
            },
        }
    }

    /// Counts one use of emoji `id` in a message.
    pub fn count_text(&mut self, id: u64)
        requires
            old(self).wf(),
            stats_of(old(self)@, id).text_count < u64::MAX,
        ensures
            final(self).wf(),
            final(self)@ == with_stats(
                old(self)@,
                id,
                EmojiStats {
                    text_count: (stats_of(old(self)@, id).text_count + 1) as u64,
                    reaction_count: stats_of(old(self)@, id).reaction_count,
                },
            ),
    {
        let st = self.get(id);
        self.set(id, EmojiStats { text_count: st.text_count + 1, reaction_count: st.reaction_count });
    }

    /// Counts one use of emoji `id` as a reaction.
    pub fn count_reaction(&mut self, id: u64)
        requires
            old(self).wf(),
            stats_of(old(self)@, id).reaction_count < u64::MAX,
        ensures
            final(self).wf(),
            final(self)@ == with_stats(
                old(self)@,
                id,
                EmojiStats {
                    text_count: stats_of(old(self)@, id).text_count,
                    reaction_count: (stats_of(old(self)@, id).reaction_count + 1) as u64,
                },
            ),
    {
        let st = self.get(id);
        self.set(id, EmojiStats { text_count: st.text_count, reaction_count: st.reaction_count + 1 });
    }
}

/// The counts after `other`'s are added, emoji by emoji, in `other`'s order.
pub open spec fn merged(s: Seq<(u64, EmojiStats)>, other: Seq<(u64, EmojiStats)>) -> Seq<(u64, EmojiStats)>
    decreases other.len(),
{
    if other.len() == 0 {
        s
    } else {
        let prev = merged(s, other.drop_last());
        let (id, c) = other.last();
        let st = stats_of(prev, id);
        with_stats(
            prev,
            id,
            EmojiStats {
                text_count: (st.text_count + c.text_count) as u64,
                reaction_count: (st.reaction_count + c.reaction_count) as u64,
            },
        )
    }
}

/// The pattern of a custom emoji in a message: `<name:id>`, or `<a:name:id>`
/// for an animated one.
pub const EMOJI_PATTERN: &'static str = r"<a?:(\w+):(\d+)>";

/// What the second group of `pattern` captures in `s`, over the leftmost
/// non-overlapping matches in order; the pattern's classes (here the Unicode
/// `\w` and `\d`) are not restated.
pub uninterp spec fn second_group_captures(pattern: Seq<char>, s: Seq<char>) -> Seq<Seq<char>>;

/// The emoji ids in a message's text, in order.
pub open spec fn emoji_id_captures(s: Seq<char>) -> Seq<Seq<char>> {
    second_group_captures(EMOJI_PATTERN@, s)
}

pub open spec fn string_views(v: Seq<String>) -> Seq<Seq<char>> {
    v.map_values(|s: String| s@)
}

/// regex's `Regex::new` on `pattern` and `Regex::captures_iter`, each
/// match's second group; every match of the emoji pattern has that group.
#[verifier::external_body]
fn second_groups(pattern: &str, content: &str) -> (r: Vec<String>)
    requires
        pattern == EMOJI_PATTERN,
    ensures
        string_views(r@) == second_group_captures(pattern@, content@),
{
    let re = regex::Regex::new(pattern).expect("valid pattern");
    re.captures_iter(content).map(|c| c[2].to_string()).collect()
}

/// Every captured id reads as a 64-bit number.
pub open spec fn ids_parse(ids: Seq<Seq<char>>) -> bool {
    forall|i: int| 0 <= i < ids.len() ==> (#[trigger] parsed_u64(ids[i])) is Some
}

/// The counts after each id of `ids` is counted once as used in a message.
pub open spec fn counted_text(s: Seq<(u64, EmojiStats)>, ids: Seq<Seq<char>>) -> Seq<(u64, EmojiStats)>
    decreases ids.len(),
{
    if ids.len() == 0 {
        s
    } else {
        let prev = counted_text(s, ids.drop_last());
        let id = parsed_u64(ids.last()).unwrap();
        let st = stats_of(prev, id);
        with_stats(
            prev,
            id,
            EmojiStats { text_count: (st.text_count + 1) as u64, reaction_count: st.reaction_count },
        )
    }
}

proof fn lemma_with_stats_below(s: Seq<(u64, EmojiStats)>, id: u64, st: EmojiStats, bound: nat)
    requires
        counts_below(s, bound),
        st.text_count < bound,
        st.reaction_count < bound,
    ensures
        counts_below(with_stats(s, id, st), bound),
{
    lemma_id_pos(s, id);
    let t = with_stats(s, id, st);
    assert forall|i: int| 0 <= i < t.len() implies (#[trigger] t[i]).1.text_count < bound
        && t[i].1.reaction_count < bound by {
        if i < s.len() && (id_pos(s, id) is None || i != id_pos(s, id).unwrap()) {
            assert(t[i] == s[i]);
        }
    }
}

proof fn lemma_stats_of_below(s: Seq<(u64, EmojiStats)>, id: u64, bound: nat)
    requires
        counts_below(s, bound),
        bound > 0,
    ensures
        stats_of(s, id).text_count < bound && stats_of(s, id).reaction_count < bound,
{
    lemma_id_pos(s, id);
    if id_pos(s, id) is Some {
        let p = id_pos(s, id).unwrap();
        assert(s[p] == s[p]);
    }
}

/// The counts after a message's text is counted, and what the counting
/// reports: nothing is counted (`None`) when a count could overflow; else
/// `Some(false)`, counting nothing, when an emoji's id does not read as a
/// 64-bit number; else each emoji is counted once per use (`Some(true)`).
pub open spec fn message_counted(s: Seq<(u64, EmojiStats)>, content: Seq<char>) -> (
    Seq<(u64, EmojiStats)>,
    Option<bool>,
) {
    let ids = emoji_id_captures(content);
    if !(ids.len() < u64::MAX && counts_below(s, (u64::MAX - ids.len()) as nat)) {
        (s, None)
    } else if ids_parse(ids) {
        (counted_text(s, ids), Some(true))
    } else {
        (s, Some(false))
    }
}

impl EmojiUsage {
    /// Whether every count is below `bound`.
    fn all_below(&self, bound: u64) -> (r: bool)
        ensures
            r == counts_below(self@, bound as nat),
    {
        let mut i: usize = 0;
        while i < self.entries.len()
            invariant
                i <= self.entries@.len(),
                forall|j: int|
                    0 <= j < i ==> (#[trigger] self@[j]).1.text_count < bound && self@[j].1.reaction_count
                        < bound,
            decreases self.entries@.len() - i,
        {
            let st = self.entries[i].1;
            if st.text_count >= bound || st.reaction_count >= bound {
                assert(self@[i as int].1 == st);
                return false;
            }
            i += 1;
        }
        true
    }

    /// Counts the emojis of a message's text as `count_message` does, when
    /// no count can overflow; `None`, counting nothing, otherwise.
    pub fn try_count_message(&mut self, content: &str) -> (r: Option<bool>)
        requires
            old(self).wf(),
        ensures
            final(self).wf(),
            (final(self)@, r) == message_counted(old(self)@, content@),
    {
        let ids = second_groups(EMOJI_PATTERN, content);
        let n: usize = ids.len();
        if n as u128 >= u64::MAX as u128 {
            return None;
        }
        let bound: u64 = u64::MAX - n as u64;
        if !self.all_below(bound) {
            return None;
        }
        Some(self.count_message(content))
    }
}

impl EmojiUsage {
    /// Counts the emojis of a message's text, when the count of every emoji
    /// stays below `u64::MAX - ids` (so no count overflows). Returns false,
    /// counting nothing, when an emoji's id does not read as a 64-bit number.
    pub fn count_message(&mut self, content: &str) -> (r: bool)
        requires
            old(self).wf(),
            counts_below(old(self)@, (u64::MAX - emoji_id_captures(content@).len()) as nat),
            emoji_id_captures(content@).len() < u64::MAX,
        ensures
            final(self).wf(),
            r == ids_parse(emoji_id_captures(content@)),
            r ==> final(self)@ == counted_text(old(self)@, emoji_id_captures(content@)),
            !r ==> final(self)@ == old(self)@,
    {
        let ids = second_groups(EMOJI_PATTERN, content);
        let ghost iv = string_views(ids@);
        let ghost s_before = self@;
        let mut parsed: Vec<u64> = Vec::new();
        let mut i: usize = 0;
        while i < ids.len()
            invariant
                i <= ids.len(),
                iv == string_views(ids@),
                iv == emoji_id_captures(content@),
                self@ == s_before,
                self.wf(),
                parsed@.len() == i,
                forall|k: int| 0 <= k < i ==> parsed_u64(#[trigger] iv[k]) == Some(parsed@[k]),
            decreases ids.len() - i,
        {
            match parse_u64(ids[i].as_str()) {
                Some(n) => {
                    parsed.push(n);
                },
                None => {
                    assert(parsed_u64(iv[i as int]) is None);
                    assert(!ids_parse(iv));
                    return false;
                },
            }
            i += 1;
        }
        assert(ids_parse(iv));
        let ghost s0 = self@;
        let ghost bound = (u64::MAX - iv.len()) as nat;
        let mut j: usize = 0;
        assert(iv.take(0) =~= Seq::<Seq<char>>::empty());
        while j < parsed.len()
            invariant
                j <= parsed.len(),
                parsed@.len() == iv.len(),
                iv.len() < u64::MAX,
                bound == (u64::MAX - iv.len()) as nat,
                forall|k: int| 0 <= k < iv.len() ==> parsed_u64(#[trigger] iv[k]) == Some(parsed@[k]),
                self.wf(),
                self@ == counted_text(s0, iv.take(j as int)),
                counts_below(self@, (bound + j) as nat),
            decreases parsed.len() - j,
        {
            assert(iv.take(j + 1).drop_last() =~= iv.take(j as int));
            assert(iv.take(j + 1).last() == iv[j as int]);
            assert(parsed_u64(iv[j as int]) == Some(parsed@[j as int]));
            proof {
                lemma_stats_of_below(self@, parsed@[j as int], (bound + j) as nat);
                lemma_with_stats_below(
                    self@,
                    parsed@[j as int],
                    EmojiStats {
                        text_count: (stats_of(self@, parsed@[j as int]).text_count + 1) as u64,
                        reaction_count: stats_of(self@, parsed@[j as int]).reaction_count,
                    },
                    (bound + j + 1) as nat,
                );
                assert forall|i: int| 0 <= i < self@.len() implies (#[trigger] self@[i]).1.text_count
                    < bound + j + 1 && self@[i].1.reaction_count < bound + j + 1 by {}
            }
            self.count_text(parsed[j]);
            j += 1;
        }
        assert(iv.take(j as int) =~= iv);
        true
    }

    /// Adds the counts of `other` to these, emoji by emoji.
    pub fn merge(&mut self, other: &Vec<(u64, EmojiStats)>)
        requires
            old(self).wf(),
            forall|i: int|
                0 <= i < other@.len() ==> stats_of(merged(old(self)@, other@.take(i)), (#[trigger] other@[i]).0).text_count
                    + other@[i].1.text_count <= u64::MAX && stats_of(
                    merged(old(self)@, other@.take(i)),
                    other@[i].0,
                ).reaction_count + other@[i].1.reaction_count <= u64::MAX,
        ensures
            final(self).wf(),
            final(self)@ == merged(old(self)@, other@),
    {
        let ghost s0 = self@;
        let mut i: usize = 0;
        assert(other@.take(0) =~= Seq::<(u64, EmojiStats)>::empty());
        while i < other.len()
            invariant
                i <= other.len(),
                self.wf(),
                self@ == merged(s0, other@.take(i as int)),
                forall|k: int|
                    0 <= k < other@.len() ==> stats_of(merged(s0, other@.take(k)), (#[trigger] other@[k]).0).text_count
                        + other@[k].1.text_count <= u64::MAX && stats_of(
                        merged(s0, other@.take(k)),
                        other@[k].0,
                    ).reaction_count + other@[k].1.reaction_count <= u64::MAX,
            decreases other.len() - i,
        {
            let (id, c) = other[i];
            assert(other@.take(i + 1).drop_last() =~= other@.take(i as int));
            assert(other@.take(i + 1).last() == other@[i as int]);
            assert(other@[i as int] == (id, c));
            let st = self.get(id);
            self.set(
                id,
                EmojiStats {
                    text_count: st.text_count + c.text_count,
                    reaction_count: st.reaction_count + c.reaction_count,
                },
            );
            i += 1;
        }
        assert(other@.take(i as int) =~= other@);
    }
}

// ---------------------------------------------------------------------------
// The emote usage list
// ---------------------------------------------------------------------------

/// Which uses an emote list counts.
#[derive(Debug, Clone, Copy, PartialEq, Eq, Structural)]
pub enum UsageKind {
    Text,
    Reactions,
    Any,
}

/// Which emotes an emote list shows.
#[derive(Debug, Clone, Copy, PartialEq, Eq, Structural)]
pub enum EmojiType {
    Normal,
    Animated,
    Any,
}

/// The usage option as given: "Text" and "Reactions" choose, anything else
/// counts both.
pub open spec fn usage_kind(s: Option<Seq<char>>) -> UsageKind {
    match s {
        Some(t) => if t == "Text"@ {
            UsageKind::Text
        } else if t == "Reactions"@ {
            UsageKind::Reactions
        } else {
            UsageKind::Any
        },
        None => UsageKind::Any,
    }
}

/// The emote type option as given: "Normal" and "Animated" choose, anything
/// else shows both.
pub open spec fn emoji_type(s: Option<Seq<char>>) -> EmojiType {
    match s {
        Some(t) => if t == "Normal"@ {
            EmojiType::Normal
        } else if t == "Animated"@ {
            EmojiType::Animated
        } else {
            EmojiType::Any
        },
        None => EmojiType::Any,
    }
}

pub open spec fn opt_view(o: Option<&str>) -> Option<Seq<char>> {
    match o {
        Some(s) => Some(s@),
        None => None,
    }
}

/// Reads the usage option.
pub fn parse_usage(s: Option<&str>) -> (r: UsageKind)
    ensures
        r == usage_kind(opt_view(s)),
{
    proof {
        reveal_strlit("Text");
        reveal_strlit("Reactions");
    }
    match s {
        Some(t) => if str_eq(t, "Text") {
            UsageKind::Text
        } else if str_eq(t, "Reactions") {
            UsageKind::Reactions
        } else {
            UsageKind::Any
        },
        None => UsageKind::Any,
    }
}

/// Reads the emote type option.
pub fn parse_emoji_type(s: Option<&str>) -> (r: EmojiType)
    ensures
        r == emoji_type(opt_view(s)),
{
    proof {
        reveal_strlit("Normal");
        reveal_strlit("Animated");
    }
    match s {
        Some(t) => if str_eq(t, "Normal") {
            EmojiType::Normal
        } else if str_eq(t, "Animated") {
            EmojiType::Animated
        } else {
            EmojiType::Any
        },
        None => EmojiType::Any,
    }
}

/// Whether an emote of the guild (animated or not) with counts `c` is listed.
pub open spec fn listed(animated: bool, c: EmojiStats, t: EmojiType, u: UsageKind) -> bool {
    (match t {
        EmojiType::Normal => !animated,
        EmojiType::Animated => animated,
        EmojiType::Any => true,
    }) && (match u {
        UsageKind::Text => c.text_count > 0,
        UsageKind::Reactions => c.reaction_count > 0,
        UsageKind::Any => true,
    })
}

/// The order of a list: by the chosen count, or by both counts.
pub open spec fn in_order(a: EmojiStats, b: EmojiStats, u: UsageKind, ascending: bool) -> bool {
    let (x, y) = if ascending {
        (a, b)
    } else {
        (b, a)
    };
    match u {
        UsageKind::Text => x.text_count <= y.text_count,
        UsageKind::Reactions => x.reaction_count <= y.reaction_count,
        UsageKind::Any => stats_le(x, y),
    }
}

pub open spec fn sorted_by(s: Seq<(u64, EmojiStats)>, u: UsageKind, ascending: bool) -> bool {
    forall|i: int, j: int| 0 <= i < j < s.len() ==> in_order(s[i].1, s[j].1, u, ascending)
}

/// The guild emote `id`: whether it is one, and whether it is animated.
pub open spec fn guild_emote(guild: Seq<(u64, bool)>, id: u64) -> Option<bool>
    decreases guild.len(),
{
    if guild.len() == 0 {
        None
    } else if guild.last().0 == id {
        Some(guild.last().1)
    } else {
        guild_emote(guild.drop_last(), id)
    }
}

/// The counted emotes of the guild that the options list, in the order of
/// the counts.
pub open spec fn candidates(
    usage: Seq<(u64, EmojiStats)>,
    guild: Seq<(u64, bool)>,
    t: EmojiType,
    u: UsageKind,
) -> Seq<(u64, EmojiStats)>
    decreases usage.len(),
{
    if usage.len() == 0 {
        Seq::empty()
    } else {
        let (id, c) = usage.last();
        candidates(usage.drop_last(), guild, t, u) + match guild_emote(guild, id) {
            Some(animated) => if listed(animated, c, t, u) {
                seq![(id, c)]
            } else {
                Seq::empty()
            },
            None => Seq::empty(),
        }
    }
}

fn guild_emote_of(guild: &Vec<(u64, bool)>, id: u64) -> (r: Option<bool>)
    ensures
        r == guild_emote(guild@, id),
{
    let mut i: usize = guild.len();
    assert(guild@.take(i as int) =~= guild@);
    while i > 0
        invariant
            i <= guild.len(),
            guild_emote(guild@, id) == guild_emote(guild@.take(i as int), id),
        decreases i,
    {
        assert(guild@.take(i as int).drop_last() =~= guild@.take(i - 1));
        if guild[i - 1].0 == id {
            return Some(guild[i - 1].1);
        }
        i -= 1;
    }
    None
}

fn ordered(a: EmojiStats, b: EmojiStats, u: UsageKind, ascending: bool) -> (r: bool)
    ensures
        r == in_order(a, b, u, ascending),
{
    let (x, y) = if ascending {
        (a, b)
    } else {
        (b, a)
    };
    match u {
        UsageKind::Text => x.text_count <= y.text_count,
        UsageKind::Reactions => x.reaction_count <= y.reaction_count,
        UsageKind::Any => x.text_count < y.text_count || (x.text_count == y.text_count
            && x.reaction_count <= y.reaction_count),
    }
}

proof fn lemma_in_order_total(a: EmojiStats, b: EmojiStats, c: EmojiStats, u: UsageKind, asc: bool)
    ensures
        in_order(a, b, u, asc) || in_order(b, a, u, asc),
        in_order(a, b, u, asc) && in_order(b, c, u, asc) ==> in_order(a, c, u, asc),
{
}

/// The emotes sorted by `u`, ascending or descending.
fn sort_emotes(list: Vec<(u64, EmojiStats)>, u: UsageKind, ascending: bool) -> (r: Vec<(u64, EmojiStats)>)
    ensures
        r@.to_multiset() == list@.to_multiset(),
        r@.len() == list@.len(),
        sorted_by(r@, u, ascending),
{
    let mut out: Vec<(u64, EmojiStats)> = Vec::new();
    let mut i: usize = 0;
    assert(list@.take(0) =~= Seq::<(u64, EmojiStats)>::empty());
    while i < list.len()
        invariant
            i <= list.len(),
            out@.to_multiset() == list@.take(i as int).to_multiset(),
            out@.len() == i,
            sorted_by(out@, u, ascending),
        decreases list.len() - i,
    {
        let x = list[i];
        let mut p: usize = 0;
        while p < out.len() && ordered(out[p].1, x.1, u, ascending)
            invariant
                p <= out@.len(),
                forall|a: int| 0 <= a < p ==> in_order(out@[a].1, x.1, u, ascending),
            decreases out.len() - p,
        {
            p += 1;
        }
        let ghost old_out = out@;
        out.insert(p, x);
        proof {
            assert(list@.take(i + 1) =~= list@.take(i as int).push(x));
            vstd::seq_lib::to_multiset_insert(old_out, p as int, x);
            vstd::seq_lib::to_multiset_build(list@.take(i as int), x);
            assert(out@ == old_out.insert(p as int, x));
            assert forall|a: int, b: int| 0 <= a < b < out@.len() implies in_order(
                out@[a].1,
                out@[b].1,
                u,
                ascending,
            ) by {
                if b < p {
                    assert(out@[a] == old_out[a] && out@[b] == old_out[b]);
                } else if b == p {
                    assert(out@[a] == old_out[a] && out@[b] == x);
                } else if a < p {
                    assert(out@[a] == old_out[a] && out@[b] == old_out[b - 1]);
                } else if a == p {
                    assert(out@[a] == x && out@[b] == old_out[b - 1]);
                    lemma_in_order_total(old_out[p as int].1, x.1, x.1, u, ascending);
                    lemma_in_order_total(x.1, old_out[p as int].1, old_out[b - 1].1, u, ascending);
                    lemma_in_order_refl(x.1, u, ascending);
                } else {
                    assert(out@[a] == old_out[a - 1] && out@[b] == old_out[b - 1]);
                }
            }
        }
        i += 1;
    }
    assert(list@.take(i as int) =~= list@);
    out
}

proof fn lemma_in_order_refl(a: EmojiStats, u: UsageKind, asc: bool)
    ensures
        in_order(a, a, u, asc),
{
}

/// The most or least used emotes of the guild: the counted emotes that the
/// options list, sorted by the chosen count (both counts when none is
/// chosen), at most 100; or an error for an order that is neither
/// "Ascending" nor "Descending".
/// `a` may come before `b` in a list from the least used (`ascending`) or
/// from the most used: by uses in messages, by uses as reactions, or by uses
/// in messages and then as reactions.
pub open spec fn ranked_before(a: EmojiStats, b: EmojiStats, u: UsageKind, ascending: bool) -> bool {
    if ascending {
        match u {
            UsageKind::Text => a.text_count <= b.text_count,
            UsageKind::Reactions => a.reaction_count <= b.reaction_count,
            UsageKind::Any => a.text_count < b.text_count || (a.text_count == b.text_count
                && a.reaction_count <= b.reaction_count),
        }
    } else {
        match u {
            UsageKind::Text => a.text_count >= b.text_count,
            UsageKind::Reactions => a.reaction_count >= b.reaction_count,
            UsageKind::Any => a.text_count > b.text_count || (a.text_count == b.text_count
                && a.reaction_count >= b.reaction_count),
        }
    }
}

/// An emote list, or any first part of it, is ranked: an ascending list
/// never has a more used emote before a less used one, a descending list
/// never a less used before a more used one, by the counts the list is for.
pub proof fn lemma_emote_list_ranked(full: Seq<(u64, EmojiStats)>, u: UsageKind, ascending: bool, n: int)
    requires
        sorted_by(full, u, ascending),
        0 <= n <= full.len(),
    ensures
        forall|i: int, j: int|
            0 <= i < j < n ==> ranked_before(
                #[trigger] full.take(n)[i].1,
                #[trigger] full.take(n)[j].1,
                u,
                ascending,
            ),
{
    assert forall|i: int, j: int| 0 <= i < j < n implies ranked_before(
        #[trigger] full.take(n)[i].1,
        #[trigger] full.take(n)[j].1,
        u,
        ascending,
    ) by {
        assert(full.take(n)[i] == full[i]);
        assert(full.take(n)[j] == full[j]);
        assert(in_order(full[i].1, full[j].1, u, ascending));
    }
}

pub fn most_used_emotes(
    usage: &Vec<(u64, EmojiStats)>,
    guild: &Vec<(u64, bool)>,
    order: &str,
    u: UsageKind,
    t: EmojiType,
) -> (r: Result<Vec<(u64, EmojiStats)>, String>)
    ensures
        ({
            let cs = candidates(usage@, guild@, t, u);
            if order@ == "Ascending"@ || order@ == "Descending"@ {
                r matches Ok(list) && exists|full: Seq<(u64, EmojiStats)>|
                    full.to_multiset() == cs.to_multiset() && sorted_by(
                        full,
                        u,
                        order@ == "Ascending"@,
                    ) && list@ == full.take(
                        if full.len() < 100 {
                            full.len() as int
                        } else {
                            100
                        },
                    )
            } else {
                r matches Err(m) && m@ == "Invalid ordering."@
            }
        }),
        r matches Ok(list) ==> forall|i: int, j: int|
            0 <= i < j < list@.len() ==> ranked_before(
                #[trigger] list@[i].1,
                #[trigger] list@[j].1,
                u,
                order@ == "Ascending"@,
            ),
{
    proof {
        reveal_strlit("Ascending");
        reveal_strlit("Descending");
        reveal_strlit("Invalid ordering.");
    }
    let mut list: Vec<(u64, EmojiStats)> = Vec::new();
    let mut i: usize = 0;
    assert(list@ =~= candidates(usage@.take(0), guild@, t, u));
    while i < usage.len()
        invariant
            i <= usage.len(),
            list@ == candidates(usage@.take(i as int), guild@, t, u),
        decreases usage.len() - i,
    {
        let (id, c) = usage[i];
        assert(usage@.take(i + 1).drop_last() =~= usage@.take(i as int));
        assert(usage@.take(i + 1).last() == (id, c));
        let ghost prev = list@;
        match guild_emote_of(guild, id) {
            Some(animated) => {
                let keep = (match t {
                    EmojiType::Normal => !animated,
                    EmojiType::Animated => animated,
                    EmojiType::Any => true,
                }) && (match u {
                    UsageKind::Text => c.text_count > 0,
                    UsageKind::Reactions => c.reaction_count > 0,
                    UsageKind::Any => true,
                });
                if keep {
                    list.push((id, c));
                    assert(list@ =~= prev + seq![(id, c)]);
                } else {
                    assert(list@ =~= prev + Seq::<(u64, EmojiStats)>::empty());
                }
            },
            None => {
                assert(list@ =~= prev + Seq::<(u64, EmojiStats)>::empty());
            },
        }
        i += 1;
    }
    assert(usage@.take(i as int) =~= usage@);
    let ascending = if str_eq(order, "Ascending") {
        true
    } else if str_eq(order, "Descending") {
        false
    } else {
        return Err(String::from_str("Invalid ordering."));
    };
    let list = sort_emotes(list, u, ascending);
    let ghost full = list@;
    let n = if list.len() < 100 {
        list.len()
    } else {
        100
    };
    let mut out: Vec<(u64, EmojiStats)> = Vec::new();
    let mut m: usize = 0;
    while m < n
        invariant
            m <= n,
            n <= list@.len(),
            list@ == full,
            out@ == full.take(m as int),
        decreases n - m,
    {
        out.push(list[m]);
        assert(out@ =~= full.take(m + 1));
        m += 1;
    }
    assert(ascending == (order@ == "Ascending"@));
    proof {
        lemma_emote_list_ranked(full, u, ascending, n as int);
        assert(out@ == full.take(n as int));
    }
    Ok(out)
}

/// The title of an emote list.
pub open spec fn usage_title(ascending: bool, t: EmojiType, u: UsageKind) -> Seq<char> {
    (if ascending {
        "Least"@
    } else {
        "Most"@
    }) + " used "@ + (match t {
        EmojiType::Normal => "static "@,
        EmojiType::Animated => "animated "@,
        EmojiType::Any => Seq::empty(),
    }) + "emotes"@ + match u {
        UsageKind::Text => " (Not counting reactions)"@,
        UsageKind::Reactions => " (Only counting reactions)"@,
        UsageKind::Any => Seq::empty(),
    }
}

/// The title of an emote list.
pub fn emote_list_title(ascending: bool, t: EmojiType, u: UsageKind) -> (r: String)
    ensures
        r@ == usage_title(ascending, t, u),
{
    let mut r = String::new();
    proof {
        reveal_strlit("Least");
        reveal_strlit("Most");
        reveal_strlit(" used ");
        reveal_strlit("static ");
        reveal_strlit("animated ");
        reveal_strlit("emotes");
        reveal_strlit(" (Not counting reactions)");
        reveal_strlit(" (Only counting reactions)");
    }
    push_str(&mut r, if ascending { "Least" } else { "Most" });
    push_str(&mut r, " used ");
    match t {
        EmojiType::Normal => push_str(&mut r, "static "),
        EmojiType::Animated => push_str(&mut r, "animated "),
        EmojiType::Any => {},
    }
    push_str(&mut r, "emotes");
    match u {
        UsageKind::Text => push_str(&mut r, " (Not counting reactions)"),
        UsageKind::Reactions => push_str(&mut r, " (Only counting reactions)"),
        UsageKind::Any => {},
    }
    r
}

/// What follows an emote's mention in a list: the chosen count, or the
/// total with both counts.
pub open spec fn count_text(c: EmojiStats, u: UsageKind) -> Seq<char> {
    match u {
        UsageKind::Text => " "@ + dec(c.text_count as nat) + "\r\n"@,
        UsageKind::Reactions => " "@ + dec(c.reaction_count as nat) + "\r\n"@,
        UsageKind::Any => " "@ + dec((c.text_count + c.reaction_count) as nat) + " ("@ + dec(
            c.text_count as nat,
        ) + "T, "@ + dec(c.reaction_count as nat) + "R)\r\n"@,
    }
}

/// What follows an emote's mention in a list.
pub fn emote_count_text(c: EmojiStats, u: UsageKind) -> (r: String)
    requires
        c.text_count + c.reaction_count <= u64::MAX,
    ensures
        r@ == count_text(c, u),
{
    let mut r = String::new();
    proof {
        reveal_strlit(" ");
        reveal_strlit("\r\n");
        reveal_strlit(" (");
        reveal_strlit("T, ");
        reveal_strlit("R)\r\n");
    }
    push_str(&mut r, " ");
    match u {
        UsageKind::Text => {
            push_dec(&mut r, c.text_count);
            push_str(&mut r, "\r\n");
        },
        UsageKind::Reactions => {
            push_dec(&mut r, c.reaction_count);
            push_str(&mut r, "\r\n");
        },
        UsageKind::Any => {
            push_dec(&mut r, c.total());
            push_str(&mut r, " (");
            push_dec(&mut r, c.text_count);
            push_str(&mut r, "T, ");
            push_dec(&mut r, c.reaction_count);
            push_str(&mut r, "R)\r\n");
        },
    }
    r
}

} // verus!
