//! The lists that the `live`, `upcoming` and `birthdays` commands show, and
//! the lines they are shown with.

use vstd::prelude::*;
use vstd::string::*;
use crate::config::HoloBranch;
use crate::discord::{stream_views, Birthday};
use crate::holo::{Livestream, LivestreamView, VideoStatus};
use crate::text::{dec, push_dec, push_str};

verus! {

/// `s` with `x` put before the first element whose key is greater than
/// `x`'s (after all when there is none).
pub open spec fn insert_by_key<A>(s: Seq<A>, x: A, key: spec_fn(A) -> int) -> Seq<A>
    decreases s.len(),
{
    if s.len() == 0 {
        seq![x]
    } else if key(s[0]) <= key(x) {
        seq![s[0]] + insert_by_key(s.drop_first(), x, key)
    } else {
        seq![x] + s
    }
}

/// Where `insert_by_key` puts `x`: the first position whose key is greater.
pub open spec fn first_greater<A>(s: Seq<A>, x: A, key: spec_fn(A) -> int) -> int
    decreases s.len(),
{
    if s.len() == 0 {
        0
    } else if key(s[0]) <= key(x) {
        1 + first_greater(s.drop_first(), x, key)
    } else {
        0
    }
}

pub open spec fn sorted_by_key<A>(s: Seq<A>, key: spec_fn(A) -> int) -> bool {
    forall|a: int, b: int| 0 <= a < b < s.len() ==> key(s[a]) <= key(s[b])
}

proof fn lemma_first_greater<A>(s: Seq<A>, x: A, key: spec_fn(A) -> int)
    ensures
        0 <= first_greater(s, x, key) <= s.len(),
        insert_by_key(s, x, key) == s.insert(first_greater(s, x, key), x),
        forall|j: int| 0 <= j < first_greater(s, x, key) ==> key(s[j]) <= key(x),
        first_greater(s, x, key) < s.len() ==> key(s[first_greater(s, x, key)]) > key(x),
    decreases s.len(),
{
    if s.len() > 0 && key(s[0]) <= key(x) {
        let t = s.drop_first();
        lemma_first_greater(t, x, key);
        assert(insert_by_key(s, x, key) =~= s.insert(first_greater(s, x, key), x));
        assert forall|j: int| 0 <= j < first_greater(s, x, key) implies key(s[j]) <= key(x) by {
            if j > 0 {
                assert(s[j] == t[j - 1]);
            }
        }
    } else if s.len() > 0 {
        assert(insert_by_key(s, x, key) =~= s.insert(0, x));
    } else {
        assert(insert_by_key(s, x, key) =~= s.insert(0, x));
    }
}

/// Putting an element into a sorted sequence by its key keeps it sorted.
pub proof fn lemma_insert_by_key_sorted<A>(s: Seq<A>, x: A, key: spec_fn(A) -> int)
    requires
        sorted_by_key(s, key),
    ensures
        sorted_by_key(insert_by_key(s, x, key), key),
        insert_by_key(s, x, key).len() == s.len() + 1,
{
    lemma_first_greater(s, x, key);
    let p = first_greater(s, x, key);
    let t = s.insert(p, x);
    assert forall|a: int, b: int| 0 <= a < b < t.len() implies key(t[a]) <= key(t[b]) by {
        if b < p {
            assert(t[a] == s[a] && t[b] == s[b]);
        } else if b == p {
            assert(t[b] == x && t[a] == s[a]);
        } else if a < p {
            assert(t[a] == s[a] && t[b] == s[b - 1]);
        } else if a == p {
            assert(t[a] == x && t[b] == s[b - 1]);
            assert(key(s[p]) > key(x));
            if b - 1 > p {
                assert(key(s[p]) <= key(s[b - 1]));
            }
        } else {
            assert(t[a] == s[a - 1] && t[b] == s[b - 1]);
        }
    }
}

/// How a role is mentioned.
pub open spec fn role_mention(role: Option<u64>) -> Seq<char> {
    match role {
        Some(id) => "<@&"@ + dec(id as nat) + ">"@,
        None => ""@,
    }
}

fn push_role_mention(s: &mut String, role: Option<u64>)
    ensures
        final(s)@ == old(s)@ + role_mention(role),
{
    match role {
        Some(id) => {
            push_str(s, "<@&");
            push_dec(s, id);
            push_str(s, ">");
        },
        None => {
            proof {
                reveal_strlit("");
                assert(old(s)@ + ""@ =~= old(s)@);
            }
        },
    }
}

/// Whether a stream's talent is of the chosen branch, if one is chosen.
pub open spec fn of_branch(l: LivestreamView, branch: Option<HoloBranch>) -> bool {
    match branch {
        Some(b) => l.streamer.branch == b,
        None => true,
    }
}

/// A live stream as the `live` command lists it.
#[derive(Debug)]
pub struct LiveEmbedData {
    pub role: Option<u64>,
    pub title: String,
    pub url: String,
}

pub open spec fn live_data_views(v: Seq<LiveEmbedData>) -> Seq<(Option<u64>, Seq<char>, Seq<char>)> {
    v.map_values(|d: LiveEmbedData| (d.role, d.title@, d.url@))
}

/// The streams that are live, of the branch if one is chosen, in the order
/// of the index.
pub open spec fn live_entries(s: Seq<LivestreamView>, branch: Option<HoloBranch>) -> Seq<
    (Option<u64>, Seq<char>, Seq<char>),
>
    decreases s.len(),
{
    if s.len() == 0 {
        Seq::empty()
    } else {
        let rest = live_entries(s.drop_last(), branch);
        let l = s.last();
        if l.state == VideoStatus::Live && of_branch(l, branch) {
            rest.push((l.streamer.discord_role, l.title, l.url))
        } else {
            rest
        }
    }
}

/// The streams that the `live` command lists.
pub fn currently_live(index: &Vec<Livestream>, branch: Option<HoloBranch>) -> (r: Vec<
    LiveEmbedData,
>)
    ensures
        live_data_views(r@) == live_entries(stream_views(index@), branch),
{
    let ghost iv = stream_views(index@);
    let mut out: Vec<LiveEmbedData> = Vec::new();
    let mut i: usize = 0;
    while i < index.len()
        invariant
            i <= index@.len(),
            iv == stream_views(index@),
            live_data_views(out@) == live_entries(iv.take(i as int), branch),
        decreases index@.len() - i,
    {
        assert(iv.take(i + 1).drop_last() =~= iv.take(i as int));
        assert(iv.take(i + 1).last() == index@[i as int]@);
        let l = &index[i];
        let pass = match branch {
            Some(b) => l.streamer.branch == b,
            None => true,
        };
        if l.state == VideoStatus::Live && pass {
            let ghost prev = live_data_views(out@);
            out.push(
                LiveEmbedData {
                    role: l.streamer.discord_role,
                    title: l.title.clone(),
                    url: l.url.clone(),
                },
            );
            assert(live_data_views(out@) =~= prev.push(
                (l.streamer.discord_role, l.title@, l.url@),
            ));
        }
        i += 1;
    }
    assert(iv.take(i as int) =~= iv);
    out
}

/// The line of a live stream: its talent's role, its title and its link.
pub open spec fn live_line(d: (Option<u64>, Seq<char>, Seq<char>)) -> Seq<char> {
    role_mention(d.0) + "\r\n"@ + d.1 + "\r\n<https://youtube.com/watch?v="@ + d.2
        + ">\r\n\r\n"@
}

impl LiveEmbedData {
    /// The line that lists the stream.
    pub fn format(&self) -> (r: String)
        ensures
            r@ == live_line((self.role, self.title@, self.url@)),
    {
        let mut s = String::new();
        push_role_mention(&mut s, self.role);
        push_str(&mut s, "\r\n");
        push_str(&mut s, self.title.as_str());
        push_str(&mut s, "\r\n<https://youtube.com/watch?v=");
        push_str(&mut s, self.url.as_str());
        push_str(&mut s, ">\r\n\r\n");
        proof {
            reveal_strlit("");
            assert(s@ =~= live_line((self.role, self.title@, self.url@)));
        }
        s
    }
}

/// The whole minutes in `ms` milliseconds, rounded towards zero.
pub open spec fn whole_minutes(ms: int) -> int {
    if ms >= 0 {
        ms / 60000
    } else {
        -((-ms) / 60000)
    }
}

/// A scheduled stream as the `upcoming` command lists it.
#[derive(Debug)]
pub struct ScheduledEmbedData {
    pub role: Option<u64>,
    pub title: String,
    pub thumbnail: String,
    pub url: String,
    pub start_at: i64,
    pub colour: u32,
}

pub struct ScheduledView {
    pub role: Option<u64>,
    pub title: Seq<char>,
    pub thumbnail: Seq<char>,
    pub url: Seq<char>,
    pub start_at: i64,
    pub colour: u32,
}

impl View for ScheduledEmbedData {
    type V = ScheduledView;

    open spec fn view(&self) -> ScheduledView {
        ScheduledView {
            role: self.role,
            title: self.title@,
            thumbnail: self.thumbnail@,
            url: self.url@,
            start_at: self.start_at,
            colour: self.colour,
        }
    }
}

pub open spec fn scheduled_views(v: Seq<ScheduledEmbedData>) -> Seq<ScheduledView> {
    v.map_values(|d: ScheduledEmbedData| d@)
}

pub open spec fn start_key() -> spec_fn(ScheduledView) -> int {
    |d: ScheduledView| d.start_at as int
}

/// Whether the `upcoming` command lists a stream: it is scheduled, of the
/// branch if one is chosen, and starts at most `minutes` whole minutes after
/// `now`.
pub open spec fn upcoming_shown(l: LivestreamView, branch: Option<HoloBranch>, minutes: i64, now: i64) -> bool {
    l.state == VideoStatus::Upcoming && whole_minutes(l.start_at - now) <= minutes && of_branch(
        l,
        branch,
    )
}

pub open spec fn scheduled_entry(l: LivestreamView) -> ScheduledView {
    ScheduledView {
        role: l.streamer.discord_role,
        title: l.title,
        thumbnail: l.thumbnail,
        url: l.url,
        start_at: l.start_at,
        colour: l.streamer.colour,
    }
}

/// The streams that the `upcoming` command lists, by their start; streams
/// that start together stay in the order of the index.
pub open spec fn upcoming_entries(
    s: Seq<LivestreamView>,
    branch: Option<HoloBranch>,
    minutes: i64,
    now: i64,
) -> Seq<ScheduledView>
    decreases s.len(),
{
    if s.len() == 0 {
        Seq::empty()
    } else {
        let rest = upcoming_entries(s.drop_last(), branch, minutes, now);
        if upcoming_shown(s.last(), branch, minutes, now) {
            insert_by_key(rest, scheduled_entry(s.last()), start_key())
        } else {
            rest
        }
    }
}

/// The list of the `upcoming` command is ordered by start.
pub proof fn lemma_upcoming_sorted(
    s: Seq<LivestreamView>,
    branch: Option<HoloBranch>,
    minutes: i64,
    now: i64,
)
    ensures
        sorted_by_key(upcoming_entries(s, branch, minutes, now), start_key()),
    decreases s.len(),
{
    if s.len() > 0 {
        lemma_upcoming_sorted(s.drop_last(), branch, minutes, now);
        let rest = upcoming_entries(s.drop_last(), branch, minutes, now);
        if upcoming_shown(s.last(), branch, minutes, now) {
            lemma_insert_by_key_sorted(rest, scheduled_entry(s.last()), start_key());
        }
    }
}

/// The streams that the `upcoming` command lists: scheduled to start within
/// `minutes` minutes of `now` (milliseconds), of the branch if one is
/// chosen, ordered by their start.
pub fn upcoming_streams(
    index: &Vec<Livestream>,
    branch: Option<HoloBranch>,
    minutes: i64,
    now: i64,
) -> (r: Vec<ScheduledEmbedData>)
    ensures
        scheduled_views(r@) == upcoming_entries(stream_views(index@), branch, minutes, now),
{
    let ghost iv = stream_views(index@);
    let mut out: Vec<ScheduledEmbedData> = Vec::new();
    let mut i: usize = 0;
    while i < index.len()
        invariant
            i <= index@.len(),
            iv == stream_views(index@),
            scheduled_views(out@) == upcoming_entries(iv.take(i as int), branch, minutes, now),
        decreases index@.len() - i,
    {
        assert(iv.take(i + 1).drop_last() =~= iv.take(i as int));
        assert(iv.take(i + 1).last() == index@[i as int]@);
        let l = &index[i];
        let pass = match branch {
            Some(b) => l.streamer.branch == b,
            None => true,
        };
        let diff: i128 = (l.start_at as i128) - (now as i128);
        let soon = if diff >= 0 {
            diff / 60000 <= minutes as i128
        } else {
            -((-diff) / 60000) <= minutes as i128
        };
        if l.state == VideoStatus::Upcoming && soon && pass {
            let e = ScheduledEmbedData {
                role: l.streamer.discord_role,
                title: l.title.clone(),
                thumbnail: l.thumbnail.clone(),
                url: l.url.clone(),
                start_at: l.start_at,
                colour: l.streamer.colour,
            };
            let mut p: usize = 0;
            while p < out.len() && out[p].start_at <= e.start_at
                invariant
                    p <= out@.len(),
                    forall|j: int| 0 <= j < p ==> out@[j].start_at <= e.start_at,
                decreases out@.len() - p,
            {
                p += 1;
            }
            let ghost prev = scheduled_views(out@);
            proof {
                lemma_first_greater(prev, e@, start_key());
                let q = first_greater(prev, e@, start_key());
                assert forall|j: int| 0 <= j < p implies (start_key())(prev[j]) <= (start_key())(
                    e@,
                ) by {
                    assert(prev[j] == out@[j]@);
                }
                if q < p {
                    assert(prev[q] == out@[q]@);
                } else if p < q {
                    assert(prev[p as int] == out@[p as int]@);
                }
                assert(q == p);
            }
            out.insert(p, e);
            assert(scheduled_views(out@) =~= prev.insert(p as int, e@));
        }
        i += 1;
    }
    assert(iv.take(i as int) =~= iv);
    out
}

/// The description of a scheduled stream: its talent's role, its title and
/// its link.
pub open spec fn scheduled_description(d: ScheduledView) -> Seq<char> {
    role_mention(d.role) + "\r\n"@ + d.title + "\r\n<https://youtube.com/watch?v="@ + d.url
        + ">"@
}

impl ScheduledEmbedData {
    /// The description of the stream's embed.
    pub fn description(&self) -> (r: String)
        ensures
            r@ == scheduled_description(self@),
    {
        let mut s = String::new();
        push_role_mention(&mut s, self.role);
        push_str(&mut s, "\r\n");
        push_str(&mut s, self.title.as_str());
        push_str(&mut s, "\r\n<https://youtube.com/watch?v=");
        push_str(&mut s, self.url.as_str());
        push_str(&mut s, ">");
        proof {
            assert(s@ =~= scheduled_description(self@));
        }
        s
    }
}

/// A user of the configuration, with the time of their next birthday
/// (milliseconds since the epoch).
#[derive(Debug)]
pub struct BirthdayUser {
    pub display_name: String,
    pub branch: HoloBranch,
    pub discord_role: Option<u64>,
    pub next_birthday: i64,
}

pub open spec fn birthday_key() -> spec_fn((Seq<char>, i64)) -> int {
    |b: (Seq<char>, i64)| b.1 as int
}

pub open spec fn birthday_views(v: Seq<Birthday>) -> Seq<(Seq<char>, i64)> {
    v.map_values(|b: Birthday| (b.user@, b.birthday))
}

/// The users' next birthdays, soonest first; users whose birthdays fall
/// together stay in the order of the configuration.
pub open spec fn upcoming_birthdays(users: Seq<BirthdayUser>) -> Seq<(Seq<char>, i64)>
    decreases users.len(),
{
    if users.len() == 0 {
        Seq::empty()
    } else {
        insert_by_key(
            upcoming_birthdays(users.drop_last()),
            (users.last().display_name@, users.last().next_birthday),
            birthday_key(),
        )
    }
}

/// The birthday list is ordered by date.
pub proof fn lemma_upcoming_birthdays_sorted(users: Seq<BirthdayUser>)
    ensures
        sorted_by_key(upcoming_birthdays(users), birthday_key()),
        upcoming_birthdays(users).len() == users.len(),
    decreases users.len(),
{
    if users.len() > 0 {
        lemma_upcoming_birthdays_sorted(users.drop_last());
        lemma_insert_by_key_sorted(
            upcoming_birthdays(users.drop_last()),
            (users.last().display_name@, users.last().next_birthday),
            birthday_key(),
        );
    }
}

/// The next birthday of each user, soonest first.
pub fn get_upcoming_birthdays(users: &Vec<BirthdayUser>) -> (r: Vec<Birthday>)
    ensures
        birthday_views(r@) == upcoming_birthdays(users@),
{
    let mut out: Vec<Birthday> = Vec::new();
    let mut i: usize = 0;
    while i < users.len()
        invariant
            i <= users@.len(),
            birthday_views(out@) == upcoming_birthdays(users@.take(i as int)),
        decreases users@.len() - i,
    {
        assert(users@.take(i + 1).drop_last() =~= users@.take(i as int));
        assert(users@.take(i + 1).last() == users@[i as int]);
        let b = Birthday {
            user: users[i].display_name.clone(),
            birthday: users[i].next_birthday,
        };
        let mut p: usize = 0;
        while p < out.len() && out[p].birthday <= b.birthday
            invariant
                p <= out@.len(),
                forall|j: int| 0 <= j < p ==> out@[j].birthday <= b.birthday,
            decreases out@.len() - p,
        {
            p += 1;
        }
        let ghost prev = birthday_views(out@);
        let ghost bv = (b.user@, b.birthday);
        proof {
            lemma_first_greater(prev, bv, birthday_key());
            let q = first_greater(prev, bv, birthday_key());
            assert forall|j: int| 0 <= j < p implies (birthday_key())(prev[j]) <= (
            birthday_key())(bv) by {
                assert(prev[j] == (out@[j].user@, out@[j].birthday));
            }
            if q < p {
                assert(prev[q] == (out@[q].user@, out@[q].birthday));
            } else if p < q {
                assert(prev[p as int] == (out@[p as int].user@, out@[p as int].birthday));
            }
            assert(q == p);
        }
        out.insert(p, b);
        assert(birthday_views(out@) =~= prev.insert(p as int, bv));
        i += 1;
    }
    assert(users@.take(i as int) =~= users@);
    out
}

pub open spec fn ref_key() -> spec_fn((int, i64)) -> int {
    |b: (int, i64)| b.1 as int
}

pub open spec fn of_user_branch(u: BirthdayUser, branch: Option<HoloBranch>) -> bool {
    match branch {
        Some(b) => u.branch == b,
        None => true,
    }
}

/// The users of the branch, if one is chosen, by their position, with their
/// next birthday, soonest first; users whose birthdays fall together stay in
/// the order of the configuration.
pub open spec fn birthday_refs(users: Seq<BirthdayUser>, branch: Option<HoloBranch>) -> Seq<(int, i64)>
    decreases users.len(),
{
    if users.len() == 0 {
        Seq::empty()
    } else {
        let rest = birthday_refs(users.drop_last(), branch);
        if of_user_branch(users.last(), branch) {
            insert_by_key(rest, (users.len() - 1, users.last().next_birthday), ref_key())
        } else {
            rest
        }
    }
}

pub open spec fn ref_views(v: Seq<(usize, i64)>) -> Seq<(int, i64)> {
    v.map_values(|r: (usize, i64)| (r.0 as int, r.1))
}

/// The list of the `birthdays` command: the users of the branch, if one is
/// chosen, by position, soonest birthday first.
pub fn get_birthdays(users: &Vec<BirthdayUser>, branch: Option<HoloBranch>) -> (r: Vec<(usize, i64)>)
    ensures
        ref_views(r@) == birthday_refs(users@, branch),
{
    let mut out: Vec<(usize, i64)> = Vec::new();
    let mut i: usize = 0;
    while i < users.len()
        invariant
            i <= users@.len(),
            ref_views(out@) == birthday_refs(users@.take(i as int), branch),
        decreases users@.len() - i,
    {
        assert(users@.take(i + 1).drop_last() =~= users@.take(i as int));
        assert(users@.take(i + 1).last() == users@[i as int]);
        let pass = match branch {
            Some(b) => users[i].branch == b,
            None => true,
        };
        if pass {
            let b: (usize, i64) = (i, users[i].next_birthday);
            let mut p: usize = 0;
            while p < out.len() && out[p].1 <= b.1
                invariant
                    p <= out@.len(),
                    forall|j: int| 0 <= j < p ==> out@[j].1 <= b.1,
                decreases out@.len() - p,
            {
                p += 1;
            }
            let ghost prev = ref_views(out@);
            let ghost bv = (b.0 as int, b.1);
            proof {
                lemma_first_greater(prev, bv, ref_key());
                let q = first_greater(prev, bv, ref_key());
                assert forall|j: int| 0 <= j < p implies (ref_key())(prev[j]) <= (ref_key())(bv) by {
                    assert(prev[j] == (out@[j].0 as int, out@[j].1));
                }
                if q < p {
                    assert(prev[q] == (out@[q].0 as int, out@[q].1));
                } else if p < q {
                    assert(prev[p as int] == (out@[p as int].0 as int, out@[p as int].1));
                }
                assert(q == p);
            }
            out.insert(p, b);
            assert(ref_views(out@) =~= prev.insert(p as int, bv));
        }
        i += 1;
    }
    assert(users@.take(i as int) =~= users@);
    out
}

} // verus!
