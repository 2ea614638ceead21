//! What the bot posts to Discord and when: the messages for tweets, streams
//! going live, schedule updates, birthdays and reminders; where a tweet
//! replies to; the stream chat channels that are claimed and archived; and
//! how archived messages are formatted.

use vstd::prelude::*;
use vstd::string::*;
use crate::config::{opt_str_view, Reminder, ReminderLocation, ReminderSubscriber, Talent, TalentView};
use crate::holo::{
    talent_views, Livestream, LivestreamView, StreamUpdate, StreamUpdateView, VideoStatus,
};
use crate::mchad::{first_group, first_group_capture, opt_text};
use crate::text::{
    ascii_lower, chars_of, dec, dec2, parse_u64, parsed_u64, push_char, push_dec, push_dec2, push_str,
    str_eq,
};
use crate::tweets::{
    author_pos, author_search_defined, HoloTweet, HoloTweetReference, ScheduleUpdate,
};

verus! {

// ---------------------------------------------------------------------------
// Messages
// ---------------------------------------------------------------------------

/// A message of a channel, as a reply refers to it.
#[derive(Debug, Clone, Copy, PartialEq, Eq, Structural)]
pub struct MessageRef {
    pub channel_id: u64,
    pub message_id: Option<u64>,
    pub guild_id: Option<u64>,
}

/// The author line of an embed.
#[derive(Debug)]
pub struct EmbedAuthor {
    pub name: String,
    pub url: Option<String>,
    pub icon_url: Option<String>,
}

/// A field of an embed.
#[derive(Debug)]
pub struct EmbedField {
    pub name: String,
    pub value: String,
    pub inline: bool,
}

/// An embed of a message. `timestamp` is in milliseconds since the epoch.
#[derive(Debug)]
pub struct Embed {
    pub title: Option<String>,
    pub description: Option<String>,
    pub url: Option<String>,
    pub timestamp: Option<i64>,
    pub colour: Option<u32>,
    pub image: Option<String>,
    pub author: Option<EmbedAuthor>,
    pub fields: Vec<EmbedField>,
}

/// A message to send: its channel, the role it pings (only that role may be
/// mentioned), its text, its embed and the message it replies to.
#[derive(Debug)]
pub struct OutgoingMessage {
    pub channel: u64,
    pub ping_role: Option<u64>,
    pub content: Option<String>,
    pub embed: Embed,
    pub reference: Option<MessageRef>,
}

impl Embed {
    /// An embed with nothing set.
    pub fn empty() -> (r: Embed)
        ensures
            r.title is None && r.description is None && r.url is None && r.timestamp is None
                && r.colour is None && r.image is None && r.author is None && r.fields@.len()
                == 0,
    {
        Embed {
            title: None,
            description: None,
            url: None,
            timestamp: None,
            colour: None,
            image: None,
            author: None,
            fields: Vec::new(),
        }
    }
}

/// The YouTube channel page of a channel id.
pub open spec fn channel_page(id: Seq<char>) -> Seq<char> {
    "https://www.youtube.com/channel/"@ + id
}

/// The author line of a talent: name, channel page and icon.
pub open spec fn talent_author(a: EmbedAuthor, t: TalentView) -> bool {
    a.name@ == t.name && opt_str_view(a.url) == Some(channel_page(t.youtube_ch_id.unwrap()))
        && opt_str_view(a.icon_url) == Some(t.icon)
}

/// The author line of a talent.
fn author_of(talent: &Talent) -> (r: EmbedAuthor)
    requires
        talent.youtube_ch_id is Some,
    ensures
        talent_author(r, talent@),
{
    let mut url = String::new();
    push_str(&mut url, "https://www.youtube.com/channel/");
    match &talent.youtube_ch_id {
        Some(id) => push_str(&mut url, id.as_str()),
        None => {},
    }
    proof {
        reveal_strlit("https://www.youtube.com/channel/");
    }
    EmbedAuthor { name: talent.name.clone(), url: Some(url), icon_url: Some(talent.icon.clone()) }
}

fn same_opt_str(a: &Option<String>, b: &Option<String>) -> (r: bool)
    ensures
        r == (opt_str_view(*a) == opt_str_view(*b)),
{
    match (a, b) {
        (Some(x), Some(y)) => *x == *y,
        (None, None) => true,
        _ => false,
    }
}

/// Whether two talents are the same.
pub fn talent_eq(a: &Talent, b: &Talent) -> (r: bool)
    ensures
        r == (a@ == b@),
{
    a.name == b.name && a.english_name == b.english_name && a.emoji == b.emoji && a.icon
        == b.icon && a.colour == b.colour && a.branch == b.branch && a.discord_role
        == b.discord_role && same_opt_str(&a.youtube_ch_id, &b.youtube_ch_id) && a.twitter_id
        == b.twitter_id && same_opt_str(&a.twitter_handle, &b.twitter_handle) && same_opt_str(
        &a.schedule_keyword,
        &b.schedule_keyword,
    )
}

/// Where the first talent equal to `t` stands.
pub open spec fn talent_pos(tv: Seq<TalentView>, t: TalentView) -> Option<int>
    decreases tv.len(),
{
    if tv.len() == 0 {
        None
    } else if tv[0] == t {
        Some(0)
    } else {
        match talent_pos(tv.drop_first(), t) {
            Some(p) => Some(p + 1),
            None => None,
        }
    }
}

proof fn lemma_talent_pos(tv: Seq<TalentView>, t: TalentView)
    ensures
        match talent_pos(tv, t) {
            Some(p) => 0 <= p < tv.len() && tv[p] == t && forall|j: int| 0 <= j < p ==> tv[j] != t,
            None => forall|j: int| 0 <= j < tv.len() ==> tv[j] != t,
        },
    decreases tv.len(),
{
    if tv.len() > 0 && tv[0] != t {
        lemma_talent_pos(tv.drop_first(), t);
        assert forall|j: int| 1 <= j < tv.len() implies tv[j] == tv.drop_first()[j - 1] by {}
    }
}

/// The announcement that `live` went live, pinging its talent's role, when
/// its talent is among `talents`.
pub fn live_message(live: &Livestream, talents: &Vec<Talent>, channel: u64) -> (r: Option<
    OutgoingMessage,
>)
    requires
        forall|i: int| 0 <= i < talents@.len() ==> (#[trigger] talents@[i]).youtube_ch_id is Some,
    ensures
        match talent_pos(talent_views(talents@), live@.streamer) {
            None => r is None,
            Some(p) => r matches Some(m) && m.channel == channel && m.ping_role
                == talents@[p].discord_role && m.content is None && m.reference is None
                && opt_str_view(m.embed.title) == Some(talents@[p]@.name + " just went live!"@)
                && opt_str_view(m.embed.description) == Some(live@.title) && opt_str_view(
                m.embed.url,
            ) == Some(live@.url) && m.embed.timestamp == Some(live@.start_at) && m.embed.colour
                == Some(talents@[p].colour) && opt_str_view(m.embed.image) == Some(
                live@.thumbnail,
            ) && m.embed.fields@.len() == 0 && (m.embed.author matches Some(a) && talent_author(
                a,
                talents@[p]@,
            )),
        },
{
    let ghost tv = talent_views(talents@);
    proof {
        lemma_talent_pos(tv, live@.streamer);
    }
    let mut i: usize = 0;
    while i < talents.len()
        invariant
            i <= talents.len(),
            tv == talent_views(talents@),
            forall|j: int| 0 <= j < i ==> tv[j] != live@.streamer,
        ensures
            i <= talents.len(),
            forall|j: int| 0 <= j < i ==> tv[j] != live@.streamer,
            i < talents.len() ==> tv[i as int] == live@.streamer,
        decreases talents.len() - i,
    {
        if talent_eq(&talents[i], &live.streamer) {
            assert(tv[i as int] == talents@[i as int]@);
            break;
        }
        i += 1;
    }
    proof {
        lemma_talent_pos(tv, live@.streamer);
    }
    if i == talents.len() {
        return None;
    }
    assert(tv[i as int] == talents@[i as int]@);
    assert(talent_pos(tv, live@.streamer) == Some(i as int));
    let talent = &talents[i];
    let mut title = String::new();
    push_str(&mut title, talent.name.as_str());
    push_str(&mut title, " just went live!");
    let mut embed = Embed::empty();
    embed.title = Some(title);
    embed.description = Some(live.title.clone());
    embed.url = Some(live.url.clone());
    embed.timestamp = Some(live.start_at);
    embed.colour = Some(talent.colour);
    embed.image = Some(live.thumbnail.clone());
    embed.author = Some(author_of(talent));
    Some(
        OutgoingMessage {
            channel,
            ping_role: talent.discord_role,
            content: None,
            embed,
            reference: None,
        },
    )
}


/// The announcement of a schedule update, pinging the role of the talent
/// whose Twitter id posted it.
pub fn schedule_message(update: &ScheduleUpdate, talents: &Vec<Talent>, channel: u64) -> (r: Option<
    OutgoingMessage,
>)
    requires
        author_search_defined(talent_views(talents@), update.twitter_id),
        forall|i: int| 0 <= i < talents@.len() ==> (#[trigger] talents@[i]).youtube_ch_id is Some,
    ensures
        match author_pos(talent_views(talents@), update.twitter_id) {
            None => r is None,
            Some(p) => r matches Some(m) && m.channel == channel && m.ping_role
                == talents@[p].discord_role && m.content is None && m.reference is None
                && opt_str_view(m.embed.title) == Some(
                talents@[p]@.name + " just released a schedule update!"@,
            ) && opt_str_view(m.embed.description) == Some(update.tweet_text@) && opt_str_view(
                m.embed.url,
            ) == Some(update.tweet_link@) && m.embed.timestamp == Some(update.timestamp)
                && m.embed.colour == Some(talents@[p].colour) && opt_str_view(m.embed.image)
                == Some(update.schedule_image@) && m.embed.fields@.len() == 0 && (
            m.embed.author matches Some(a) && talent_author(a, talents@[p]@)),
        },
{
    let ghost tv = talent_views(talents@);
    let mut i: usize = 0;
    while i < talents.len()
        invariant
            i <= talents.len(),
            tv == talent_views(talents@),
            forall|j: int| 0 <= j < i ==> tv[j].twitter_id != Some(update.twitter_id),
        ensures
            i <= talents.len(),
            forall|j: int| 0 <= j < i ==> tv[j].twitter_id != Some(update.twitter_id),
            i < talents.len() ==> tv[i as int].twitter_id == Some(update.twitter_id),
        decreases talents.len() - i,
    {
        if talents[i].twitter_id == Some(update.twitter_id) {
            assert(tv[i as int] == talents@[i as int]@);
            break;
        }
        i += 1;
    }
    proof {
        crate::tweets::lemma_author_pos(tv, update.twitter_id);
    }
    if i == talents.len() {
        return None;
    }
    assert(tv[i as int] == talents@[i as int]@);
    let talent = &talents[i];
    let mut title = String::new();
    push_str(&mut title, talent.name.as_str());
    push_str(&mut title, " just released a schedule update!");
    let mut embed = Embed::empty();
    embed.title = Some(title);
    embed.description = Some(update.tweet_text.clone());
    embed.url = Some(update.tweet_link.clone());
    embed.timestamp = Some(update.timestamp);
    embed.colour = Some(talent.colour);
    embed.image = Some(update.schedule_image.clone());
    embed.author = Some(author_of(talent));
    Some(
        OutgoingMessage {
            channel,
            ping_role: talent.discord_role,
            content: None,
            embed,
            reference: None,
        },
    )
}

/// A talent's birthday: whose, and when (milliseconds since the epoch).
#[derive(Debug)]
pub struct Birthday {
    pub user: String,
    pub birthday: i64,
}

/// Where the first talent named `name` stands.
pub open spec fn name_pos(tv: Seq<TalentView>, name: Seq<char>) -> Option<int>
    decreases tv.len(),
{
    if tv.len() == 0 {
        None
    } else if tv[0].name == name {
        Some(0)
    } else {
        match name_pos(tv.drop_first(), name) {
            Some(p) => Some(p + 1),
            None => None,
        }
    }
}

proof fn lemma_name_pos(tv: Seq<TalentView>, name: Seq<char>)
    ensures
        match name_pos(tv, name) {
            Some(p) => 0 <= p < tv.len() && tv[p].name == name && forall|j: int|
                0 <= j < p ==> tv[j].name != name,
            None => forall|j: int| 0 <= j < tv.len() ==> tv[j].name != name,
        },
    decreases tv.len(),
{
    if tv.len() > 0 && tv[0].name != name {
        lemma_name_pos(tv.drop_first(), name);
        assert forall|j: int| 1 <= j < tv.len() implies tv[j] == tv.drop_first()[j - 1] by {}
    }
}

/// The birthday announcement of the talent named in `birthday`.
pub fn birthday_message(birthday: &Birthday, talents: &Vec<Talent>, channel: u64) -> (r: Option<
    OutgoingMessage,
>)
    requires
        forall|i: int| 0 <= i < talents@.len() ==> (#[trigger] talents@[i]).youtube_ch_id is Some,
    ensures
        match name_pos(talent_views(talents@), birthday.user@) {
            None => r is None,
            Some(p) => r matches Some(m) && m.channel == channel && m.ping_role
                == talents@[p].discord_role && m.content is None && m.reference is None
                && opt_str_view(m.embed.title) == Some(
                "It is "@ + talents@[p]@.name + "'s birthday today!!!"@,
            ) && m.embed.description is None && m.embed.url is None && m.embed.timestamp == Some(
                birthday.birthday,
            ) && m.embed.colour == Some(talents@[p].colour) && m.embed.image is None
                && m.embed.fields@.len() == 0 && (m.embed.author matches Some(a) && talent_author(
                a,
                talents@[p]@,
            )),
        },
{
    let ghost tv = talent_views(talents@);
    let mut i: usize = 0;
    while i < talents.len()
        invariant
            i <= talents.len(),
            tv == talent_views(talents@),
            forall|j: int| 0 <= j < i ==> tv[j].name != birthday.user@,
        ensures
            i <= talents.len(),
            forall|j: int| 0 <= j < i ==> tv[j].name != birthday.user@,
            i < talents.len() ==> tv[i as int].name == birthday.user@,
        decreases talents.len() - i,
    {
        if talents[i].name == birthday.user {
            assert(tv[i as int] == talents@[i as int]@);
            break;
        }
        i += 1;
    }
    proof {
        lemma_name_pos(tv, birthday.user@);
    }
    if i == talents.len() {
        return None;
    }
    assert(tv[i as int] == talents@[i as int]@);
    let talent = &talents[i];
    let mut title = String::new();
    push_str(&mut title, "It is ");
    push_str(&mut title, talent.name.as_str());
    push_str(&mut title, "'s birthday today!!!");
    let mut embed = Embed::empty();
    embed.title = Some(title);
    embed.timestamp = Some(birthday.birthday);
    embed.colour = Some(talent.colour);
    embed.author = Some(author_of(talent));
    Some(
        OutgoingMessage {
            channel,
            ping_role: talent.discord_role,
            content: None,
            embed,
            reference: None,
        },
    )
}

/// The channel a subscriber is reminded in, and whether it is public: a
/// channel of a guild as given, or the user's DM channel (`dm`, none where it
/// could not be opened).
pub open spec fn reminder_channel(s: ReminderSubscriber, dm: Option<u64>) -> Option<(u64, bool)> {
    match s.location {
        ReminderLocation::DM => match dm {
            Some(c) => Some((c, false)),
            None => None,
        },
        ReminderLocation::Channel(id) => Some((id, true)),
    }
}

/// A channel to remind in: the channel, whether it is public, and the users
/// to mention there.
pub struct ReminderGroup {
    pub channel: u64,
    pub public: bool,
    pub users: Vec<u64>,
}

pub struct ReminderGroupView {
    pub channel: u64,
    pub public: bool,
    pub users: Seq<u64>,
}

impl View for ReminderGroup {
    type V = ReminderGroupView;

    open spec fn view(&self) -> ReminderGroupView {
        ReminderGroupView { channel: self.channel, public: self.public, users: self.users@ }
    }
}

pub open spec fn group_views(v: Seq<ReminderGroup>) -> Seq<ReminderGroupView> {
    v.map_values(|g: ReminderGroup| g@)
}

pub open spec fn group_pos(gs: Seq<ReminderGroupView>, ch: u64) -> Option<int>
    decreases gs.len(),
{
    if gs.len() == 0 {
        None
    } else if gs.last().channel == ch {
        Some(gs.len() - 1)
    } else {
        group_pos(gs.drop_last(), ch)
    }
}

proof fn lemma_group_pos(gs: Seq<ReminderGroupView>, ch: u64)
    ensures
        match group_pos(gs, ch) {
            Some(p) => 0 <= p < gs.len() && gs[p].channel == ch,
            None => forall|j: int| 0 <= j < gs.len() ==> gs[j].channel != ch,
        },
    decreases gs.len(),
{
    if gs.len() > 0 && gs.last().channel != ch {
        lemma_group_pos(gs.drop_last(), ch);
        if group_pos(gs, ch) is None {
            assert forall|j: int| 0 <= j < gs.len() implies gs[j].channel != ch by {
                if j < gs.len() - 1 {
                    assert(gs.drop_last()[j] == gs[j]);
                }
            }
        }
    }
}

/// The channels to remind in, in the order they first come: the first
/// subscriber in a channel opens it (public as that subscriber's channel is)
/// without being listed, each later one is listed to be mentioned.
pub open spec fn reminder_groups(subs: Seq<ReminderSubscriber>, dms: Seq<Option<u64>>) -> Seq<
    ReminderGroupView,
>
    decreases subs.len(),
{
    if subs.len() == 0 {
        Seq::empty()
    } else {
        let prev = reminder_groups(subs.drop_last(), dms);
        let s = subs.last();
        match reminder_channel(s, dms[subs.len() - 1]) {
            None => prev,
            Some((ch, public)) => match group_pos(prev, ch) {
                Some(p) => prev.update(
                    p,
                    ReminderGroupView {
                        channel: ch,
                        public: prev[p].public,
                        users: prev[p].users.push(s.user),
                    },
                ),
                None => prev.push(ReminderGroupView { channel: ch, public, users: Seq::empty() }),
            },
        }
    }
}

/// Groups a reminder's subscribers by the channel they are reminded in.
/// `dms` holds, for each subscriber, its DM channel where one was opened.
pub fn group_reminder(reminder: &Reminder, dms: &Vec<Option<u64>>) -> (r: Vec<ReminderGroup>)
    requires
        dms@.len() == reminder.subscribers@.len(),
    ensures
        group_views(r@) == reminder_groups(reminder.subscribers@, dms@),
{
    let ghost subs = reminder.subscribers@;
    let mut groups: Vec<ReminderGroup> = Vec::new();
    let mut i: usize = 0;
    assert(group_views(groups@) =~= reminder_groups(subs.take(0), dms@));
    while i < reminder.subscribers.len()
        invariant
            i <= subs.len(),
            subs == reminder.subscribers@,
            dms@.len() == subs.len(),
            group_views(groups@) == reminder_groups(subs.take(i as int), dms@),
        decreases subs.len() - i,
    {
        let s = reminder.subscribers[i];
        assert(subs.take(i + 1).drop_last() =~= subs.take(i as int));
        assert(subs.take(i + 1).last() == s);
        let ghost prev = group_views(groups@);
        let target = match s.location {
            ReminderLocation::DM => match dms[i] {
                Some(c) => Some((c, false)),
                None => None,
            },
            ReminderLocation::Channel(id) => Some((id, true)),
        };
        match target {
            None => {},
            Some((ch, public)) => {
                proof {
                    lemma_group_pos(prev, ch);
                }
                let mut j: usize = groups.len();
                let mut found: Option<usize> = None;
                assert(prev.take(j as int) =~= prev);
                while j > 0
                    invariant
                        j <= groups.len(),
                        prev == group_views(groups@),
                        found is None ==> group_pos(prev, ch) == group_pos(prev.take(j as int), ch),
                        found matches Some(f) ==> group_pos(prev, ch) == Some(f as int) && f
                            < groups.len(),
                    decreases j,
                {
                    if found.is_none() {
                        assert(prev.take(j as int).drop_last() =~= prev.take(j - 1));
                        assert(prev.take(j as int).last() == groups@[j - 1]@);
                        if groups[j - 1].channel == ch {
                            found = Some(j - 1);
                        }
                    }
                    j -= 1;
                }
                match found {
                    Some(f) => {
                        let mut g = groups.remove(f);
                        g.users.push(s.user);
                        let ghost gv = g@;
                        groups.insert(f, g);
                        assert(group_views(groups@) =~= prev.update(f as int, gv));
                    },
                    None => {
                        groups.push(ReminderGroup { channel: ch, public, users: Vec::new() });
                        assert(group_views(groups@) =~= prev.push(
                            ReminderGroupView { channel: ch, public, users: Seq::empty() },
                        ));
                    },
                }
            },
        }
        i += 1;
    }
    assert(subs.take(i as int) =~= subs);
    groups
}

/// The mentions of `users`, each followed by a space, the last space trimmed.
pub open spec fn mention_list(users: Seq<u64>) -> Seq<char>
    decreases users.len(),
{
    if users.len() == 0 {
        Seq::empty()
    } else if users.len() == 1 {
        "<@"@ + dec(users[0] as nat) + ">"@
    } else {
        mention_list(users.drop_last()) + " <@"@ + dec(users.last() as nat) + ">"@
    }
}

/// The reminder message for one channel: in a public channel it mentions the
/// listed users.
pub fn reminder_message(reminder: &Reminder, group: &ReminderGroup) -> (r: OutgoingMessage)
    ensures
        r.channel == group.channel && r.ping_role is None && r.reference is None && (if group.public {
            r.content matches Some(c) && c@ == mention_list(group.users@)
        } else {
            r.content is None
        }) && opt_str_view(r.embed.title) == Some("Reminder!"@) && opt_str_view(
            r.embed.description,
        ) == Some(reminder.message@) && r.embed.timestamp == Some(reminder.time)
            && r.embed.url is None && r.embed.colour is None && r.embed.image is None
            && r.embed.author is None && r.embed.fields@.len() == 0,
{
    let content = if group.public {
        let mut c = String::new();
        let mut i: usize = 0;
        proof {
            reveal_strlit("<@");
            reveal_strlit(">");
            reveal_strlit(" <@");
        }
        assert(c@ =~= mention_list(group.users@.take(0)));
        while i < group.users.len()
            invariant
                i <= group.users.len(),
                c@ == mention_list(group.users@.take(i as int)),
            decreases group.users.len() - i,
        {
            assert(group.users@.take(i + 1).drop_last() =~= group.users@.take(i as int));
            if i == 0 {
                push_str(&mut c, "<@");
            } else {
                push_str(&mut c, " <@");
            }
            push_dec(&mut c, group.users[i]);
            push_str(&mut c, ">");
            assert(c@ =~= mention_list(group.users@.take(i + 1)));
            i += 1;
        }
        assert(group.users@.take(i as int) =~= group.users@);
        Some(c)
    } else {
        None
    };
    let mut embed = Embed::empty();
    embed.title = Some(String::from_str("Reminder!"));
    embed.description = Some(reminder.message.clone());
    embed.timestamp = Some(reminder.time);
    OutgoingMessage { channel: group.channel, ping_role: None, content, embed, reference: None }
}

/// Where a tweet's reply points: nowhere, to a message in the same channel,
/// or to the link of a message elsewhere; each with the replied-to user.
#[derive(Debug)]
pub enum TweetReply {
    NoReply,
    SameChannel(String, MessageRef),
    OtherChannel(String, String),
}

/// Whether `r` is the post of `tweet` to `channel`, with its reply `reply`:
/// the talent's colour and author line, the text as description (or, for a
/// reply shown by link, as a field after the link), the first image, the
/// machine translation as the last field, and the replied-to message.
pub open spec fn tweet_message_of(r: OutgoingMessage, tweet: HoloTweet, reply: TweetReply, channel: u64) -> bool {
    r.channel == channel && r.ping_role is None && r.content is None && r.embed.colour == Some(
        tweet.user.colour,
    ) && (r.embed.author matches Some(a) && a.name@ == tweet.user@.name && opt_str_view(a.url)
        == Some(tweet.link@) && opt_str_view(a.icon_url) == Some(tweet.user@.icon))
        && r.embed.title is None && r.embed.url is None && r.embed.timestamp is None
        && opt_str_view(r.embed.image) == (if tweet.media@.len() > 0 {
        Some(tweet.media@[0]@)
    } else {
        None
    }) && match reply {
        TweetReply::OtherChannel(user, link) => r.embed.description is None && r.embed.fields@.len()
            >= 1 && r.embed.fields@[0].name@ == "Replying to "@ + user@ && r.embed.fields@[0].value@
            == "[Link to tweet]("@ + link@ + ")"@ && !r.embed.fields@[0].inline && (if tweet.text@.len() > 0 {
            r.embed.fields@.len() >= 2 && r.embed.fields@[1].name@ == "Tweet"@ && r.embed.fields@[1].value@
                == tweet.text@ && !r.embed.fields@[1].inline
        } else {
            true
        }),
        _ => opt_str_view(r.embed.description) == Some(tweet.text@),
    } && r.embed.fields@.len() == (match reply {
        TweetReply::OtherChannel(_, _) => if tweet.text@.len() > 0 {
            2int
        } else {
            1
        },
        _ => 0,
    }) + (if tweet.translation is Some {
        1int
    } else {
        0
    }) && (match tweet.translation {
        Some(tl) => r.embed.fields@.last().name@ == "Machine Translation"@
            && r.embed.fields@.last().value@ == tl@ && !r.embed.fields@.last().inline,
        None => true,
    }) && r.reference == match reply {
        TweetReply::SameChannel(_, m) => Some(m),
        _ => None,
    }
}

/// The post of a talent's tweet to its Twitter channel.
pub fn tweet_message(tweet: &HoloTweet, reply: &TweetReply, channel: u64) -> (r: OutgoingMessage)
    ensures
        tweet_message_of(r, *tweet, *reply, channel),
{
    let mut embed = Embed::empty();
    embed.colour = Some(tweet.user.colour);
    embed.author = Some(
        EmbedAuthor {
            name: tweet.user.name.clone(),
            url: Some(tweet.link.clone()),
            icon_url: Some(tweet.user.icon.clone()),
        },
    );
    proof {
        reveal_strlit("Replying to ");
        reveal_strlit("[Link to tweet](");
        reveal_strlit(")");
        reveal_strlit("Tweet");
        reveal_strlit("Machine Translation");
    }
    match reply {
        TweetReply::OtherChannel(user, link) => {
            let mut name = String::new();
            push_str(&mut name, "Replying to ");
            push_str(&mut name, user.as_str());
            let mut value = String::new();
            push_str(&mut value, "[Link to tweet](");
            push_str(&mut value, link.as_str());
            push_str(&mut value, ")");
            embed.fields.push(EmbedField { name, value, inline: false });
            if !tweet.text.as_str().is_empty() {
                embed.fields.push(
                    EmbedField {
                        name: String::from_str("Tweet"),
                        value: tweet.text.clone(),
                        inline: false,
                    },
                );
            }
        },
        _ => {
            embed.description = Some(tweet.text.clone());
        },
    }
    if tweet.media.len() > 0 {
        embed.image = Some(tweet.media[0].clone());
    }
    match &tweet.translation {
        Some(tl) => {
            embed.fields.push(
                EmbedField {
                    name: String::from_str("Machine Translation"),
                    value: tl.clone(),
                    inline: false,
                },
            );
        },
        None => {},
    }
    let reference = match reply {
        TweetReply::SameChannel(_, m) => Some(*m),
        _ => None,
    };
    OutgoingMessage { channel, ping_role: None, content: None, embed, reference }
}


// ---------------------------------------------------------------------------
// Where a tweet replies to
// ---------------------------------------------------------------------------

#[verifier::external_type_specification]
#[verifier::external_body]
#[verifier::reject_recursive_types(K)]
#[verifier::reject_recursive_types(V)]
#[verifier::reject_recursive_types(S)]
pub struct ExLruCache<K, V, S>(lru::LruCache<K, V, S>);

/// The cache of posted tweets: by tweet id, the message that posted it and
/// the name of its talent.
pub type TweetCache = lru::LruCache<u64, (MessageRef, String)>;

/// The posted tweets that the cache remembers: by tweet id, the message that
/// posted it and the name of its talent.
pub uninterp spec fn tweet_cache(c: TweetCache) -> Map<
    u64,
    (MessageRef, Seq<char>),
>;

/// How many posted tweets the cache remembers at most.
pub uninterp spec fn tweet_cache_cap(c: TweetCache) -> nat;

/// The tweet ids that the cache holds, from the least to the most recently
/// used.
pub uninterp spec fn tweet_cache_order(c: TweetCache) -> Seq<u64>;

/// The order of use after `key` is used: it moves to the end.
pub open spec fn used_last(order: Seq<u64>, key: u64) -> Seq<u64> {
    order.filter(|k: u64| k != key).push(key)
}

/// The order of use after the cache is asked for the tweet that
/// `replied_to` names, if any: a held tweet becomes the most recently used.
pub open spec fn order_after_lookup(
    entries: Map<u64, (MessageRef, Seq<char>)>,
    order: Seq<u64>,
    replied_to: Option<HoloTweetReference>,
) -> Seq<u64> {
    match replied_to {
        Some(t) => if entries.contains_key(t.tweet) {
            used_last(order, t.tweet)
        } else {
            order
        },
        None => order,
    }
}

/// Whether putting `key` into a cache that holds `entries` and has room for
/// `cap` of them drops its least recently used entry: `key` is new and the
/// cache full.
pub open spec fn put_evicts(entries: Map<u64, (MessageRef, Seq<char>)>, cap: nat, key: u64) -> bool {
    !entries.contains_key(key) && entries.len() >= cap
}

/// What a cache holds after `value` is put under `key`: when that evicts, the
/// least recently used entry (the first of `order`) goes first.
pub open spec fn entries_after_put(
    entries: Map<u64, (MessageRef, Seq<char>)>,
    order: Seq<u64>,
    cap: nat,
    key: u64,
    value: (MessageRef, Seq<char>),
) -> Map<u64, (MessageRef, Seq<char>)> {
    if put_evicts(entries, cap, key) {
        entries.remove(order[0]).insert(key, value)
    } else {
        entries.insert(key, value)
    }
}

/// The order of use after a put of `key`: `key` is the most recently used,
/// and an evicted entry leaves the front.
pub open spec fn order_after_put(
    entries: Map<u64, (MessageRef, Seq<char>)>,
    order: Seq<u64>,
    cap: nat,
    key: u64,
) -> Seq<u64> {
    if put_evicts(entries, cap, key) {
        order.drop_first().push(key)
    } else {
        used_last(order, key)
    }
}

/// lru's `LruCache::new`: an empty cache that holds at most `cap` entries.
#[verifier::external_body]
fn new_tweet_cache(cap: usize) -> (r: TweetCache)
    requires
        cap > 0,
    ensures
        tweet_cache(r).dom() == Set::<u64>::empty(),
        tweet_cache_cap(r) == cap,
        tweet_cache_order(r) == Seq::<u64>::empty(),
{
    lru::LruCache::new(std::num::NonZeroUsize::new(cap).unwrap())
}

/// lru's `LruCache::get`: the entry of `key`, if the cache holds one. The call
/// also makes the entry the most recently used; what the cache holds does not
/// change.
#[verifier::external_body]
fn cache_get(c: &mut TweetCache, key: u64) -> (r: Option<(MessageRef, String)>)
    ensures
        tweet_cache(*final(c)) == tweet_cache(*old(c)),
        tweet_cache_cap(*final(c)) == tweet_cache_cap(*old(c)),
        tweet_cache_order(*final(c)) == if tweet_cache(*old(c)).contains_key(key) {
            used_last(tweet_cache_order(*old(c)), key)
        } else {
            tweet_cache_order(*old(c))
        },
        match r {
            Some((m, n)) => tweet_cache(*old(c)).contains_key(key) && tweet_cache(*old(c))[key]
                == (m, n@),
            None => !tweet_cache(*old(c)).contains_key(key),
        },
{
    match c.get(&key) {
        Some((m, n)) => Some((*m, n.clone())),
        None => None,
    }
}

/// lru's `LruCache::put`: the cache now holds `value` for `key`, which
/// becomes the most recently used; when `key` was new and the cache full, the
/// least recently used entry was dropped first.
#[verifier::external_body]
fn cache_put(c: &mut TweetCache, key: u64, value: (MessageRef, String))
    ensures
        tweet_cache_cap(*final(c)) == tweet_cache_cap(*old(c)),
        tweet_cache(*final(c)) == entries_after_put(
            tweet_cache(*old(c)),
            tweet_cache_order(*old(c)),
            tweet_cache_cap(*old(c)),
            key,
            (value.0, value.1@),
        ),
        tweet_cache_order(*final(c)) == order_after_put(
            tweet_cache(*old(c)),
            tweet_cache_order(*old(c)),
            tweet_cache_cap(*old(c)),
            key,
        ),
{
    c.put(key, value);
}

/// The cache of posted tweets that the posting of tweets keeps: the last
/// 1024.
pub fn posting_cache() -> (r: TweetCache)
    ensures
        tweet_cache(r).dom() == Set::<u64>::empty(),
        tweet_cache_cap(r) == 1024,
        tweet_cache_order(r) == Seq::<u64>::empty(),
{
    new_tweet_cache(1024)
}

/// Where a tweet's reply is found: settled, in a message of another channel
/// whose link is to be fetched, or to be searched for among the recent
/// messages of a talent's Twitter channel.
#[derive(Debug)]
pub enum ReplyLookup {
    Done(TweetReply),
    Link { user: String, message: MessageRef },
    Search { user: String, channel: u64 },
}

/// The reply of a message found for the replied-to tweet: in the same
/// channel it is a reply; elsewhere its link is shown, when it has an id.
pub fn reply_to_message(user: String, message: MessageRef, message_channel: u64, twitter_channel: u64) -> (r:
    ReplyLookup)
    ensures
        if message_channel == twitter_channel {
            r matches ReplyLookup::Done(TweetReply::SameChannel(u, m)) && u@ == user@ && m
                == message
        } else if message.message_id is Some {
            r matches ReplyLookup::Link { user: u, message: m } && u@ == user@ && m == message
        } else {
            r matches ReplyLookup::Done(TweetReply::NoReply)
        },
{
    if message_channel == twitter_channel {
        ReplyLookup::Done(TweetReply::SameChannel(user, message))
    } else if message.message_id.is_some() {
        ReplyLookup::Link { user, message }
    } else {
        ReplyLookup::Done(TweetReply::NoReply)
    }
}

/// Whether `r` is where the reply of a tweet that replied to `replied_to` is
/// found, for a post to `twitter_channel`, given the posted tweets `cache`,
/// the talents `tv` and their Twitter channels `channels`.
pub open spec fn reply_planned(
    r: ReplyLookup,
    replied_to: Option<HoloTweetReference>,
    cache: Map<u64, (MessageRef, Seq<char>)>,
    twitter_channel: u64,
    tv: Seq<TalentView>,
    channels: Seq<Option<u64>>,
) -> bool {
    match replied_to {
        None => r matches ReplyLookup::Done(TweetReply::NoReply),
        Some(t) => if cache.contains_key(t.tweet) {
            let (m, n) = cache[t.tweet];
            if m.channel_id == twitter_channel {
                r matches ReplyLookup::Done(TweetReply::SameChannel(u, mr)) && u@ == n && mr == m
            } else if m.message_id is Some {
                r matches ReplyLookup::Link { user: u, message: mr } && u@ == n && mr == m
            } else {
                r matches ReplyLookup::Done(TweetReply::NoReply)
            }
        } else {
            match author_pos(tv, t.user) {
                None => r matches ReplyLookup::Done(TweetReply::NoReply),
                Some(p) => match channels[p] {
                    None => r matches ReplyLookup::Done(TweetReply::NoReply),
                    Some(ch) => r matches ReplyLookup::Search { user: u, channel: c } && u@
                        == tv[p].name && c == ch,
                },
            }
        },
    }
}

/// The pattern of a tweet's link in a posted tweet's embed; its group is the
/// tweet's id.
pub const TWEET_LINK_PATTERN: &'static str = r"https://twitter\.com/\d+/status/(\d+)/?";

pub open spec fn opt_url_views(v: Seq<Option<String>>) -> Seq<Option<Seq<char>>> {
    v.map_values(|u: Option<String>| opt_text(u))
}

/// The tweet id that an embed's link names: the group of the tweet link
/// pattern, read as a number.
pub open spec fn embed_tweet_id(url: Option<Seq<char>>) -> Option<u64> {
    match url {
        Some(u) => match first_group_capture(TWEET_LINK_PATTERN@, u) {
            Some(d) => parsed_u64(d),
            None => None,
        },
        None => None,
    }
}

/// The tweet id of a message, taken from the first of its embeds (by their
/// links, `urls`) whose link names one.
pub open spec fn message_tweet_id(urls: Seq<Option<Seq<char>>>) -> Option<u64>
    decreases urls.len(),
{
    if urls.len() == 0 {
        None
    } else {
        match embed_tweet_id(urls[0]) {
            Some(id) => Some(id),
            None => message_tweet_id(urls.drop_first()),
        }
    }
}

/// The tweet id of a message of a Twitter channel, by the links of its
/// embeds; the search for a replied-to tweet stops at the message whose id
/// is the tweet's.
pub fn message_tweet(embed_urls: &Vec<Option<String>>) -> (r: Option<u64>)
    ensures
        r == message_tweet_id(opt_url_views(embed_urls@)),
{
    let ghost all = opt_url_views(embed_urls@);
    assert(all.skip(0) =~= all);
    let mut i: usize = 0;
    while i < embed_urls.len()
        invariant
            i <= embed_urls.len(),
            all == opt_url_views(embed_urls@),
            message_tweet_id(all) == message_tweet_id(all.skip(i as int)),
        decreases embed_urls.len() - i,
    {
        assert(all.skip(i as int)[0] == all[i as int]);
        assert(all.skip(i as int).drop_first() =~= all.skip(i + 1));
        let found = match &embed_urls[i] {
            Some(u) => match first_group(TWEET_LINK_PATTERN, u.as_str()) {
                Some(d) => parse_u64(d.as_str()),
                None => None,
            },
            None => None,
        };
        assert(found == embed_tweet_id(all[i as int]));
        if let Some(id) = found {
            return Some(id);
        }
        i += 1;
    }
    assert(all.skip(i as int) =~= Seq::<Option<Seq<char>>>::empty());
    None
}

/// The first message, among `messages` (newest first, each with the links of
/// its embeds), whose tweet id is `tweet`.
pub open spec fn tweet_message_pos(messages: Seq<(MessageRef, Seq<Option<Seq<char>>>)>, tweet: u64) -> Option<
    int,
>
    decreases messages.len(),
{
    if messages.len() == 0 {
        None
    } else if message_tweet_id(messages[0].1) == Some(tweet) {
        Some(0)
    } else {
        match tweet_message_pos(messages.drop_first(), tweet) {
            Some(p) => Some(p + 1),
            None => None,
        }
    }
}

pub open spec fn message_views(v: Seq<(MessageRef, Vec<Option<String>>)>) -> Seq<
    (MessageRef, Seq<Option<Seq<char>>>),
> {
    v.map_values(|m: (MessageRef, Vec<Option<String>>)| (m.0, opt_url_views(m.1@)))
}

/// The message that posted the tweet `tweet`, searched among the recent
/// messages of a Twitter channel (newest first, each with the links of its
/// embeds).
pub fn find_tweet_message(messages: &Vec<(MessageRef, Vec<Option<String>>)>, tweet: u64) -> (r:
    Option<MessageRef>)
    ensures
        match tweet_message_pos(message_views(messages@), tweet) {
            Some(p) => r == Some(messages@[p].0),
            None => r is None,
        },
{
    let ghost all = message_views(messages@);
    assert(all.skip(0) =~= all);
    let mut i: usize = 0;
    while i < messages.len()
        invariant
            i <= messages.len(),
            all == message_views(messages@),
            tweet_message_pos(all, tweet) == match tweet_message_pos(all.skip(i as int), tweet) {
                Some(p) => Some(p + i),
                None => None::<int>,
            },
        decreases messages.len() - i,
    {
        assert(all.skip(i as int)[0] == all[i as int]);
        assert(all.skip(i as int).drop_first() =~= all.skip(i + 1));
        if message_tweet(&messages[i].1) == Some(tweet) {
            return Some(messages[i].0);
        }
        i += 1;
    }
    None
}

/// A tweet that was posted to a channel and remembered is found again by a
/// later tweet of that channel that replies to it: the new post replies to
/// the remembered message, naming the remembered talent.
pub proof fn lemma_posted_tweet_is_replied_to(
    entries: Map<u64, (MessageRef, Seq<char>)>,
    order: Seq<u64>,
    cap: nat,
    posted: u64,
    channel: u64,
    message_id: u64,
    name: Seq<char>,
    reply: ReplyLookup,
    replied_user: u64,
    tv: Seq<TalentView>,
    channels: Seq<Option<u64>>,
)
    requires
        reply_planned(
            reply,
            Some(HoloTweetReference { user: replied_user, tweet: posted }),
            entries_after_put(
                entries,
                order,
                cap,
                posted,
                (MessageRef { channel_id: channel, message_id: Some(message_id), guild_id: None }, name),
            ),
            channel,
            tv,
            channels,
        ),
    ensures
        reply matches ReplyLookup::Done(TweetReply::SameChannel(u, m)) && u@ == name && m == (
        MessageRef { channel_id: channel, message_id: Some(message_id), guild_id: None }),
{
}

/// Where the tweet that `replied_to` names is posted: first in the cache of
/// posted tweets; else, when a talent has the replied-to user's Twitter id,
/// in that talent's Twitter channel (`talent_channels`, by talent), if it has
/// one.
pub fn plan_reply(
    replied_to: Option<HoloTweetReference>,
    cache: &mut TweetCache,
    twitter_channel: u64,
    talents: &Vec<Talent>,
    talent_channels: &Vec<Option<u64>>,
) -> (r: ReplyLookup)
    requires
        talent_channels@.len() == talents@.len(),
    ensures
        tweet_cache(*final(cache)) == tweet_cache(*old(cache)),
        tweet_cache_cap(*final(cache)) == tweet_cache_cap(*old(cache)),
        tweet_cache_order(*final(cache)) == order_after_lookup(
            tweet_cache(*old(cache)),
            tweet_cache_order(*old(cache)),
            replied_to,
        ),
        reply_planned(
            r,
            replied_to,
            tweet_cache(*old(cache)),
            twitter_channel,
            talent_views(talents@),
            talent_channels@,
        ),
{
    let t = match replied_to {
        Some(t) => t,
        None => {
            return ReplyLookup::Done(TweetReply::NoReply);
        },
    };
    match cache_get(cache, t.tweet) {
        Some((m, n)) => {
            return reply_to_message(n, m, m.channel_id, twitter_channel);
        },
        None => {},
    }
    let ghost tv = talent_views(talents@);
    let mut i: usize = 0;
    while i < talents.len()
        invariant
            i <= talents.len(),
            tv == talent_views(talents@),
            forall|j: int| 0 <= j < i ==> tv[j].twitter_id != Some(t.user),
        ensures
            i <= talents.len(),
            forall|j: int| 0 <= j < i ==> tv[j].twitter_id != Some(t.user),
            i < talents.len() ==> tv[i as int].twitter_id == Some(t.user),
        decreases talents.len() - i,
    {
        if talents[i].twitter_id == Some(t.user) {
            assert(tv[i as int] == talents@[i as int]@);
            break;
        }
        i += 1;
    }
    proof {
        crate::tweets::lemma_author_pos(tv, t.user);
    }
    if i == talents.len() {
        return ReplyLookup::Done(TweetReply::NoReply);
    }
    assert(tv[i as int] == talents@[i as int]@);
    match talent_channels[i] {
        None => ReplyLookup::Done(TweetReply::NoReply),
        Some(ch) => ReplyLookup::Search { user: talents[i].name.clone(), channel: ch },
    }
}

/// The reply after searching the talent's Twitter channel `tweet_channel`:
/// none if the tweet was not found there.
pub fn reply_after_search(user: String, found: Option<MessageRef>, tweet_channel: u64, twitter_channel: u64) -> (r:
    ReplyLookup)
    ensures
        match found {
            None => r matches ReplyLookup::Done(TweetReply::NoReply),
            Some(message) => if tweet_channel == twitter_channel {
                r matches ReplyLookup::Done(TweetReply::SameChannel(u, m)) && u@ == user@ && m
                    == message
            } else if message.message_id is Some {
                r matches ReplyLookup::Link { user: u, message: m } && u@ == user@ && m == message
            } else {
                r matches ReplyLookup::Done(TweetReply::NoReply)
            },
        },
{
    match found {
        None => ReplyLookup::Done(TweetReply::NoReply),
        Some(message) => reply_to_message(user, message, tweet_channel, twitter_channel),
    }
}

/// Remembers that tweet `tweet_id` of the talent `name` was posted as message
/// `message_id` of `channel`; a full cache forgets its least recently used
/// tweet to make room for a new one.
pub fn remember_tweet(
    cache: &mut TweetCache,
    tweet_id: u64,
    channel: u64,
    message_id: u64,
    name: String,
)
    ensures
        tweet_cache_cap(*final(cache)) == tweet_cache_cap(*old(cache)),
        tweet_cache(*final(cache)) == entries_after_put(
            tweet_cache(*old(cache)),
            tweet_cache_order(*old(cache)),
            tweet_cache_cap(*old(cache)),
            tweet_id,
            (MessageRef { channel_id: channel, message_id: Some(message_id), guild_id: None }, name@),
        ),
        tweet_cache_order(*final(cache)) == order_after_put(
            tweet_cache(*old(cache)),
            tweet_cache_order(*old(cache)),
            tweet_cache_cap(*old(cache)),
            tweet_id,
        ),
        tweet_cache(*final(cache)).contains_key(tweet_id),
        tweet_cache(*final(cache))[tweet_id] == (
            MessageRef { channel_id: channel, message_id: Some(message_id), guild_id: None },
            name@,
        ),
{
    let ghost n = name@;
    cache_put(
        cache,
        tweet_id,
        (MessageRef { channel_id: channel, message_id: Some(message_id), guild_id: None }, name),
    );
}

/// What posting a tweet does next.
#[derive(Debug)]
pub enum PostStep {
    /// The talent has no Twitter channel: nothing is sent.
    Skip,
    /// Send this one message, then report it to `PostingThread::sent`.
    Send(OutgoingMessage),
    /// Find the reply as this says (fetch the message's link, or search the
    /// channel and call `reply_after_search`), then build the one message to
    /// send with `PostingThread::message`.
    Lookup(ReplyLookup),
}

/// The posting of talents' tweets to their Twitter channels, with the cache
/// of the tweets posted so far.
pub struct PostingThread {
    pub cache: TweetCache,
}

impl PostingThread {
    /// Nothing posted yet; the cache holds the last 1024 posts.
    pub fn new() -> (r: PostingThread)
        ensures
            tweet_cache(r.cache).dom() == Set::<u64>::empty(),
            tweet_cache_cap(r.cache) == 1024,
            tweet_cache_order(r.cache) == Seq::<u64>::empty(),
    {
        PostingThread { cache: posting_cache() }
    }

    /// A tweet to post, with its talent's Twitter channel if the talent has
    /// one (`talent_channels` gives each talent's). A talent without a
    /// channel gets no message. Otherwise exactly one message goes to the
    /// channel: built now when the reply is settled by the cache or the
    /// talents, else after the lookup that the step names.
    pub fn on_tweet(
        &mut self,
        tweet: &HoloTweet,
        twitter_channel: Option<u64>,
        talents: &Vec<Talent>,
        talent_channels: &Vec<Option<u64>>,
    ) -> (r: PostStep)
        requires
            talent_channels@.len() == talents@.len(),
        ensures
            tweet_cache(final(self).cache) == tweet_cache(old(self).cache),
            tweet_cache_cap(final(self).cache) == tweet_cache_cap(old(self).cache),
            tweet_cache_order(final(self).cache) == if twitter_channel is None {
                tweet_cache_order(old(self).cache)
            } else {
                order_after_lookup(
                    tweet_cache(old(self).cache),
                    tweet_cache_order(old(self).cache),
                    tweet.replied_to,
                )
            },
            match twitter_channel {
                None => r is Skip,
                Some(c) => match r {
                    PostStep::Skip => false,
                    PostStep::Send(m) => exists|reply: TweetReply|
                        reply_planned(
                            ReplyLookup::Done(reply),
                            tweet.replied_to,
                            tweet_cache(old(self).cache),
                            c,
                            talent_views(talents@),
                            talent_channels@,
                        ) && #[trigger] tweet_message_of(m, *tweet, reply, c),
                    PostStep::Lookup(l) => !(l is Done) && reply_planned(
                        l,
                        tweet.replied_to,
                        tweet_cache(old(self).cache),
                        c,
                        talent_views(talents@),
                        talent_channels@,
                    ),
                },
            },
    {
        let c = match twitter_channel {
            None => {
                return PostStep::Skip;
            },
            Some(c) => c,
        };
        let l = plan_reply(tweet.replied_to, &mut self.cache, c, talents, talent_channels);
        match l {
            ReplyLookup::Done(reply) => {
                let m = tweet_message(tweet, &reply, c);
                assert(tweet_message_of(m, *tweet, reply, c));
                PostStep::Send(m)
            },
            _ => PostStep::Lookup(l),
        }
    }

    /// The one message that posts `tweet` to `channel` once its reply is
    /// known.
    pub fn message(&self, tweet: &HoloTweet, reply: &TweetReply, channel: u64) -> (r: OutgoingMessage)
        ensures
            tweet_message_of(r, *tweet, *reply, channel),
    {
        tweet_message(tweet, reply, channel)
    }

    /// The post of `tweet` to `channel` was sent as message `sent`, or
    /// sending failed (`None`): a sent tweet is remembered under its id with
    /// its talent's name; a failure changes nothing.
    pub fn sent(&mut self, tweet: &HoloTweet, channel: u64, sent: Option<u64>)
        ensures
            tweet_cache_cap(final(self).cache) == tweet_cache_cap(old(self).cache),
            match sent {
                None => {
                    &&& tweet_cache(final(self).cache) == tweet_cache(old(self).cache)
                    &&& tweet_cache_order(final(self).cache) == tweet_cache_order(old(self).cache)
                },
                Some(id) => {
                    &&& tweet_cache(final(self).cache) == entries_after_put(
                        tweet_cache(old(self).cache),
                        tweet_cache_order(old(self).cache),
                        tweet_cache_cap(old(self).cache),
                        tweet.id,
                        (
                            MessageRef { channel_id: channel, message_id: Some(id), guild_id: None },
                            tweet.user.name@,
                        ),
                    )
                    &&& tweet_cache_order(final(self).cache) == order_after_put(
                        tweet_cache(old(self).cache),
                        tweet_cache_order(old(self).cache),
                        tweet_cache_cap(old(self).cache),
                        tweet.id,
                    )
                },
            },
    {
        match sent {
            None => {},
            Some(id) => remember_tweet(&mut self.cache, tweet.id, channel, id, tweet.user.name.clone()),
        }
    }
}


// ---------------------------------------------------------------------------
// Archiving stream chats
// ---------------------------------------------------------------------------

/// How long before a stream chat is archived, in seconds.
pub const ARCHIVAL_WARNING_SECS: u64 = 300;

/// How the archival of a stream chat begins, once its messages are read.
#[derive(Debug, Clone, Copy, PartialEq, Eq, Structural)]
pub enum ArchiveStart {
    /// No message is kept: the channel is deleted and nothing is posted.
    DeleteChannel,
    /// The archival notice is posted in the channel, the log of the kept
    /// messages goes to the log channel, and the channel is deleted after
    /// the warning time.
    PostNoticeAndLog,
}

/// How archiving a chat with `kept` messages to archive begins.
pub fn archive_start(kept: usize) -> (r: ArchiveStart)
    ensures
        (r == ArchiveStart::DeleteChannel) == (kept == 0),
        (r == ArchiveStart::PostNoticeAndLog) == (kept > 0),
{
    if kept == 0 {
        ArchiveStart::DeleteChannel
    } else {
        ArchiveStart::PostNoticeAndLog
    }
}

/// How long to wait, in milliseconds, before the channel is deleted, when
/// posting the notice and the log took `elapsed_ms`: the rest of the warning
/// time. (A longer posting is outside: the warning time minus a longer
/// duration does not exist.)
pub fn deletion_delay_ms(elapsed_ms: u64) -> (r: u64)
    requires
        elapsed_ms <= ARCHIVAL_WARNING_SECS * 1000,
    ensures
        r == ARCHIVAL_WARNING_SECS * 1000 - elapsed_ms,
{
    ARCHIVAL_WARNING_SECS * 1000 - elapsed_ms
}

/// When the archival happens, in words, for a delay of `secs` seconds: "now"
/// within half a minute, whole minutes rounded up from 50 seconds on and
/// down up to 10 seconds, else minutes and seconds.
pub open spec fn archival_time_text(secs: nat) -> Seq<char> {
    let m = secs / 60;
    let s = secs % 60;
    if m == 0 && s <= 30 {
        "now"@
    } else if 50 <= s {
        "in "@ + dec(m + 1) + " minutes"@
    } else if s <= 10 {
        "in "@ + dec(m) + " minutes"@
    } else if m == 0 {
        "in "@ + dec(s) + " seconds"@
    } else {
        "in "@ + dec(m) + " minutes and "@ + dec(s) + " seconds"@
    }
}

/// When the archival happens, in words.
pub fn formatted_archival_time(secs: u64) -> (r: String)
    ensures
        r@ == archival_time_text(secs as nat),
{
    let m = secs / 60;
    let s = secs % 60;
    let mut r = String::new();
    proof {
        reveal_strlit("now");
        reveal_strlit("in ");
        reveal_strlit(" minutes");
        reveal_strlit(" seconds");
        reveal_strlit(" minutes and ");
    }
    if m == 0 && s <= 30 {
        push_str(&mut r, "now");
    } else if 50 <= s {
        push_str(&mut r, "in ");
        push_dec(&mut r, m + 1);
        push_str(&mut r, " minutes");
    } else if s <= 10 {
        push_str(&mut r, "in ");
        push_dec(&mut r, m);
        push_str(&mut r, " minutes");
    } else if m == 0 {
        push_str(&mut r, "in ");
        push_dec(&mut r, s);
        push_str(&mut r, " seconds");
    } else {
        push_str(&mut r, "in ");
        push_dec(&mut r, m);
        push_str(&mut r, " minutes and ");
        push_dec(&mut r, s);
        push_str(&mut r, " seconds");
    }
    r
}

/// The notice posted in a stream chat before it is archived: it points to the
/// discussion channel of the stream's branch, if there is one, and has the
/// stream's colour, or the bot's.
pub fn archive_notice(discussion: Option<u64>, colour: Option<u32>) -> (r: Embed)
    ensures
        opt_str_view(r.title) == Some("Stream has ended!"@),
        opt_str_view(r.description) == Some(
            match discussion {
                Some(ch) => "Feel free to continue talking in <#"@ + dec(ch as nat)
                    + ">!\nThis stream will be archived "@ + archival_time_text(300) + "."@,
                None => "This stream will be archived "@ + archival_time_text(300) + "."@,
            },
        ),
        r.colour == Some(
            match colour {
                Some(c) => c,
                None => 6_282_735u32,
            },
        ),
        r.url is None && r.timestamp is None && r.image is None && r.author is None
            && r.fields@.len() == 0,
{
    let when = formatted_archival_time(ARCHIVAL_WARNING_SECS);
    let mut d = String::new();
    proof {
        reveal_strlit("Feel free to continue talking in <#");
        reveal_strlit(">!\nThis stream will be archived ");
        reveal_strlit("This stream will be archived ");
        reveal_strlit(".");
    }
    match discussion {
        Some(ch) => {
            push_str(&mut d, "Feel free to continue talking in <#");
            push_dec(&mut d, ch);
            push_str(&mut d, ">!\nThis stream will be archived ");
        },
        None => {
            push_str(&mut d, "This stream will be archived ");
        },
    }
    push_str(&mut d, when.as_str());
    push_str(&mut d, ".");
    let mut e = Embed::empty();
    e.title = Some(String::from_str("Stream has ended!"));
    e.description = Some(d);
    e.colour = Some(
        match colour {
            Some(c) => c,
            None => 6_282_735,
        },
    );
    e
}

/// The kind of a Discord message, as far as archiving tells them apart.
#[derive(Debug, Clone, Copy, PartialEq, Eq, Structural)]
pub enum MessageKind {
    Regular,
    InlineReply,
    Other,
}

/// Whether a message of a stream chat is archived: not from a bot, with text
/// or attachments, text of at most 1000 bytes, a plain message or reply, and
/// not only emojis unless it has attachments.
pub open spec fn archived(
    author_bot: bool,
    content: Seq<char>,
    content_bytes: nat,
    has_attachments: bool,
    kind: MessageKind,
    only_emojis: bool,
) -> bool {
    !author_bot && !(content.len() == 0 && !has_attachments) && content_bytes <= 1000 && (kind
        == MessageKind::Regular || kind == MessageKind::InlineReply) && !(!has_attachments
        && only_emojis)
}

/// The bot's side of Discord: posting, archiving and stream chats.
pub struct DiscordApi;

impl DiscordApi {
    /// Whether a message of a stream chat is archived. `only_emojis` says whether
    /// its text is emojis alone.
    pub fn should_message_be_archived(
        author_bot: bool,
        content: &str,
        has_attachments: bool,
        kind: MessageKind,
        only_emojis: bool,
    ) -> (r: bool)
        ensures
            r == archived(
                author_bot,
                content@,
                crate::twitter::byte_len(content@) as nat,
                has_attachments,
                kind,
                only_emojis,
            ),
    {
        if author_bot {
            return false;
        }
        if content.is_empty() && !has_attachments {
            return false;
        }
        if content.len() > 1000 {
            return false;
        }
        match kind {
            MessageKind::Regular | MessageKind::InlineReply => {},
            _ => {
                return false;
            },
        }
        if !has_attachments && only_emojis {
            return false;
        }
        true
    }
}

/// The time of an archived message relative to the stream's start, for a
/// difference of `secs` seconds: hours (when not zero) with two digits, then
/// minutes and seconds with two digits; a minus before messages from before
/// the start; from the start on, linked to that moment of the video, if
/// there is one.
pub open spec fn timestamp_text(secs: int, video_id: Option<Seq<char>>) -> Seq<char> {
    let a = if secs < 0 {
        -secs
    } else {
        secs
    };
    let hours = if a / 3600 != 0 {
        dec2((a / 3600) as nat) + ":"@
    } else {
        Seq::empty()
    };
    let body = hours + dec2(((a / 60) % 60) as nat) + ":"@ + dec2((a % 60) as nat);
    if secs < 0 {
        "-"@ + body
    } else {
        match video_id {
            Some(id) => "["@ + body + "](https://youtu.be/"@ + id + "?t="@ + dec(secs as nat)
                + ")"@,
            None => body,
        }
    }
}

/// The time of an archived message relative to the stream's start.
pub fn format_timestamp(secs: i64, video_id: Option<&str>) -> (r: String)
    ensures
        r@ == timestamp_text(
            secs as int,
            match video_id {
                Some(v) => Some(v@),
                None => None,
            },
        ),
{
    let a: u64 = if secs < 0 {
        if secs == i64::MIN {
            9223372036854775808u64
        } else {
            (-secs) as u64
        }
    } else {
        secs as u64
    };
    let mut body = String::new();
    proof {
        reveal_strlit(":");
        reveal_strlit("-");
        reveal_strlit("[");
        reveal_strlit("](https://youtu.be/");
        reveal_strlit("?t=");
        reveal_strlit(")");
    }
    if a / 3600 != 0 {
        push_dec2(&mut body, a / 3600);
        push_str(&mut body, ":");
    }
    push_dec2(&mut body, (a / 60) % 60);
    push_str(&mut body, ":");
    push_dec2(&mut body, a % 60);
    if secs < 0 {
        let mut r = String::new();
        push_str(&mut r, "-");
        push_str(&mut r, body.as_str());
        return r;
    }
    match video_id {
        Some(id) => {
            let mut r = String::new();
            push_str(&mut r, "[");
            push_str(&mut r, body.as_str());
            push_str(&mut r, "](https://youtu.be/");
            push_str(&mut r, id);
            push_str(&mut r, "?t=");
            push_dec(&mut r, secs as u64);
            push_str(&mut r, ")");
            r
        },
        None => body,
    }
}

/// An archived message's line: its time, its author's mention and its text,
/// then a line with its attachments' URLs, if it has any.
pub open spec fn archived_line(time: Seq<char>, author: u64, content: Seq<char>, urls: Seq<Seq<char>>) -> Seq<char> {
    time + " <@"@ + dec(author as nat) + ">: "@ + content + "\n"@ + if urls.len() > 0 {
        joined(urls) + "\n"@
    } else {
        Seq::empty()
    }
}

/// The strings joined by single spaces.
pub open spec fn joined(v: Seq<Seq<char>>) -> Seq<char>
    decreases v.len(),
{
    if v.len() == 0 {
        Seq::empty()
    } else if v.len() == 1 {
        v[0]
    } else {
        joined(v.drop_last()) + " "@ + v.last()
    }
}

pub open spec fn string_views(v: Seq<String>) -> Seq<Seq<char>> {
    v.map_values(|s: String| s@)
}

/// An archived message as it is logged.
pub fn archived_message_text(time: &str, author: u64, content: &str, urls: &Vec<String>) -> (r: String)
    ensures
        r@ == archived_line(time@, author, content@, string_views(urls@)),
{
    let mut r = String::new();
    proof {
        reveal_strlit(" <@");
        reveal_strlit(">: ");
        reveal_strlit("\n");
        reveal_strlit(" ");
    }
    push_str(&mut r, time);
    push_str(&mut r, " <@");
    push_dec(&mut r, author);
    push_str(&mut r, ">: ");
    push_str(&mut r, content);
    push_str(&mut r, "\n");
    let ghost head = r@;
    if urls.len() > 0 {
        let ghost us = string_views(urls@);
        let mut i: usize = 0;
        assert(r@ =~= head + joined(us.take(0)));
        while i < urls.len()
            invariant
                i <= urls.len(),
                us == string_views(urls@),
                r@ == head + joined(us.take(i as int)),
            decreases urls.len() - i,
        {
            assert(us.take(i + 1).drop_last() =~= us.take(i as int));
            if i > 0 {
                push_str(&mut r, " ");
            }
            push_str(&mut r, urls[i].as_str());
            assert(r@ =~= head + joined(us.take(i + 1)));
            i += 1;
        }
        assert(us.take(i as int) =~= us);
        push_str(&mut r, "\n");
    }
    r
}

/// The name of a stream's chat channel: the talent's emoji, the talent's
/// name in lower-case ASCII with spaces as dashes, and "stream".
pub open spec fn stream_channel_name(l: LivestreamView) -> Seq<char> {
    l.streamer.emoji + "-"@ + dashed(ascii_lower(l.streamer.name)) + "-stream"@
}

/// `s` with spaces turned into dashes.
pub open spec fn dashed(s: Seq<char>) -> Seq<char> {
    s.map_values(|c: char| if c == ' ' { '-' } else { c })
}

/// The name of a stream's chat channel.
pub fn channel_name(stream: &Livestream) -> (r: String)
    ensures
        r@ == stream_channel_name(stream@),
{
    let lower = crate::text::to_ascii_lower(stream.streamer.name.as_str());
    let cs = chars_of(lower.as_str());
    let mut r = String::new();
    push_str(&mut r, stream.streamer.emoji.as_str());
    push_str(&mut r, "-");
    proof {
        reveal_strlit("-");
        reveal_strlit("-stream");
    }
    let ghost head = r@;
    let mut i: usize = 0;
    while i < cs.len()
        invariant
            i <= cs.len(),
            cs@ == ascii_lower(stream.streamer.name@),
            r@ == head + dashed(cs@.take(i as int)),
        decreases cs.len() - i,
    {
        let c = cs[i];
        push_char(&mut r, if c == ' ' { '-' } else { c });
        assert(dashed(cs@.take(i + 1)) =~= dashed(cs@.take(i as int)).push(
            if c == ' ' {
                '-'
            } else {
                c
            },
        ));
        i += 1;
    }
    assert(cs@.take(i as int) =~= cs@);
    push_str(&mut r, "-stream");
    r
}

/// The first message of a claimed stream chat.
pub fn now_watching(stream: &Livestream) -> (r: Embed)
    requires
        stream.streamer.youtube_ch_id is Some,
    ensures
        opt_str_view(r.title) == Some("Now watching"@) && opt_str_view(r.description) == Some(
            stream@.title,
        ) && opt_str_view(r.url) == Some(stream@.url) && r.timestamp == Some(stream@.start_at)
            && r.colour == Some(stream@.streamer.colour) && opt_str_view(r.image) == Some(
            stream@.thumbnail,
        ) && r.fields@.len() == 0 && (r.author matches Some(a) && talent_author(
            a,
            stream@.streamer,
        )),
{
    let mut e = Embed::empty();
    e.title = Some(String::from_str("Now watching"));
    e.description = Some(stream.title.clone());
    e.url = Some(stream.url.clone());
    e.timestamp = Some(stream.start_at);
    e.colour = Some(stream.streamer.colour);
    e.image = Some(stream.thumbnail.clone());
    e.author = Some(author_of(&stream.streamer));
    e
}

/// The first stream of the index whose URL is `topic`.
pub open spec fn stream_with_url(index: Seq<LivestreamView>, topic: Seq<char>) -> Option<int>
    decreases index.len(),
{
    if index.len() == 0 {
        None
    } else if index[0].url == topic {
        Some(0)
    } else {
        match stream_with_url(index.drop_first(), topic) {
            Some(p) => Some(p + 1),
            None => None,
        }
    }
}

proof fn lemma_stream_with_url(index: Seq<LivestreamView>, topic: Seq<char>)
    ensures
        match stream_with_url(index, topic) {
            Some(p) => 0 <= p < index.len() && index[p].url == topic && forall|j: int|
                0 <= j < p ==> index[j].url != topic,
            None => forall|j: int| 0 <= j < index.len() ==> index[j].url != topic,
        },
    decreases index.len(),
{
    if index.len() > 0 && index[0].url != topic {
        lemma_stream_with_url(index.drop_first(), topic);
        assert forall|j: int| 1 <= j < index.len() implies index[j] == index.drop_first()[j - 1] by {}
    }
}

pub open spec fn stream_views(v: Seq<Livestream>) -> Seq<LivestreamView> {
    v.map_values(|l: Livestream| l@)
}

impl DiscordApi {
    /// The stream whose chat a channel with topic `topic` is: the first stream
    /// with that URL, when it is live or over; none for an upcoming one.
    pub fn try_find_stream_for_channel(topic: &str, index: &Vec<Livestream>) -> (r: Option<(Livestream, VideoStatus)>)
        requires
            stream_with_url(stream_views(index@), topic@) matches Some(p) ==> (index@[p].state
                != VideoStatus::New && index@[p].state != VideoStatus::Missing),
        ensures
            match stream_with_url(stream_views(index@), topic@) {
                None => r is None,
                Some(p) => if index@[p].state == VideoStatus::Upcoming {
                    r is None
                } else {
                    r matches Some((s, st)) && s@ == index@[p]@ && st == index@[p].state
                },
            },
    {
        let ghost iv = stream_views(index@);
        let mut i: usize = 0;
        while i < index.len()
            invariant
                i <= index.len(),
                iv == stream_views(index@),
                forall|j: int| 0 <= j < i ==> iv[j].url != topic@,
            ensures
                i <= index.len(),
                forall|j: int| 0 <= j < i ==> iv[j].url != topic@,
                i < index.len() ==> iv[i as int].url == topic@,
            decreases index.len() - i,
        {
            if str_eq(index[i].url.as_str(), topic) {
                assert(iv[i as int] == index@[i as int]@);
                break;
            }
            i += 1;
        }
        proof {
            lemma_stream_with_url(iv, topic@);
        }
        if i == index.len() {
            return None;
        }
        assert(iv[i as int] == index@[i as int]@);
        let s = &index[i];
        match s.state {
            VideoStatus::Upcoming => None,
            _ => Some((s.copy(), s.state)),
        }
    }
}


// ---------------------------------------------------------------------------
// Stream chats
// ---------------------------------------------------------------------------

/// A stream chat channel that is claimed for a stream.
#[derive(Debug)]
pub struct ClaimedChat {
    pub stream: Livestream,
    pub channel: u64,
}

pub struct ClaimedChatView {
    pub stream: LivestreamView,
    pub channel: u64,
}

impl View for ClaimedChat {
    type V = ClaimedChatView;

    open spec fn view(&self) -> ClaimedChatView {
        ClaimedChatView { stream: self.stream@, channel: self.channel }
    }
}

pub open spec fn chat_views(v: Seq<ClaimedChat>) -> Seq<ClaimedChatView> {
    v.map_values(|c: ClaimedChat| c@)
}

/// Where the chat of stream `id` stands.
pub open spec fn chat_pos(s: Seq<ClaimedChatView>, id: Seq<char>) -> Option<int>
    decreases s.len(),
{
    if s.len() == 0 {
        None
    } else if s.last().stream.id == id {
        Some(s.len() - 1)
    } else {
        chat_pos(s.drop_last(), id)
    }
}

proof fn lemma_chat_pos(s: Seq<ClaimedChatView>, id: Seq<char>)
    ensures
        match chat_pos(s, id) {
            Some(p) => 0 <= p < s.len() && s[p].stream.id == id,
            None => forall|j: int| 0 <= j < s.len() ==> s[j].stream.id != id,
        },
    decreases s.len(),
{
    if s.len() > 0 && s.last().stream.id != id {
        lemma_chat_pos(s.drop_last(), id);
        if chat_pos(s, id) is None {
            assert forall|j: int| 0 <= j < s.len() implies s[j].stream.id != id by {
                if j < s.len() - 1 {
                    assert(s.drop_last()[j] == s[j]);
                }
            }
        }
    }
}

pub open spec fn distinct_chats(s: Seq<ClaimedChatView>) -> bool {
    forall|i: int, j: int|
        0 <= i < s.len() && 0 <= j < s.len() && i != j ==> s[i].stream.id != s[j].stream.id
}

/// What the stream chats ask for: a chat channel to create for a stream, or
/// a channel to archive, with its stream where it is known.
#[derive(Debug)]
pub enum ChatAction {
    Claim(Livestream),
    Archive { channel: u64, stream: Option<Livestream> },
}

pub enum ChatActionView {
    Claim(LivestreamView),
    Archive { channel: u64, stream: Option<LivestreamView> },
}

impl View for ChatAction {
    type V = ChatActionView;

    open spec fn view(&self) -> ChatActionView {
        match self {
            ChatAction::Claim(s) => ChatActionView::Claim(s@),
            ChatAction::Archive { channel, stream } => ChatActionView::Archive {
                channel: *channel,
                stream: match stream {
                    Some(s) => Some(s@),
                    None => None,
                },
            },
        }
    }
}

pub open spec fn opt_chat_action(o: Option<ChatAction>) -> Option<ChatActionView> {
    match o {
        Some(a) => Some(a@),
        None => None,
    }
}

/// The chats after the chat of stream `l` in `channel` is claimed: in place
/// of a chat of the same stream, else at the end.
pub open spec fn with_chat(s: Seq<ClaimedChatView>, l: LivestreamView, channel: u64) -> Seq<
    ClaimedChatView,
> {
    let c = ClaimedChatView { stream: l, channel };
    match chat_pos(s, l.id) {
        Some(p) => s.update(p, c),
        None => s.push(c),
    }
}

/// What a stream update does to the chats: a stream that started gets a chat
/// unless it has one; the chat of a stream that ended is archived; other
/// updates change nothing.
pub open spec fn chats_after(s: Seq<ClaimedChatView>, u: StreamUpdateView) -> (
    Seq<ClaimedChatView>,
    Option<ChatActionView>,
) {
    match u {
        StreamUpdateView::Started(l) => if chat_pos(s, l.id) is Some {
            (s, None)
        } else {
            (s, Some(ChatActionView::Claim(l)))
        },
        StreamUpdateView::Ended(id) => match chat_pos(s, id) {
            Some(p) => (
                s.remove(p),
                Some(ChatActionView::Archive { channel: s[p].channel, stream: Some(s[p].stream) }),
            ),
            None => (s, None),
        },
        _ => (s, None),
    }
}

/// The stream chat channels that are claimed, at most one per stream.
pub struct StreamChats {
    chats: Vec<ClaimedChat>,
}

impl View for StreamChats {
    type V = Seq<ClaimedChatView>;

    closed spec fn view(&self) -> Seq<ClaimedChatView> {
        chat_views(self.chats@)
    }
}

impl StreamChats {
    pub closed spec fn wf(&self) -> bool {
        distinct_chats(self@)
    }

    /// No claimed chats.
    pub fn new() -> (r: StreamChats)
        ensures
            r.wf(),
            r@ == Seq::<ClaimedChatView>::empty(),
    {
        let r = StreamChats { chats: Vec::new() };
        assert(r@ =~= Seq::<ClaimedChatView>::empty());
        r
    }

    /// Where the chat of stream `id` stands.
    fn position(&self, id: &str) -> (r: Option<usize>)
        ensures
            match r {
                Some(i) => chat_pos(self@, id@) == Some(i as int),
                None => chat_pos(self@, id@) is None,
            },
    {
        let ghost s = self@;
        let mut i: usize = self.chats.len();
        assert(s.take(i as int) =~= s);
        while i > 0
            invariant
                i <= self.chats.len(),
                s == chat_views(self.chats@),
                chat_pos(s, id@) == chat_pos(s.take(i as int), id@),
            decreases i,
        {
            assert(s.take(i as int).drop_last() =~= s.take(i - 1));
            assert(s.take(i as int).last() == self.chats@[i - 1]@);
            if str_eq(self.chats[i - 1].stream.id.as_str(), id) {
                return Some(i - 1);
            }
            i -= 1;
        }
        None
    }

    /// Records that the chat of `stream` is `channel`.
    pub fn claimed(&mut self, stream: Livestream, channel: u64)
        requires
            old(self).wf(),
        ensures
            final(self).wf(),
            final(self)@ == with_chat(old(self)@, stream@, channel),
    {
        let ghost s = self@;
        let ghost c = ClaimedChatView { stream: stream@, channel };
        proof {
            lemma_chat_pos(s, stream@.id);
        }
        match self.position(stream.id.as_str()) {
            Some(p) => {
                let _ = self.chats.remove(p);
                self.chats.insert(p, ClaimedChat { stream, channel });
                assert(self@ =~= s.update(p as int, c));
                assert forall|a: int, b: int|
                    0 <= a < self@.len() && 0 <= b < self@.len() && a != b implies self@[a].stream.id
                    != self@[b].stream.id by {
                    assert(a != p ==> self@[a] == s[a]);
                    assert(b != p ==> self@[b] == s[b]);
                }
            },
            None => {
                self.chats.push(ClaimedChat { stream, channel });
                assert(self@ =~= s.push(c));
                assert forall|a: int, b: int|
                    0 <= a < self@.len() && 0 <= b < self@.len() && a != b implies self@[a].stream.id
                    != self@[b].stream.id by {
                    assert(a < s.len() ==> self@[a] == s[a]);
                    assert(b < s.len() ==> self@[b] == s[b]);
                }
            },
        }
    }

    /// Whether stream `id` has a chat.
    pub fn has_chat(&self, id: &str) -> (r: bool)
        ensures
            r == (chat_pos(self@, id@) is Some),
    {
        self.position(id).is_some()
    }

    /// What a stream update asks of the chats.
    pub fn on_update(&mut self, update: &StreamUpdate) -> (r: Option<ChatAction>)
        requires
            old(self).wf(),
        ensures
            final(self).wf(),
            chats_after(old(self)@, update@) == (final(self)@, opt_chat_action(r)),
    {
        let ghost s = self@;
        match update {
            StreamUpdate::Started(stream) => {
                if self.position(stream.id.as_str()).is_some() {
                    None
                } else {
                    Some(ChatAction::Claim(stream.copy()))
                }
            },
            StreamUpdate::Ended(id) => match self.position(id.as_str()) {
                Some(p) => {
                    proof {
                        lemma_chat_pos(s, id@);
                    }
                    let c = self.chats.remove(p);
                    assert(self@ =~= s.remove(p as int));
                    assert forall|a: int, b: int|
                        0 <= a < self@.len() && 0 <= b < self@.len() && a != b implies self@[a].stream.id
                        != self@[b].stream.id by {
                        let x = if a < p { a } else { a + 1 };
                        let y = if b < p { b } else { b + 1 };
                        assert(self@[a] == s[x] && self@[b] == s[y]);
                    }
                    Some(ChatAction::Archive { channel: c.channel, stream: Some(c.stream) })
                },
                None => None,
            },
            _ => None,
        }
    }
}

/// The chat of a stream is archived once: after its end is handled, a second
/// end of the same stream asks for nothing.
pub proof fn lemma_chat_archived_once(s: Seq<ClaimedChatView>, id: Seq<char>)
    requires
        distinct_chats(s),
    ensures
        ({
            let first = chats_after(s, StreamUpdateView::Ended(id));
            chats_after(first.0, StreamUpdateView::Ended(id)).1 is None
        }),
{
    lemma_chat_pos(s, id);
    match chat_pos(s, id) {
        Some(p) => {
            let t = s.remove(p);
            lemma_chat_pos(t, id);
            if chat_pos(t, id) is Some {
                let q = chat_pos(t, id).unwrap();
                let x = if q < p { q } else { q + 1 };
                assert(t[q] == s[x]);
            }
        },
        None => {},
    }
}

pub open spec fn old_chat_views(v: Seq<(u64, String)>) -> Seq<(u64, Seq<char>)> {
    v.map_values(|c: (u64, String)| (c.0, c.1@))
}

/// What the chat channels found at start-up, in order, ask for: a live
/// stream's chat is kept, an ended stream's chat is archived with it, any
/// other chat is archived without a stream.
pub open spec fn resumed(old: Seq<(u64, Seq<char>)>, index: Seq<LivestreamView>) -> (
    Seq<ClaimedChatView>,
    Seq<ChatActionView>,
)
    decreases old.len(),
{
    if old.len() == 0 {
        (Seq::empty(), Seq::empty())
    } else {
        let prev = resumed(old.drop_last(), index);
        let (ch, topic) = old.last();
        match stream_with_url(index, topic) {
            Some(p) => if index[p].state == VideoStatus::Live {
                (with_chat(prev.0, index[p], ch), prev.1)
            } else if index[p].state == VideoStatus::Past {
                (prev.0, prev.1.push(ChatActionView::Archive { channel: ch, stream: Some(index[p]) }))
            } else {
                (prev.0, prev.1.push(ChatActionView::Archive { channel: ch, stream: None }))
            },
            None => (prev.0, prev.1.push(ChatActionView::Archive { channel: ch, stream: None })),
        }
    }
}

/// The live streams of the index, in order, that have no chat among `chats`.
pub open spec fn unclaimed_live(chats: Seq<ClaimedChatView>, index: Seq<LivestreamView>) -> Seq<
    ChatActionView,
>
    decreases index.len(),
{
    if index.len() == 0 {
        Seq::empty()
    } else {
        let l = index.last();
        unclaimed_live(chats, index.drop_last()) + if l.state == VideoStatus::Live && chat_pos(
            chats,
            l.id,
        ) is None {
            seq![ChatActionView::Claim(l)]
        } else {
            Seq::empty()
        }
    }
}

pub open spec fn chat_action_views(v: Seq<ChatAction>) -> Seq<ChatActionView> {
    v.map_values(|a: ChatAction| a@)
}

/// What the chat channels found at start-up (channel and topic) ask for,
/// then a chat for each live stream that has none.
pub fn resume_chats(old_chats: &Vec<(u64, String)>, index: &Vec<Livestream>) -> (r: (
    StreamChats,
    Vec<ChatAction>,
))
    requires
        forall|k: int|
            0 <= k < old_chats@.len() ==> (stream_with_url(
                stream_views(index@),
                (#[trigger] old_chats@[k]).1@,
            ) matches Some(p) ==> (index@[p].state != VideoStatus::New && index@[p].state
                != VideoStatus::Missing)),
    ensures
        r.0.wf(),
        ({
            let res = resumed(old_chat_views(old_chats@), stream_views(index@));
            r.0@ == res.0 && chat_action_views(r.1@) == res.1 + unclaimed_live(
                res.0,
                stream_views(index@),
            )
        }),
{
    let ghost olds = old_chat_views(old_chats@);
    let ghost iv = stream_views(index@);
    let mut chats = StreamChats::new();
    let mut actions: Vec<ChatAction> = Vec::new();
    let mut i: usize = 0;
    assert(olds.take(0) =~= Seq::<(u64, Seq<char>)>::empty());
    assert(chat_action_views(actions@) =~= Seq::<ChatActionView>::empty());
    while i < old_chats.len()
        invariant
            i <= old_chats.len(),
            olds == old_chat_views(old_chats@),
            iv == stream_views(index@),
            chats.wf(),
            (chats@, chat_action_views(actions@)) == resumed(olds.take(i as int), iv),
            forall|k: int|
                0 <= k < old_chats@.len() ==> (stream_with_url(
                    stream_views(index@),
                    (#[trigger] old_chats@[k]).1@,
                ) matches Some(p) ==> (index@[p].state != VideoStatus::New && index@[p].state
                    != VideoStatus::Missing)),
        decreases old_chats.len() - i,
    {
        let ch = old_chats[i].0;
        let topic = &old_chats[i].1;
        assert(olds.take(i + 1).drop_last() =~= olds.take(i as int));
        assert(olds.take(i + 1).last() == (ch, topic@));
        assert(old_chats@[i as int].1@ == topic@);
        let ghost pa = chat_action_views(actions@);
        proof {
            lemma_stream_with_url(iv, topic@);
        }
        match DiscordApi::try_find_stream_for_channel(topic.as_str(), index) {
            Some((stream, VideoStatus::Live)) => {
                chats.claimed(stream, ch);
            },
            Some((stream, VideoStatus::Past)) => {
                let ghost sv = stream@;
                actions.push(ChatAction::Archive { channel: ch, stream: Some(stream) });
                assert(chat_action_views(actions@) =~= pa.push(
                    ChatActionView::Archive { channel: ch, stream: Some(sv) },
                ));
            },
            _ => {
                actions.push(ChatAction::Archive { channel: ch, stream: None });
                assert(chat_action_views(actions@) =~= pa.push(
                    ChatActionView::Archive { channel: ch, stream: None },
                ));
            },
        }
        i += 1;
    }
    assert(olds.take(i as int) =~= olds);
    let ghost res0 = chats@;
    let ghost head = chat_action_views(actions@);
    let mut j: usize = 0;
    assert(head =~= head + unclaimed_live(res0, iv.take(0)));
    while j < index.len()
        invariant
            j <= index.len(),
            iv == stream_views(index@),
            chats.wf(),
            chats@ == res0,
            chat_action_views(actions@) == head + unclaimed_live(res0, iv.take(j as int)),
        decreases index.len() - j,
    {
        let s = &index[j];
        assert(iv.take(j + 1).drop_last() =~= iv.take(j as int));
        assert(iv.take(j + 1).last() == s@);
        let ghost pa = chat_action_views(actions@);
        if s.state == VideoStatus::Live && !chats.has_chat(s.id.as_str()) {
            actions.push(ChatAction::Claim(s.copy()));
            assert(chat_action_views(actions@) =~= pa + seq![ChatActionView::Claim(s@)]);
        } else {
            assert(chat_action_views(actions@) =~= pa + Seq::<ChatActionView>::empty());
        }
        j += 1;
    }
    assert(iv.take(j as int) =~= iv);
    (chats, actions)
}

} // verus!
