//! The first form of the Twitter feed, which reads the stream's messages with
//! the users of the older configuration: which message becomes a schedule
//! update, which a tweet to post, which is dropped, and which is an error.

use vstd::prelude::*;
use vstd::string::*;
use crate::text::{contains, dec, lowercase, push_dec, push_str, str_contains, str_eq, to_lowercase};

verus! {

/// A user of the older configuration.
#[derive(Debug)]
pub struct User {
    pub twitter_id: u64,
    pub display_name: String,
    pub twitter_handle: String,
    pub schedule_keyword: Option<String>,
}

/// A tweet that a tweet refers to: how (as Twitter names it) and its id.
#[derive(Debug)]
pub struct TweetReference {
    pub reply_type: String,
    pub id: u64,
}

/// A tweet's own fields.
#[derive(Debug)]
pub struct TweetInfo {
    pub author_id: u64,
    pub id: u64,
    pub text: String,
    pub created_at: i64,
    pub lang: Option<String>,
    pub in_reply_to_user_id: Option<u64>,
    pub referenced_tweets: Vec<TweetReference>,
}

/// A media object attached to a tweet: its type as Twitter names it, and URL.
#[derive(Debug)]
pub struct MediaInfo {
    pub media_type: String,
    pub url: Option<String>,
}

/// The objects that Twitter included with a tweet.
#[derive(Debug)]
pub struct Expansions {
    pub media: Vec<MediaInfo>,
    pub tweets: Vec<TweetInfo>,
}

/// A message of the stream, read as a tweet.
#[derive(Debug)]
pub struct Tweet {
    pub data: TweetInfo,
    pub includes: Option<Expansions>,
}

/// A user's tweet that announces a schedule.
#[derive(Debug)]
pub struct ScheduleUpdate {
    pub twitter_id: u64,
    pub tweet_text: String,
    pub schedule_image: String,
    pub tweet_link: String,
    pub timestamp: i64,
}

/// The user's tweet that a tweet replies to or quotes.
#[derive(Debug, Clone, Copy, PartialEq, Eq, Structural)]
pub struct HoloTweetReference {
    pub user: u64,
    pub tweet: u64,
}

/// A tweet to post: its id, author (by index among the users), text, link,
/// time, photos, reference, and the language to translate it from.
#[derive(Debug)]
pub struct HoloTweet {
    pub id: u64,
    pub user: usize,
    pub text: String,
    pub link: String,
    pub timestamp: i64,
    pub media: Vec<String>,
    pub translate_from: Option<String>,
    pub replied_to: Option<HoloTweetReference>,
}

/// What a message becomes.
#[derive(Debug)]
pub enum FeedMessage {
    ScheduleUpdate(ScheduleUpdate),
    Tweet(HoloTweet),
}

/// Whether a message of the stream is only the keep-alive line.
pub fn is_keep_alive(message: &[u8]) -> (r: bool)
    ensures
        r == (message@ == seq![13u8, 10u8]),
{
    message.len() == 2 && message[0] == 13 && message[1] == 10 && {
        assert(message@ =~= seq![13u8, 10u8]);
        true
    }
}

/// The first user with Twitter id `id`.
pub open spec fn user_pos(users: Seq<User>, id: u64) -> Option<int>
    decreases users.len(),
{
    if users.len() == 0 {
        None
    } else if users[0].twitter_id == id {
        Some(0)
    } else {
        match user_pos(users.drop_first(), id) {
            Some(p) => Some(p + 1),
            None => None,
        }
    }
}

proof fn lemma_user_pos(users: Seq<User>, id: u64)
    ensures
        match user_pos(users, id) {
            Some(p) => 0 <= p < users.len() && users[p].twitter_id == id && forall|j: int|
                0 <= j < p ==> users[j].twitter_id != id,
            None => forall|j: int| 0 <= j < users.len() ==> users[j].twitter_id != id,
        },
    decreases users.len(),
{
    if users.len() > 0 && users[0].twitter_id != id {
        lemma_user_pos(users.drop_first(), id);
        assert forall|j: int| 1 <= j < users.len() implies users[j] == users.drop_first()[j
            - 1] by {}
    }
}

/// Where the first user with Twitter id `id` stands.
fn find_user(users: &Vec<User>, id: u64) -> (r: Option<usize>)
    ensures
        match r {
            Some(i) => i < users@.len() && user_pos(users@, id) == Some(i as int),
            None => user_pos(users@, id) is None,
        },
{
    let mut i: usize = 0;
    while i < users.len()
        invariant
            i <= users.len(),
            forall|j: int| 0 <= j < i ==> users@[j].twitter_id != id,
        decreases users.len() - i,
    {
        if users[i].twitter_id == id {
            proof {
                lemma_user_pos(users@, id);
            }
            return Some(i);
        }
        i += 1;
    }
    proof {
        lemma_user_pos(users@, id);
    }
    None
}

/// Whether the message is a schedule announcement of `user`: the user has a
/// keyword, the tweet media, and its text, lower-cased, the keyword.
pub open spec fn is_schedule(t: Tweet, user: User) -> bool {
    match (user.schedule_keyword, t.includes) {
        (Some(kw), Some(inc)) => inc.media@.len() > 0 && contains(
            lowercase(t.data.text@),
            lowercase(kw@),
        ),
        _ => false,
    }
}

/// The included tweet `id`, the first one with that id.
pub open spec fn included(tweets: Seq<TweetInfo>, id: u64) -> Option<TweetInfo>
    decreases tweets.len(),
{
    if tweets.len() == 0 {
        None
    } else if tweets[0].id == id {
        Some(tweets[0])
    } else {
        included(tweets.drop_first(), id)
    }
}

/// The user that the first reference points at, or the error of a reference
/// that cannot be followed.
pub open spec fn reference_target(t: Tweet) -> Result<u64, Seq<char>> {
    let r = t.data.referenced_tweets@[0];
    if r.reply_type@ == "replied_to"@ {
        match t.data.in_reply_to_user_id {
            Some(u) => Ok(u),
            None => Err("Tweet reply didn't contain a in_reply_to_user_id field."@),
        }
    } else if r.reply_type@ == "quoted"@ {
        match t.includes {
            None => Err("Quoted reply didn't include any expansion object."@),
            Some(inc) => match included(inc.tweets@, r.id) {
                None => Err("Couldn't find referenced tweet in expanded field."@),
                Some(q) => Ok(q.author_id),
            },
        }
    } else {
        Err("Unknown reply type: "@ + r.reply_type@)
    }
}

/// The URLs of the photos among `media`, in order.
pub open spec fn photo_urls(media: Seq<MediaInfo>) -> Seq<Seq<char>>
    decreases media.len(),
{
    if media.len() == 0 {
        Seq::empty()
    } else {
        photo_urls(media.drop_last()) + match media.last().url {
            Some(u) if media.last().media_type@ == "photo"@ => seq![u@],
            _ => Seq::empty(),
        }
    }
}

pub open spec fn string_views(v: Seq<String>) -> Seq<Seq<char>> {
    v.map_values(|s: String| s@)
}

/// The languages that are translated.
pub open spec fn translated_language(l: Seq<char>) -> bool {
    l == "in"@ || l == "id"@ || l == "de"@ || l == "ja"@ || l == "jp"@
}

pub open spec fn has_user(users: Seq<User>, id: u64) -> bool {
    exists|j: int| 0 <= j < users.len() && users[j].twitter_id == id
}

/// The included tweet `id`, the first one with that id.
fn find_included(tweets: &Vec<TweetInfo>, id: u64) -> (r: Option<usize>)
    ensures
        match r {
            Some(i) => i < tweets@.len() && included(tweets@, id) == Some(tweets@[i as int]),
            None => included(tweets@, id) is None,
        },
{
    let mut i: usize = 0;
    assert(tweets@.skip(0) =~= tweets@);
    while i < tweets.len()
        invariant
            i <= tweets.len(),
            included(tweets@, id) == included(tweets@.skip(i as int), id),
        decreases tweets.len() - i,
    {
        let ghost t = tweets@.skip(i as int);
        assert(t.drop_first() =~= tweets@.skip(i + 1));
        assert(t[0] == tweets@[i as int]);
        if tweets[i].id == id {
            return Some(i);
        }
        i += 1;
    }
    None
}

/// The URLs of the photos among `media`.
fn photos(media: &Vec<MediaInfo>) -> (r: Vec<String>)
    ensures
        string_views(r@) == photo_urls(media@),
{
    let mut r: Vec<String> = Vec::new();
    let mut i: usize = 0;
    assert(string_views(r@) =~= photo_urls(media@.take(0)));
    while i < media.len()
        invariant
            i <= media.len(),
            string_views(r@) == photo_urls(media@.take(i as int)),
        decreases media.len() - i,
    {
        assert(media@.take(i + 1).drop_last() =~= media@.take(i as int));
        let ghost prev = string_views(r@);
        proof {
            reveal_strlit("photo");
        }
        match &media[i].url {
            Some(u) => {
                if str_eq(media[i].media_type.as_str(), "photo") {
                    r.push(u.clone());
                    assert(string_views(r@) =~= prev + seq![u@]);
                } else {
                    assert(string_views(r@) =~= prev + Seq::<Seq<char>>::empty());
                }
            },
            None => {
                assert(string_views(r@) =~= prev + Seq::<Seq<char>>::empty());
            },
        }
        i += 1;
    }
    assert(media@.take(i as int) =~= media@);
    r
}

/// What a message of the stream becomes: an error when no user has the
/// author's id; a schedule update when it announces the user's schedule (an
/// error when its first media has no URL); an error for a reference that
/// cannot be followed; nothing when it refers to someone who is not a user;
/// else the tweet to post, with its photos, linked by the author's id, and
/// the language to translate it from when that is Indonesian, German or
/// Japanese.
pub fn parse_message(message: &Tweet, users: &Vec<User>) -> (r: Result<Option<FeedMessage>, String>)
    ensures
        match user_pos(users@, message.data.author_id) {
            None => r matches Err(m) && m@ == "Could not find user with twitter ID: "@ + dec(
                message.data.author_id as nat,
            ),
            Some(p) => if is_schedule(*message, users@[p]) {
                match message.includes.unwrap().media@[0].url {
                    None => r matches Err(m) && m@ == "Detected schedule image had no URL."@,
                    Some(url) => r matches Ok(Some(FeedMessage::ScheduleUpdate(u))) && u.twitter_id
                        == users@[p].twitter_id && u.tweet_text@ == message.data.text@
                        && u.schedule_image@ == url@ && u.tweet_link@ == "https://twitter.com/"@
                        + users@[p].twitter_handle@ + "/status/"@ + dec(message.data.id as nat)
                        && u.timestamp == message.data.created_at,
                }
            } else if message.data.referenced_tweets@.len() > 0 && reference_target(*message) is Err {
                r matches Err(m) && Err::<u64, Seq<char>>(m@) == reference_target(*message)
            } else if message.data.referenced_tweets@.len() > 0 && !has_user(
                users@,
                reference_target(*message)->Ok_0,
            ) {
                r matches Ok(None)
            } else {
                r matches Ok(Some(FeedMessage::Tweet(t))) && t.id == message.data.id && t.user == p
                    && t.text@ == message.data.text@ && t.link@ == "https://twitter.com/"@ + dec(
                    users@[p].twitter_id as nat,
                ) + "/status/"@ + dec(message.data.id as nat) && t.timestamp
                    == message.data.created_at && string_views(t.media@) == match message.includes {
                    Some(inc) => photo_urls(inc.media@),
                    None => Seq::empty(),
                } && (if message.data.referenced_tweets@.len() > 0 {
                    t.replied_to == Some(
                        HoloTweetReference {
                            user: reference_target(*message)->Ok_0,
                            tweet: message.data.referenced_tweets@[0].id,
                        },
                    )
                } else {
                    t.replied_to is None
                }) && match message.data.lang {
                    Some(l) => if translated_language(l@) {
                        t.translate_from matches Some(f) && f@ == l@
                    } else {
                        t.translate_from is None
                    },
                    None => t.translate_from is None,
                }
            },
        },
{
    proof {
        reveal_strlit("Could not find user with twitter ID: ");
        reveal_strlit("Detected schedule image had no URL.");
        reveal_strlit("https://twitter.com/");
        reveal_strlit("/status/");
        reveal_strlit("replied_to");
        reveal_strlit("quoted");
        reveal_strlit("Tweet reply didn't contain a in_reply_to_user_id field.");
        reveal_strlit("Quoted reply didn't include any expansion object.");
        reveal_strlit("Couldn't find referenced tweet in expanded field.");
        reveal_strlit("Unknown reply type: ");
        reveal_strlit("in");
        reveal_strlit("id");
        reveal_strlit("de");
        reveal_strlit("ja");
        reveal_strlit("jp");
    }
    let data = &message.data;
    let p = match find_user(users, data.author_id) {
        Some(p) => p,
        None => {
            let mut m = String::new();
            push_str(&mut m, "Could not find user with twitter ID: ");
            push_dec(&mut m, data.author_id);
            return Err(m);
        },
    };
    let user = &users[p];
    if let Some(keyword) = &user.schedule_keyword {
        if let Some(includes) = &message.includes {
            if includes.media.len() > 0 {
                let text = to_lowercase(data.text.as_str());
                let kw = to_lowercase(keyword.as_str());
                if str_contains(text.as_str(), kw.as_str()) {
                    let schedule_image = match &includes.media[0].url {
                        Some(url) => url.clone(),
                        None => {
                            return Err(String::from_str("Detected schedule image had no URL."));
                        },
                    };
                    let mut link = String::new();
                    push_str(&mut link, "https://twitter.com/");
                    push_str(&mut link, user.twitter_handle.as_str());
                    push_str(&mut link, "/status/");
                    push_dec(&mut link, data.id);
                    return Ok(
                        Some(
                            FeedMessage::ScheduleUpdate(
                                ScheduleUpdate {
                                    twitter_id: user.twitter_id,
                                    tweet_text: data.text.clone(),
                                    schedule_image,
                                    tweet_link: link,
                                    timestamp: data.created_at,
                                },
                            ),
                        ),
                    );
                }
            }
        }
    }
    assert(!is_schedule(*message, users@[p as int]));
    let mut replied_to: Option<HoloTweetReference> = None;
    if data.referenced_tweets.len() > 0 {
        let reference = &data.referenced_tweets[0];
        let replied_to_user = if str_eq(reference.reply_type.as_str(), "replied_to") {
            match data.in_reply_to_user_id {
                Some(u) => u,
                None => {
                    return Err(
                        String::from_str("Tweet reply didn't contain a in_reply_to_user_id field."),
                    );
                },
            }
        } else if str_eq(reference.reply_type.as_str(), "quoted") {
            let includes = match &message.includes {
                Some(i) => i,
                None => {
                    return Err(
                        String::from_str("Quoted reply didn't include any expansion object."),
                    );
                },
            };
            match find_included(&includes.tweets, reference.id) {
                Some(q) => includes.tweets[q].author_id,
                None => {
                    return Err(
                        String::from_str("Couldn't find referenced tweet in expanded field."),
                    );
                },
            }
        } else {
            let mut m = String::new();
            push_str(&mut m, "Unknown reply type: ");
            push_str(&mut m, reference.reply_type.as_str());
            return Err(m);
        };
        assert(reference_target(*message) == Ok::<u64, Seq<char>>(replied_to_user));
        let mut j: usize = 0;
        let mut known = false;
        while j < users.len()
            invariant
                j <= users.len(),
                known == exists|k: int| 0 <= k < j && users@[k].twitter_id == replied_to_user,
            decreases users.len() - j,
        {
            if users[j].twitter_id == replied_to_user {
                known = true;
            }
            j += 1;
        }
        if !known {
            return Ok(None);
        }
        replied_to = Some(HoloTweetReference { user: replied_to_user, tweet: reference.id });
    }
    let media = match &message.includes {
        Some(inc) => photos(&inc.media),
        None => Vec::new(),
    };
    assert(string_views(media@) =~= match message.includes {
        Some(inc) => photo_urls(inc.media@),
        None => Seq::empty(),
    });
    let translate_from = match &data.lang {
        Some(l) => {
            if str_eq(l.as_str(), "in") || str_eq(l.as_str(), "id") || str_eq(l.as_str(), "de")
                || str_eq(l.as_str(), "ja") || str_eq(l.as_str(), "jp") {
                Some(l.clone())
            } else {
                None
            }
        },
        None => None,
    };
    let mut link = String::new();
    push_str(&mut link, "https://twitter.com/");
    push_dec(&mut link, user.twitter_id);
    push_str(&mut link, "/status/");
    push_dec(&mut link, data.id);
    Ok(
        Some(
            FeedMessage::Tweet(
                HoloTweet {
                    id: data.id,
                    user: p,
                    text: data.text.clone(),
                    link,
                    timestamp: data.created_at,
                    media,
                    translate_from,
                    replied_to,
                },
            ),
        ),
    )
}

} // verus!
