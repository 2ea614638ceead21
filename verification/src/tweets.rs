//! Tweets of the followed talents: which become schedule updates, which are
//! shown, whom they reply to, which photos they carry, and how their text is
//! linked for Discord.

use vstd::prelude::*;
use vstd::string::*;
use crate::config::{opt_str_view, Talent, TalentView};
use crate::holo::talent_views;
use crate::text::{
    contains, dec, lowercase, push_dec, push_str, replace, str_contains, str_eq, str_replace,
    to_lowercase,
};
use crate::translation::{route, TranslationApi, TranslatorType};
use crate::twitter::{MediaType, TweetReferenceType};

verus! {

/// A tweet that this tweet refers to, and how.
#[derive(Debug)]
pub struct TweetReference {
    pub reply_type: TweetReferenceType,
    pub id: u64,
}

/// A media object attached to a tweet.
#[derive(Debug)]
pub struct Media {
    pub media_type: MediaType,
    pub url: Option<String>,
}

/// A tweet that Twitter included with another: its id and author.
#[derive(Debug)]
pub struct IncludedTweet {
    pub id: u64,
    pub author_id: Option<u64>,
}

/// The objects that Twitter included with a tweet.
#[derive(Debug)]
pub struct Expansions {
    pub media: Vec<Media>,
    pub tweets: Vec<IncludedTweet>,
}

/// A piece of a tweet's text that Twitter recognised.
#[derive(Debug)]
pub enum Entity {
    Annotation { entity_type: String, normalized_text: String },
    Hashtag { tag: String },
    Mention { username: String },
    Url { url: String, expanded_url: String, display_url: String, unwound_url: Option<String> },
}

/// A tweet's own fields. `lang` is the ISO 639-3 code of its language.
#[derive(Debug)]
pub struct TweetInfo {
    pub id: u64,
    pub text: String,
    pub author_id: Option<u64>,
    pub created_at: Option<i64>,
    pub in_reply_to_user_id: Option<u64>,
    pub referenced_tweets: Vec<TweetReference>,
    pub entities: Vec<Entity>,
    pub lang: Option<String>,
}

/// A tweet from the filtered stream.
#[derive(Debug)]
pub struct Tweet {
    pub data: TweetInfo,
    pub includes: Option<Expansions>,
}

/// A talent's tweet that announces a schedule.
#[derive(Debug)]
pub struct ScheduleUpdate {
    pub twitter_id: u64,
    pub tweet_text: String,
    pub schedule_image: String,
    pub tweet_link: String,
    pub timestamp: i64,
}

/// The talent's tweet that a tweet replies to or quotes.
#[derive(Debug, Clone, Copy, PartialEq, Eq, Structural)]
pub struct HoloTweetReference {
    pub user: u64,
    pub tweet: u64,
}

/// A talent's tweet as it is posted to Discord.
#[derive(Debug)]
pub struct HoloTweet {
    pub id: u64,
    pub user: Talent,
    pub text: String,
    pub link: String,
    pub timestamp: i64,
    pub media: Vec<String>,
    pub translation: Option<String>,
    pub replied_to: Option<HoloTweetReference>,
}

/// What a tweet becomes: a schedule update, or a tweet to post together with
/// the ISO 639-1 code of the language to translate it from, if any.
#[derive(Debug)]
pub enum TweetMessage {
    ScheduleUpdate(ScheduleUpdate),
    Tweet(HoloTweet, Option<String>),
}

// ---------------------------------------------------------------------------
// Languages
// ---------------------------------------------------------------------------

/// The ISO 639-3 code of the language whose ISO 639-1 code is `code`, as
/// isolang's table gives it.
pub uninterp spec fn iso_639_1_to_3(code: Seq<char>) -> Option<Seq<char>>;

/// The ISO 639-1 code of the language whose ISO 639-3 code is `code`, where
/// isolang's table has one.
pub uninterp spec fn iso_639_3_to_1(code: Seq<char>) -> Option<Seq<char>>;

pub open spec fn opt_string_view(o: Option<String>) -> Option<Seq<char>> {
    opt_str_view(o)
}

/// isolang's `Language::from_639_1`, the language given by its ISO 639-3 code
/// (`Language::to_639_3`). The contract names the table lookup and says no
/// more of it.
#[verifier::external_body]
fn from_639_1(code: &str) -> (r: Option<String>)
    ensures
        opt_string_view(r) == iso_639_1_to_3(code@),
{
    match isolang::Language::from_639_1(code) {
        Some(l) => Some(l.to_639_3().to_string()),
        None => None,
    }
}

/// isolang's `Language::to_639_1` of the language whose ISO 639-3 code is
/// `code` (`Language::from_639_3`). The contract names the table lookup and
/// says no more of it.
#[verifier::external_body]
pub(crate) fn to_639_1(code: &str) -> (r: Option<String>)
    ensures
        opt_string_view(r) == iso_639_3_to_1(code@),
{
    match isolang::Language::from_639_3(code) {
        Some(l) => match l.to_639_1() {
            Some(c) => Some(c.to_string()),
            None => None,
        },
        None => None,
    }
}

/// The language of a Twitter language tag, by its ISO 639-3 code: "in" is
/// Indonesian, "und" undetermined, any other tag an ISO 639-1 code.
pub open spec fn twitter_language(tag: Seq<char>) -> Result<Seq<char>, Seq<char>> {
    if tag == "in"@ {
        Ok("ind"@)
    } else if tag == "und"@ {
        Ok("und"@)
    } else {
        match iso_639_1_to_3(tag) {
            Some(c) => Ok(c),
            None => Err("Could not parse language tag: "@ + tag),
        }
    }
}

/// Reads a Twitter language tag: the ISO 639-3 code of its language, or the
/// error message for an unknown tag.
pub fn language_of_tag(tag: &str) -> (r: Result<String, String>)
    ensures
        match (r, twitter_language(tag@)) {
            (Ok(a), Ok(b)) => a@ == b,
            (Err(a), Err(b)) => a@ == b,
            _ => false,
        },
{
    proof {
        reveal_strlit("in");
        reveal_strlit("und");
        reveal_strlit("ind");
        reveal_strlit("Could not parse language tag: ");
    }
    if str_eq(tag, "in") {
        return Ok(String::from_str("ind"));
    }
    if str_eq(tag, "und") {
        return Ok(String::from_str("und"));
    }
    match from_639_1(tag) {
        Some(c) => Ok(c),
        None => {
            let mut m = String::new();
            push_str(&mut m, "Could not parse language tag: ");
            push_str(&mut m, tag);
            Err(m)
        },
    }
}

/// The ISO 639-1 code of the tweet's language, to translate it from.
pub open spec fn translation_language(t: Tweet) -> Option<Seq<char>> {
    match t.data.lang {
        Some(l) => iso_639_3_to_1(l@),
        None => None,
    }
}

impl Tweet {
    /// The translator that translates the tweet: the one of its language,
    /// when it has one.
    pub fn translator(&self, api: &TranslationApi) -> (r: Option<TranslatorType>)
        ensures
            r == match self.data.lang {
                Some(l) => route(api.routes(), l@),
                None => None,
            },
    {
        match &self.data.lang {
            Some(l) => api.get_translator_for_lang(l.as_str()),
            None => None,
        }
    }

    /// The ISO 639-1 code of the tweet's language, if it has one.
    pub fn source_language(&self) -> (r: Option<String>)
        ensures
            opt_string_view(r) == translation_language(*self),
    {
        match &self.data.lang {
            Some(l) => to_639_1(l.as_str()),
            None => None,
        }
    }
}

// ---------------------------------------------------------------------------
// Photos, schedules and replies
// ---------------------------------------------------------------------------

/// The URLs of the photos among `media`, in order.
pub open spec fn photo_urls(media: Seq<Media>) -> Seq<Seq<char>>
    decreases media.len(),
{
    if media.len() == 0 {
        Seq::empty()
    } else {
        photo_urls(media.drop_last()) + match media.last().url {
            Some(u) if media.last().media_type == MediaType::Photo => seq![u@],
            _ => Seq::empty(),
        }
    }
}

pub open spec fn string_views(v: Seq<String>) -> Seq<Seq<char>> {
    v.map_values(|s: String| s@)
}

/// The image of a schedule announcement: a talent with a schedule keyword
/// tweets media and text that holds the keyword, both lower-cased; the image
/// is the URL of the first media object.
pub open spec fn schedule_image(t: Tweet, talent: TalentView) -> Option<Seq<char>> {
    match (talent.schedule_keyword, t.includes) {
        (Some(kw), Some(inc)) => if inc.media@.len() == 0 || !contains(
            lowercase(t.data.text@),
            lowercase(kw),
        ) {
            None
        } else {
            match inc.media@[0].url {
                Some(u) => Some(u@),
                None => None,
            }
        },
        _ => None,
    }
}

/// The link of tweet `id` of the user `handle`.
pub open spec fn tweet_link(handle: Seq<char>, id: u64) -> Seq<char> {
    "https://twitter.com/"@ + handle + "/status/"@ + dec(id as nat)
}

/// The included tweet `id`, the first one with that id.
pub open spec fn included_author(tweets: Seq<IncludedTweet>, id: u64) -> Option<Option<u64>>
    decreases tweets.len(),
{
    if tweets.len() == 0 {
        None
    } else if tweets[0].id == id {
        Some(tweets[0].author_id)
    } else {
        included_author(tweets.drop_first(), id)
    }
}

/// The user that the tweet's first reference replies to or quotes.
pub open spec fn referenced_user(t: Tweet) -> Option<u64> {
    if t.data.referenced_tweets@.len() == 0 {
        None
    } else {
        let r = t.data.referenced_tweets@[0];
        match r.reply_type {
            TweetReferenceType::RepliedTo => t.data.in_reply_to_user_id,
            TweetReferenceType::Quoted => match t.includes {
                Some(inc) => match included_author(inc.tweets@, r.id) {
                    Some(a) => a,
                    None => None,
                },
                None => None,
            },
            TweetReferenceType::Retweeted => None,
        }
    }
}

pub open spec fn has_twitter_id(tv: Seq<TalentView>, id: u64) -> bool {
    exists|i: int| 0 <= i < tv.len() && tv[i].twitter_id == Some(id)
}

/// The reply or quote of a talent's tweet, when its user is a talent.
pub open spec fn talent_reference(t: Tweet, tv: Seq<TalentView>) -> Option<HoloTweetReference> {
    match referenced_user(t) {
        Some(u) => if has_twitter_id(tv, u) {
            Some(HoloTweetReference { user: u, tweet: t.data.referenced_tweets@[0].id })
        } else {
            None
        },
        None => None,
    }
}

/// A talent's tweet that replies to a tweet of a talent is linked to it:
/// when the tweet's first reference is a reply and the user it replies to is
/// a talent's Twitter user, the reference names that user and the replied-to
/// tweet; when that user is no talent's, or the tweet references nothing or
/// only retweets, there is no link.
pub proof fn lemma_reply_to_talent_is_linked(t: Tweet, tv: Seq<TalentView>, u: u64)
    requires
        t.data.referenced_tweets@.len() > 0,
        t.data.referenced_tweets@[0].reply_type == TweetReferenceType::RepliedTo,
        t.data.in_reply_to_user_id == Some(u),
    ensures
        (exists|i: int| 0 <= i < tv.len() && tv[i].twitter_id == Some(u)) ==> talent_reference(t, tv)
            == Some(HoloTweetReference { user: u, tweet: t.data.referenced_tweets@[0].id }),
        (forall|i: int| 0 <= i < tv.len() ==> tv[i].twitter_id != Some(u)) ==> talent_reference(
            t,
            tv,
        ) is None,
{
}

/// A tweet that references nothing, or whose first reference is a retweet,
/// is linked to no talent's tweet.
pub proof fn lemma_unreferenced_tweet_is_not_linked(t: Tweet, tv: Seq<TalentView>)
    requires
        t.data.referenced_tweets@.len() == 0 || t.data.referenced_tweets@[0].reply_type
            == TweetReferenceType::Retweeted,
    ensures
        talent_reference(t, tv) is None,
{
}

/// A talent's tweet that quotes a tweet whose author, as included with the
/// tweet, is a talent's Twitter user is linked to that tweet and user.
pub proof fn lemma_quote_of_talent_is_linked(t: Tweet, tv: Seq<TalentView>, inc: Expansions, u: u64)
    requires
        t.data.referenced_tweets@.len() > 0,
        t.data.referenced_tweets@[0].reply_type == TweetReferenceType::Quoted,
        t.includes == Some(inc),
        inc.tweets@.len() > 0,
        inc.tweets@[0].id == t.data.referenced_tweets@[0].id,
        inc.tweets@[0].author_id == Some(u),
        exists|i: int| 0 <= i < tv.len() && tv[i].twitter_id == Some(u),
    ensures
        talent_reference(t, tv) == Some(
            HoloTweetReference { user: u, tweet: t.data.referenced_tweets@[0].id },
        ),
{
}

/// The author of the included tweet `id`, the first one with that id.
fn find_included_author(tweets: &Vec<IncludedTweet>, id: u64) -> (r: Option<Option<u64>>)
    ensures
        r == included_author(tweets@, id),
{
    let mut i: usize = 0;
    assert(tweets@.skip(0) =~= tweets@);
    while i < tweets.len()
        invariant
            i <= tweets.len(),
            included_author(tweets@, id) == included_author(tweets@.skip(i as int), id),
        decreases tweets.len() - i,
    {
        let ghost t = tweets@.skip(i as int);
        assert(t.drop_first() =~= tweets@.skip(i + 1));
        assert(t[0] == tweets@[i as int]);
        if tweets[i].id == id {
            return Some(tweets[i].author_id);
        }
        i += 1;
    }
    None
}

impl Tweet {
    /// The URLs of the photos attached to the tweet.
    pub fn attached_photos(&self) -> (r: Vec<String>)
        ensures
            string_views(r@) == match self.includes {
                Some(inc) => photo_urls(inc.media@),
                None => Seq::empty(),
            },
    {
        let mut r: Vec<String> = Vec::new();
        match &self.includes {
            Some(inc) => {
                let mut i: usize = 0;
                assert(string_views(r@) =~= photo_urls(inc.media@.take(0)));
                while i < inc.media.len()
                    invariant
                        i <= inc.media.len(),
                        string_views(r@) == photo_urls(inc.media@.take(i as int)),
                    decreases inc.media.len() - i,
                {
                    assert(inc.media@.take(i + 1).drop_last() =~= inc.media@.take(i as int));
                    let ghost prev = string_views(r@);
                    let m = &inc.media[i];
                    match &m.url {
                        Some(u) => {
                            if m.media_type == MediaType::Photo {
                                r.push(u.clone());
                                assert(string_views(r@) =~= prev + seq![u@]);
                            } else {
                                assert(string_views(r@) =~= prev + Seq::<Seq<char>>::empty());
                            }
                        },
                        None => {
                            assert(string_views(r@) =~= prev + Seq::<Seq<char>>::empty());
                        },
                    }
                    i += 1;
                }
                assert(inc.media@.take(i as int) =~= inc.media@);
            },
            None => {
                assert(string_views(r@) =~= Seq::<Seq<char>>::empty());
            },
        }
        r
    }

    /// The schedule announcement of `talent` that the tweet is, if it is one.
    pub fn schedule_update(&self, talent: &Talent) -> (r: Option<ScheduleUpdate>)
        requires
            schedule_image(*self, talent@) is Some ==> self.data.author_id is Some
                && self.data.created_at is Some && talent.twitter_handle is Some,
        ensures
            match schedule_image(*self, talent@) {
                Some(img) => r matches Some(u) && u.twitter_id == self.data.author_id.unwrap()
                    && u.tweet_text@ == self.data.text@ && u.schedule_image@ == img
                    && u.tweet_link@ == tweet_link(
                    talent@.twitter_handle.unwrap(),
                    self.data.id,
                ) && u.timestamp == self.data.created_at.unwrap(),
                None => r is None,
            },
    {
        let keyword = match &talent.schedule_keyword {
            Some(k) => k,
            None => {
                return None;
            },
        };
        let includes = match &self.includes {
            Some(i) => i,
            None => {
                return None;
            },
        };
        if includes.media.len() == 0 {
            return None;
        }
        let text = to_lowercase(self.data.text.as_str());
        let kw = to_lowercase(keyword.as_str());
        if !str_contains(text.as_str(), kw.as_str()) {
            return None;
        }
        let schedule_image = match &includes.media[0].url {
            Some(url) => url.clone(),
            None => {
                return None;
            },
        };
        let handle = match &talent.twitter_handle {
            Some(h) => h,
            None => {
                return None;
            },
        };
        let mut link = String::new();
        push_str(&mut link, "https://twitter.com/");
        push_str(&mut link, handle.as_str());
        push_str(&mut link, "/status/");
        push_dec(&mut link, self.data.id);
        proof {
            reveal_strlit("https://twitter.com/");
            reveal_strlit("/status/");
        }
        let twitter_id = match self.data.author_id {
            Some(a) => a,
            None => {
                return None;
            },
        };
        let timestamp = match self.data.created_at {
            Some(t) => t,
            None => {
                return None;
            },
        };
        Some(ScheduleUpdate {
            twitter_id,
            tweet_text: self.data.text.clone(),
            schedule_image,
            tweet_link: link,
            timestamp,
        })
    }

    /// The talent's tweet that this tweet replies to or quotes, when the
    /// user it refers to is a talent.
    pub fn talent_reply(&self, talents: &Vec<Talent>) -> (r: Option<HoloTweetReference>)
        ensures
            r == talent_reference(*self, talent_views(talents@)),
    {
        if self.data.referenced_tweets.len() == 0 {
            return None;
        }
        let reference = &self.data.referenced_tweets[0];
        let user = match reference.reply_type {
            TweetReferenceType::RepliedTo => match self.data.in_reply_to_user_id {
                Some(u) => u,
                None => {
                    return None;
                },
            },
            TweetReferenceType::Quoted => {
                let inc = match &self.includes {
                    Some(i) => i,
                    None => {
                        return None;
                    },
                };
                let found = find_included_author(&inc.tweets, reference.id);
                match found {
                    Some(Some(a)) => a,
                    _ => {
                        return None;
                    },
                }
            },
            TweetReferenceType::Retweeted => {
                return None;
            },
        };
        let ghost tv = talent_views(talents@);
        assert(referenced_user(*self) == Some(user));
        let mut i: usize = 0;
        while i < talents.len()
            invariant
                i <= talents.len(),
                tv == talent_views(talents@),
                referenced_user(*self) == Some(user),
                self.data.referenced_tweets@.len() > 0,
                reference.id == self.data.referenced_tweets@[0].id,
                forall|j: int| 0 <= j < i ==> tv[j].twitter_id != Some(user),
            decreases talents.len() - i,
        {
            if talents[i].twitter_id == Some(user) {
                assert(tv[i as int].twitter_id == Some(user));
                return Some(HoloTweetReference { user, tweet: reference.id });
            }
            i += 1;
        }
        None
    }
}

// ---------------------------------------------------------------------------
// Links in the text
// ---------------------------------------------------------------------------

/// The text after the entity's link is put in: a hashtag links to its
/// search, a mention to the user, a URL shows its display form linking to
/// its expanded form; an annotation changes nothing.
pub open spec fn embedded(e: Entity, text: Seq<char>) -> Seq<char> {
    match e {
        Entity::Hashtag { tag } => replace(
            text,
            "#"@ + tag@,
            "[#"@ + tag@ + "](https://twitter.com/hashtag/"@ + tag@ + ")"@,
        ),
        Entity::Mention { username } => replace(
            text,
            "@"@ + username@,
            "[@"@ + username@ + "](https://twitter.com/"@ + username@ + ")"@,
        ),
        Entity::Url { url, expanded_url, display_url, unwound_url: _ } => replace(
            text,
            url@,
            "["@ + display_url@ + "]("@ + expanded_url@ + ")"@,
        ),
        Entity::Annotation { .. } => text,
    }
}

impl Entity {
    /// Puts the entity's link into `text`.
    pub fn embed_link(&self, text: &mut String)
        ensures
            final(text)@ == embedded(*self, old(text)@),
    {
        proof {
            reveal_strlit("#");
            reveal_strlit("[#");
            reveal_strlit("](https://twitter.com/hashtag/");
            reveal_strlit(")");
            reveal_strlit("@");
            reveal_strlit("[@");
            reveal_strlit("](https://twitter.com/");
            reveal_strlit("[");
            reveal_strlit("](");
        }
        match self {
            Entity::Hashtag { tag } => {
                let mut pat = String::new();
                push_str(&mut pat, "#");
                push_str(&mut pat, tag.as_str());
                let mut rep = String::new();
                push_str(&mut rep, "[#");
                push_str(&mut rep, tag.as_str());
                push_str(&mut rep, "](https://twitter.com/hashtag/");
                push_str(&mut rep, tag.as_str());
                push_str(&mut rep, ")");
                *text = str_replace(text.as_str(), pat.as_str(), rep.as_str());
            },
            Entity::Mention { username } => {
                let mut pat = String::new();
                push_str(&mut pat, "@");
                push_str(&mut pat, username.as_str());
                let mut rep = String::new();
                push_str(&mut rep, "[@");
                push_str(&mut rep, username.as_str());
                push_str(&mut rep, "](https://twitter.com/");
                push_str(&mut rep, username.as_str());
                push_str(&mut rep, ")");
                *text = str_replace(text.as_str(), pat.as_str(), rep.as_str());
            },
            Entity::Url { url, expanded_url, display_url, unwound_url: _ } => {
                let mut rep = String::new();
                push_str(&mut rep, "[");
                push_str(&mut rep, display_url.as_str());
                push_str(&mut rep, "](");
                push_str(&mut rep, expanded_url.as_str());
                push_str(&mut rep, ")");
                *text = str_replace(text.as_str(), url.as_str(), rep.as_str());
            },
            Entity::Annotation { .. } => {},
        }
    }
}

/// The text with the links of its hashtags and URLs put in, entity by entity.
pub open spec fn linked_text(entities: Seq<Entity>, text: Seq<char>) -> Seq<char>
    decreases entities.len(),
{
    if entities.len() == 0 {
        text
    } else {
        let prev = linked_text(entities.drop_last(), text);
        match entities.last() {
            Entity::Hashtag { .. } => embedded(entities.last(), prev),
            Entity::Url { .. } => embedded(entities.last(), prev),
            _ => prev,
        }
    }
}

impl Tweet {
    /// The tweet's text with the links of its hashtags and URLs put in.
    pub fn convert_entities_to_links(&self) -> (r: String)
        ensures
            r@ == linked_text(self.data.entities@, self.data.text@),
    {
        let mut text = self.data.text.clone();
        let mut i: usize = 0;
        let ghost es = self.data.entities@;
        while i < self.data.entities.len()
            invariant
                i <= es.len(),
                es == self.data.entities@,
                text@ == linked_text(es.take(i as int), self.data.text@),
            decreases es.len() - i,
        {
            assert(es.take(i + 1).drop_last() =~= es.take(i as int));
            assert(es.take(i + 1).last() == es[i as int]);
            let e = &self.data.entities[i];
            match e {
                Entity::Hashtag { .. } => e.embed_link(&mut text),
                Entity::Url { .. } => e.embed_link(&mut text),
                _ => {},
            }
            i += 1;
        }
        assert(es.take(i as int) =~= es);
        text
    }
}


// ---------------------------------------------------------------------------
// Processing a tweet
// ---------------------------------------------------------------------------

/// Where the first talent with Twitter id `author` stands.
pub open spec fn author_pos(tv: Seq<TalentView>, author: u64) -> Option<int>
    decreases tv.len(),
{
    if tv.len() == 0 {
        None
    } else if tv[0].twitter_id == Some(author) {
        Some(0)
    } else {
        match author_pos(tv.drop_first(), author) {
            Some(p) => Some(p + 1),
            None => None,
        }
    }
}

/// The search for the author meets only talents with a Twitter id (the
/// search takes each talent's id as given).
pub open spec fn author_search_defined(tv: Seq<TalentView>, author: u64) -> bool {
    forall|j: int|
        0 <= j < tv.len() && (match author_pos(tv, author) {
            Some(p) => j <= p,
            None => true,
        }) ==> (#[trigger] tv[j]).twitter_id is Some
}

pub proof fn lemma_author_pos(tv: Seq<TalentView>, author: u64)
    ensures
        match author_pos(tv, author) {
            Some(p) => 0 <= p < tv.len() && tv[p].twitter_id == Some(author) && forall|j: int|
                0 <= j < p ==> tv[j].twitter_id != Some(author),
            None => forall|j: int| 0 <= j < tv.len() ==> tv[j].twitter_id != Some(author),
        },
    decreases tv.len(),
{
    if tv.len() > 0 && tv[0].twitter_id != Some(author) {
        lemma_author_pos(tv.drop_first(), author);
        assert forall|j: int| 1 <= j < tv.len() implies tv[j] == tv.drop_first()[j - 1] by {}
    }
}

/// What a tweet becomes, before translation: nothing for a tweet without
/// author; an error when no talent has the author's Twitter id; the
/// schedule announcement of the author's talent; else the tweet to post,
/// with its links put in, its photos, the talent's tweet it replies to, and
/// the language to translate it from.
pub fn process_tweet(tweet: &Tweet, talents: &Vec<Talent>) -> (r: Result<Option<TweetMessage>, String>)
    requires
        tweet.data.author_id matches Some(a) ==> author_search_defined(talent_views(talents@), a),
        tweet.data.author_id matches Some(a) ==> (author_pos(talent_views(talents@), a) matches Some(
            p,
        ) ==> tweet.data.created_at is Some && talent_views(talents@)[p].twitter_handle is Some),
    ensures
        ({
            let tv = talent_views(talents@);
            match tweet.data.author_id {
                None => r matches Ok(None),
                Some(a) => match author_pos(tv, a) {
                    None => r matches Err(m) && m@ == "Could not find user with twitter ID: "@ + dec(
                        a as nat,
                    ),
                    Some(p) => match schedule_image(*tweet, tv[p]) {
                        Some(img) => r matches Ok(Some(TweetMessage::ScheduleUpdate(u)))
                            && u.twitter_id == a && u.tweet_text@ == tweet.data.text@
                            && u.schedule_image@ == img && u.tweet_link@ == tweet_link(
                            tv[p].twitter_handle.unwrap(),
                            tweet.data.id,
                        ) && u.timestamp == tweet.data.created_at.unwrap(),
                        None => r matches Ok(Some(TweetMessage::Tweet(t, lang))) && t.id
                            == tweet.data.id && t.user@ == tv[p] && t.text@ == linked_text(
                            tweet.data.entities@,
                            tweet.data.text@,
                        ) && t.link@ == tweet_link(tv[p].twitter_handle.unwrap(), tweet.data.id)
                            && t.timestamp == tweet.data.created_at.unwrap() && string_views(
                            t.media@,
                        ) == match tweet.includes {
                            Some(inc) => photo_urls(inc.media@),
                            None => Seq::empty(),
                        } && t.translation is None && t.replied_to == talent_reference(
                            *tweet,
                            tv,
                        ) && opt_string_view(lang) == translation_language(*tweet),
                    },
                },
            }
        }),
{
    let ghost tv = talent_views(talents@);
    let author = match tweet.data.author_id {
        Some(a) => a,
        None => {
            return Ok(None);
        },
    };
    proof {
        lemma_author_pos(tv, author);
    }
    let mut i: usize = 0;
    while i < talents.len()
        invariant
            i <= talents.len(),
            tv == talent_views(talents@),
            forall|j: int| 0 <= j < i ==> tv[j].twitter_id != Some(author),
        ensures
            i <= talents.len(),
            forall|j: int| 0 <= j < i ==> tv[j].twitter_id != Some(author),
            i < talents.len() ==> tv[i as int].twitter_id == Some(author),
        decreases talents.len() - i,
    {
        if talents[i].twitter_id == Some(author) {
            assert(tv[i as int].twitter_id == Some(author));
            break;
        }
        i += 1;
    }
    if i == talents.len() {
        let mut m = String::new();
        push_str(&mut m, "Could not find user with twitter ID: ");
        push_dec(&mut m, author);
        proof {
            reveal_strlit("Could not find user with twitter ID: ");
        }
        return Err(m);
    }
    let talent = &talents[i];
    assert(tv[i as int] == talent@);
    assert(author_pos(tv, author) == Some(i as int));
    match tweet.schedule_update(talent) {
        Some(u) => {
            return Ok(Some(TweetMessage::ScheduleUpdate(u)));
        },
        None => {},
    }
    let replied_to = if tweet.data.referenced_tweets.len() > 0 {
        tweet.talent_reply(talents)
    } else {
        None
    };
    let media = tweet.attached_photos();
    let lang = tweet.source_language();
    let handle = match &talent.twitter_handle {
        Some(h) => h,
        None => {
            return Ok(None);
        },
    };
    let timestamp = match tweet.data.created_at {
        Some(t) => t,
        None => {
            return Ok(None);
        },
    };
    let mut link = String::new();
    push_str(&mut link, "https://twitter.com/");
    push_str(&mut link, handle.as_str());
    push_str(&mut link, "/status/");
    push_dec(&mut link, tweet.data.id);
    proof {
        reveal_strlit("https://twitter.com/");
        reveal_strlit("/status/");
    }
    let t = HoloTweet {
        id: tweet.data.id,
        user: talent.copy(),
        text: tweet.convert_entities_to_links(),
        link,
        timestamp,
        media,
        translation: None,
        replied_to,
    };
    Ok(Some(TweetMessage::Tweet(t, lang)))
}

/// A hashtag as the API lists it.
#[derive(Debug)]
pub struct EntityHashtag {
    pub tag: String,
}

/// A mention as the API lists it.
#[derive(Debug)]
pub struct EntityMention {
    pub username: String,
}

/// A link as the API lists it.
#[derive(Debug)]
pub struct EntityUrl {
    pub url: String,
    pub expanded_url: String,
    pub display_url: String,
    pub unwound_url: Option<String>,
}

/// An annotation as the API lists it.
#[derive(Debug)]
pub struct EntityAnnotation {
    pub entity_type: String,
    pub normalized_text: String,
}

/// A tweet's entities as the API lists them, by kind.
#[derive(Debug)]
pub struct EntitiesRaw {
    pub annotations: Vec<EntityAnnotation>,
    pub urls: Vec<EntityUrl>,
    pub hashtags: Vec<EntityHashtag>,
    pub mentions: Vec<EntityMention>,
}

pub open spec fn hashtag_entities(v: Seq<EntityHashtag>) -> Seq<Entity> {
    v.map_values(|h: EntityHashtag| Entity::Hashtag { tag: h.tag })
}

pub open spec fn mention_entities(v: Seq<EntityMention>) -> Seq<Entity> {
    v.map_values(|m: EntityMention| Entity::Mention { username: m.username })
}

pub open spec fn url_entities(v: Seq<EntityUrl>) -> Seq<Entity> {
    v.map_values(
        |u: EntityUrl|
            Entity::Url {
                url: u.url,
                expanded_url: u.expanded_url,
                display_url: u.display_url,
                unwound_url: u.unwound_url,
            },
    )
}

pub open spec fn annotation_entities(v: Seq<EntityAnnotation>) -> Seq<Entity> {
    v.map_values(
        |a: EntityAnnotation|
            Entity::Annotation { entity_type: a.entity_type, normalized_text: a.normalized_text },
    )
}

/// A tweet's entities in one list: the hashtags, then the mentions, the
/// links and the annotations, each kind in the API's order.
pub fn entities_from(raw: EntitiesRaw) -> (r: Vec<Entity>)
    ensures
        r@ == hashtag_entities(raw.hashtags@) + mention_entities(raw.mentions@) + url_entities(
            raw.urls@,
        ) + annotation_entities(raw.annotations@),
{
    let ghost hs0 = raw.hashtags@;
    let ghost ms0 = raw.mentions@;
    let ghost us0 = raw.urls@;
    let ghost as0 = raw.annotations@;
    let EntitiesRaw { annotations, urls, hashtags, mentions } = raw;
    let mut out: Vec<Entity> = Vec::new();
    let mut hs = hashtags;
    let mut k: usize = 0;
    assert(hs0.skip(0) =~= hs0);
    assert(hs0.len() == hs.len());
    assert(hashtag_entities(hs0.take(0)) =~= Seq::<Entity>::empty());
    while hs.len() > 0
        invariant
            k <= hs0.len(),
            hs0.len() <= usize::MAX,
            hs@ == hs0.skip(k as int),
            out@ == hashtag_entities(hs0.take(k as int)),
        decreases hs@.len(),
    {
        let h = hs.remove(0);
        out.push(Entity::Hashtag { tag: h.tag });
        assert(hs0.take(k + 1) =~= hs0.take(k as int).push(hs0[k as int]));
        assert(hashtag_entities(hs0.take(k + 1)) =~= hashtag_entities(hs0.take(k as int)).push(
            Entity::Hashtag { tag: hs0[k as int].tag },
        ));
        assert(hs@ =~= hs0.skip(k + 1));
        k += 1;
    }
    assert(hs0.take(k as int) =~= hs0);
    let ghost base1 = out@;
    let mut ms = mentions;
    let mut k: usize = 0;
    assert(ms0.skip(0) =~= ms0);
    assert(ms0.len() == ms.len());
    assert(base1 + mention_entities(ms0.take(0)) =~= base1);
    while ms.len() > 0
        invariant
            k <= ms0.len(),
            ms0.len() <= usize::MAX,
            ms@ == ms0.skip(k as int),
            out@ == base1 + mention_entities(ms0.take(k as int)),
        decreases ms@.len(),
    {
        let m = ms.remove(0);
        out.push(Entity::Mention { username: m.username });
        assert(ms0.take(k + 1) =~= ms0.take(k as int).push(ms0[k as int]));
        assert(base1 + mention_entities(ms0.take(k + 1)) =~= (base1 + mention_entities(
            ms0.take(k as int),
        )).push(Entity::Mention { username: ms0[k as int].username }));
        assert(ms@ =~= ms0.skip(k + 1));
        k += 1;
    }
    assert(ms0.take(k as int) =~= ms0);
    let ghost base2 = out@;
    let mut us = urls;
    let mut k: usize = 0;
    assert(us0.skip(0) =~= us0);
    assert(us0.len() == us.len());
    assert(base2 + url_entities(us0.take(0)) =~= base2);
    while us.len() > 0
        invariant
            k <= us0.len(),
            us0.len() <= usize::MAX,
            us@ == us0.skip(k as int),
            out@ == base2 + url_entities(us0.take(k as int)),
        decreases us@.len(),
    {
        let u = us.remove(0);
        let ghost uu = us0[k as int];
        out.push(
            Entity::Url {
                url: u.url,
                expanded_url: u.expanded_url,
                display_url: u.display_url,
                unwound_url: u.unwound_url,
            },
        );
        assert(us0.take(k + 1) =~= us0.take(k as int).push(uu));
        assert(base2 + url_entities(us0.take(k + 1)) =~= (base2 + url_entities(
            us0.take(k as int),
        )).push(
            Entity::Url {
                url: uu.url,
                expanded_url: uu.expanded_url,
                display_url: uu.display_url,
                unwound_url: uu.unwound_url,
            },
        ));
        assert(us@ =~= us0.skip(k + 1));
        k += 1;
    }
    assert(us0.take(k as int) =~= us0);
    let ghost base3 = out@;
    let mut ans = annotations;
    let mut k: usize = 0;
    assert(as0.skip(0) =~= as0);
    assert(as0.len() == ans.len());
    assert(base3 + annotation_entities(as0.take(0)) =~= base3);
    while ans.len() > 0
        invariant
            k <= as0.len(),
            as0.len() <= usize::MAX,
            ans@ == as0.skip(k as int),
            out@ == base3 + annotation_entities(as0.take(k as int)),
        decreases ans@.len(),
    {
        let a = ans.remove(0);
        let ghost aa = as0[k as int];
        out.push(Entity::Annotation { entity_type: a.entity_type, normalized_text: a.normalized_text });
        assert(as0.take(k + 1) =~= as0.take(k as int).push(aa));
        assert(base3 + annotation_entities(as0.take(k + 1)) =~= (base3 + annotation_entities(
            as0.take(k as int),
        )).push(
            Entity::Annotation { entity_type: aa.entity_type, normalized_text: aa.normalized_text },
        ));
        assert(ans@ =~= as0.skip(k + 1));
        k += 1;
    }
    assert(as0.take(k as int) =~= as0);
    out
}

/// How an entity is shown.
pub open spec fn entity_text(e: Entity) -> Seq<char> {
    match e {
        Entity::Annotation { entity_type, normalized_text } => entity_type@ + " - "@
            + normalized_text@,
        Entity::Hashtag { tag } => "#"@ + tag@,
        Entity::Mention { username } => "@"@ + username@,
        Entity::Url { expanded_url, .. } => expanded_url@,
    }
}

impl Entity {
    /// The entity as it is shown.
    pub fn to_string(&self) -> (r: String)
        ensures
            r@ == entity_text(*self),
    {
        let mut s = String::new();
        match self {
            Entity::Annotation { entity_type, normalized_text } => {
                push_str(&mut s, entity_type.as_str());
                push_str(&mut s, " - ");
                push_str(&mut s, normalized_text.as_str());
            },
            Entity::Hashtag { tag } => {
                push_str(&mut s, "#");
                push_str(&mut s, tag.as_str());
            },
            Entity::Mention { username } => {
                push_str(&mut s, "@");
                push_str(&mut s, username.as_str());
            },
            Entity::Url { expanded_url, .. } => {
                push_str(&mut s, expanded_url.as_str());
                proof {
                    reveal_strlit("");
                    assert(s@ =~= expanded_url@);
                }
            },
        }
        s
    }
}

} // verus!
