use holo_bot::config::{HoloBranch, Reminder, ReminderFrequency, Talent};
use holo_bot::reminders::{Reminders, TimerAction};
use holo_bot::discord::{
    archive_start, deletion_delay_ms, find_tweet_message, message_tweet, ArchiveStart, MessageRef,
    PostStep, PostingThread,
    ReplyLookup, TweetReply,
};
use holo_bot::emoji::{EmojiStats, EmojiUsage};
use holo_bot::json_reply::{parse_failure, ParseError};
use holo_bot::mchad::{Room, VideoId};
use holo_bot::memes::{pick_step, CaptionCollector, CaptionStep, Meme};
use holo_bot::mentions::handle_message;
use holo_bot::ratelimit::{RateLimit, RateLimitGrouping, RateLimiter};
use holo_bot::paging::{display_start, should_fail, CommandRequest, DisplayStart, DispatchError, PageLayout, CheckReason};
use holo_bot::tweets::{HoloTweet, HoloTweetReference};
use holo_bot::translation::azure_request;
use holo_bot::twitter::{granularity_is_default, TweetCountGranularity};

fn talent(name: &str, twitter_id: Option<u64>) -> Talent {
    Talent {
        name: name.to_string(),
        english_name: name.to_string(),
        emoji: String::new(),
        icon: String::new(),
        colour: 7,
        branch: HoloBranch::HoloJP,
        discord_role: None,
        youtube_ch_id: None,
        twitter_id,
        twitter_handle: None,
        schedule_keyword: None,
    }
}

fn tweet(id: u64, replied_to: Option<HoloTweetReference>) -> HoloTweet {
    HoloTweet {
        id,
        user: talent("Pekora", Some(11)),
        text: format!("tweet {}", id),
        link: format!("https://twitter.com/pekora/status/{}", id),
        timestamp: 0,
        media: vec![],
        translation: None,
        replied_to,
    }
}

fn meme(id: u64, name: &str) -> Meme {
    Meme {
        id,
        name: name.to_string(),
        url: String::new(),
        width: 1,
        height: 1,
        box_count: 2,
    }
}

#[test]
fn picking_only_from_the_asking_user_in_its_channel() {
    let memes = vec![meme(1, "Drake"), meme(2, "Doge")];
    assert_eq!(pick_step(5, 9, &memes, 5, 9, "2"), Some(1));
    assert_eq!(pick_step(5, 9, &memes, 5, 9, "doge"), Some(1));
    assert_eq!(pick_step(5, 9, &memes, 6, 9, "2"), None);
    assert_eq!(pick_step(5, 9, &memes, 5, 8, "2"), None);
    assert_eq!(pick_step(5, 9, &memes, 5, 9, "0"), None);
    assert_eq!(pick_step(5, 9, &memes, 5, 9, "3"), None);
}

#[test]
fn posting_skips_a_talent_without_channel() {
    let mut thread = PostingThread::new();
    let talents = vec![talent("Pekora", Some(11))];
    let channels = vec![Some(100)];
    let step = thread.on_tweet(&tweet(1, None), None, &talents, &channels);
    assert!(matches!(step, PostStep::Skip));
}

#[test]
fn posting_sends_one_message_and_replies_to_a_posted_tweet() {
    let mut thread = PostingThread::new();
    let talents = vec![talent("Pekora", Some(11))];
    let channels = vec![Some(100)];
    let first = tweet(1, None);
    let m = match thread.on_tweet(&first, Some(100), &talents, &channels) {
        PostStep::Send(m) => m,
        other => panic!("unexpected step {:?}", other),
    };
    assert_eq!(m.channel, 100);
    assert_eq!(m.embed.description.as_deref(), Some("tweet 1"));
    assert_eq!(m.reference, None);
    thread.sent(&first, 100, Some(555));
    assert!(thread.cache.contains(&1));

    let second = tweet(2, Some(HoloTweetReference { user: 11, tweet: 1 }));
    let m = match thread.on_tweet(&second, Some(100), &talents, &channels) {
        PostStep::Send(m) => m,
        other => panic!("unexpected step {:?}", other),
    };
    assert_eq!(
        m.reference,
        Some(MessageRef { channel_id: 100, message_id: Some(555), guild_id: None })
    );
}

#[test]
fn posting_searches_for_an_unknown_replied_tweet() {
    let mut thread = PostingThread::new();
    let talents = vec![talent("Pekora", Some(11))];
    let channels = vec![Some(100)];
    let t = tweet(3, Some(HoloTweetReference { user: 11, tweet: 2 }));
    match thread.on_tweet(&t, Some(100), &talents, &channels) {
        PostStep::Lookup(ReplyLookup::Search { user, channel }) => {
            assert_eq!(user, "Pekora");
            assert_eq!(channel, 100);
        }
        other => panic!("unexpected step {:?}", other),
    }
    let m = thread.message(&t, &TweetReply::NoReply, 100);
    assert_eq!(m.channel, 100);
    assert_eq!(m.embed.description.as_deref(), Some("tweet 3"));
}

#[test]
fn posting_failure_remembers_nothing() {
    let mut thread = PostingThread::new();
    thread.sent(&tweet(4, None), 100, None);
    assert!(!thread.cache.contains(&4));
}

#[test]
fn posting_cache_forgets_the_least_recently_used() {
    let mut thread = PostingThread::new();
    for id in 0..1025u64 {
        thread.sent(&tweet(id, None), 100, Some(id + 1000));
    }
    assert!(!thread.cache.contains(&0));
    assert!(thread.cache.contains(&1));
    assert!(thread.cache.contains(&1024));
    assert_eq!(thread.cache.len(), 1024);
}

#[test]
fn display_start_decisions() {
    let layout = PageLayout::Standard { items_per_page: 10 };
    assert_eq!(display_start(0, layout), DisplayStart::DeleteResponse);
    assert_eq!(display_start(7, layout), DisplayStart::ShowOnly);
    assert_eq!(display_start(10, layout), DisplayStart::ShowOnly);
    assert_eq!(display_start(11, layout), DisplayStart::Interactive { pages: 2 });
    let chunked = PageLayout::Chunked { chunk_size: 2, chunks_per_page: 3 };
    assert_eq!(display_start(13, chunked), DisplayStart::Interactive { pages: 3 });
}

#[test]
fn archive_start_decisions() {
    assert_eq!(archive_start(0), ArchiveStart::DeleteChannel);
    assert_eq!(archive_start(3), ArchiveStart::PostNoticeAndLog);
    assert_eq!(deletion_delay_ms(0), 300_000);
    assert_eq!(deletion_delay_ms(12_500), 287_500);
    assert_eq!(deletion_delay_ms(300_000), 0);
}

#[test]
fn bot_messages_count_nothing() {
    let mut usage = EmojiUsage::new();
    assert_eq!(handle_message(&mut usage, true, "<:peko:42> <:peko:42>", None), None);
    assert_eq!(usage.get(42), EmojiStats { text_count: 0, reaction_count: 0 });
    let r = handle_message(&mut usage, false, "<:peko:42> <a:dance:7> <:peko:42>", None);
    assert_eq!(r, Some((Some(true), None)));
    assert_eq!(usage.get(42), EmojiStats { text_count: 2, reaction_count: 0 });
    assert_eq!(usage.get(7), EmojiStats { text_count: 1, reaction_count: 0 });
}

#[test]
fn proposals_are_refused() {
    let mut usage = EmojiUsage::new();
    let r = handle_message(&mut usage, false, "marry me", Some((Some("marry me"), None)));
    assert_eq!(r, Some((Some(true), Some("AH↓HA↑HA↑HA↑HA↑ no peko".to_string()))));
    let r = handle_message(&mut usage, false, "hello", Some((Some("hello"), None)));
    assert_eq!(r, Some((Some(true), None)));
}

#[test]
fn hour_is_the_default_granularity() {
    assert!(granularity_is_default(&TweetCountGranularity::Hour));
    assert!(!granularity_is_default(&TweetCountGranularity::Day));
    assert!(!granularity_is_default(&TweetCountGranularity::Minute));
}

fn request(checks: Vec<(&'static str, bool)>) -> CommandRequest {
    CommandRequest {
        owners_only: false,
        requester_is_owner: false,
        allowed_roles: vec![],
        member_roles: vec![],
        requester_blocked: false,
        guild_blocked: None,
        guild_owner_blocked: None,
        allowed_channels: vec![],
        channel: 1,
        checks,
    }
}

#[test]
fn a_failed_check_is_named() {
    assert_eq!(should_fail(&request(vec![("admin", true), ("music", true)])), None);
    assert_eq!(
        should_fail(&request(vec![("admin", true), ("music", false), ("voice", false)])),
        Some(DispatchError::CheckFailed { name: "music", reason: CheckReason::Unknown })
    );
    let mut q = request(vec![("admin", false)]);
    q.requester_blocked = true;
    assert_eq!(should_fail(&q), Some(DispatchError::BlockedUser));
}

fn room(stream: Option<&str>) -> Room {
    Room {
        name: "room".to_string(),
        needs_password: false,
        allows_external_sharing: true,
        is_empty: false,
        stream: stream.map(|s| VideoId::new(s.to_string())),
        tags: vec![],
    }
}

#[test]
fn room_streams_keep_what_follows_the_link() {
    let r = room(Some("https://www.youtube.com/watch?v=dQw4w9WgXcQ")).with_parsed_stream();
    assert_eq!(r.stream.unwrap().as_str(), "dQw4w9WgXcQ");
    let r = room(Some("https://youtu.be/dQw4w9WgXcQ?t=42")).with_parsed_stream();
    assert_eq!(r.stream.unwrap().as_str(), "dQw4w9WgXcQ?t=42");
    let r = room(Some("https://example.com/dQw4w9WgXcQ")).with_parsed_stream();
    assert_eq!(r.stream.unwrap().as_str(), "https://example.com/dQw4w9WgXcQ");
    let r = room(Some("https://youtu.be/short")).with_parsed_stream();
    assert_eq!(r.stream.unwrap().as_str(), "https://youtu.be/short");
    assert!(room(None).with_parsed_stream().stream.is_none());
}

#[test]
fn reply_bodies_are_classified() {
    assert_eq!(parse_failure(b"{\"a\": 1}"), ParseError::ResponseParseError);
    assert_eq!(
        parse_failure(b"Bad Gateway"),
        ParseError::ResponseJsonParseError("Bad Gateway".to_string())
    );
    assert_eq!(parse_failure(&[0xff, 0xfe, 0x00]), ParseError::ResponseUtf8Error);
}

#[test]
fn a_window_lets_count_uses_through() {
    let limit = RateLimit { count: 2, interval_sec: 10, grouping: RateLimitGrouping::User };
    let mut limiter = RateLimiter::new();
    assert!(limiter.check(1, 7, limit, 0));
    assert!(limiter.check(1, 7, limit, 1_000));
    assert!(!limiter.check(1, 7, limit, 2_000));
    assert!(!limiter.check(1, 7, limit, 10_999));
    assert!(limiter.check(1, 8, limit, 3_000));
    assert!(limiter.check(1, 7, limit, 11_000));
}

#[test]
fn past_reminders_get_no_timer_at_start() {
    let saved = vec![
        Reminder { id: 1, message: "old".to_string(), time: 500, frequency: ReminderFrequency::Daily, subscribers: vec![] },
        Reminder { id: 2, message: "new".to_string(), time: 4_000, frequency: ReminderFrequency::Once, subscribers: vec![] },
    ];
    let (mut set, timers) = Reminders::load(saved, 1_000);
    assert_eq!(timers.len(), 1);
    assert!(matches!(timers[0], TimerAction::Insert { key: 2, delay: 3_000 }));
    let (sent, _, _) = set.on_fire(1);
    assert!(sent.is_none());
}

#[test]
fn posted_tweets_are_found_by_their_links() {
    let link = |id: u64| Some(format!("https://twitter.com/123/status/{}", id));
    assert_eq!(message_tweet(&vec![None, link(77)]), Some(77));
    assert_eq!(message_tweet(&vec![Some("https://example.com".to_string()), link(5)]), Some(5));
    assert_eq!(message_tweet(&vec![Some("https://twitter.com/x/status/5".to_string())]), None);
    assert_eq!(message_tweet(&vec![]), None);
    let m = |id: u64| MessageRef { channel_id: 9, message_id: Some(id), guild_id: None };
    let recent = vec![(m(3), vec![link(30)]), (m(2), vec![None, link(20)]), (m(1), vec![link(20)])];
    assert_eq!(find_tweet_message(&recent, 20), Some(m(2)));
    assert_eq!(find_tweet_message(&recent, 40), None);
}

#[test]
fn extra_captions_are_kept_for_when_waiting_ends() {
    let mut c = CaptionCollector::new(5, 9, 2);
    assert_eq!(c.on_message(5, 9, "top"), CaptionStep::Added { done: false });
    assert!(!c.ready());
    assert_eq!(c.on_message(5, 9, "middle\nbottom"), CaptionStep::Added { done: false });
    assert_eq!(c.captions, vec!["top".to_string(), "middle".to_string(), "bottom".to_string()]);
    assert!(c.ready());
}

#[test]
fn azure_bodies_escape_as_json() {
    let r = azure_request("a\"b\\c\nd\te\u{1}f\u{7f}é", "ko").unwrap();
    assert_eq!(r.body, "[{\"Text\":\"a\\\"b\\\\c\\nd\\te\\u0001f\u{7f}é\"}]");
    let r = azure_request("\u{8}\u{c}\r\u{1f}", "ko").unwrap();
    assert_eq!(r.body, "[{\"Text\":\"\\b\\f\\r\\u001f\"}]");
}
