use holo_bot::config::{HoloBranch, Reminder, ReminderFrequency, Talent};
use holo_bot::holo::{poll_broadcast, Livestream, NotifiedStreams, StreamIndex, StreamUpdate, VideoStatus};
use holo_bot::memes::{meme_options, MemeFont};
use holo_bot::paging::CommandRequest;
use holo_bot::ratelimit::{RateLimit, RateLimitGrouping, RateLimiter};
use holo_bot::reminders::{EntryEvent, Reminders, TimerAction};

fn pekora() -> Talent {
    Talent {
        name: "Pekora".to_string(),
        english_name: "Pekora".to_string(),
        emoji: String::new(),
        icon: String::new(),
        colour: 1,
        branch: HoloBranch::HoloJP,
        discord_role: None,
        youtube_ch_id: Some("UCpekora".to_string()),
        twitter_id: None,
        twitter_handle: None,
        schedule_keyword: None,
    }
}

fn upcoming(id: &str) -> Livestream {
    Livestream {
        id: id.to_string(),
        title: "Title".to_string(),
        thumbnail: String::new(),
        url: format!("https://youtube.com/watch?v={}", id),
        streamer: pekora(),
        state: VideoStatus::Upcoming,
        start_at: 1000,
        duration: None,
    }
}

#[test]
fn stream_start_reaches_chat_only_when_enabled() {
    let mut index = StreamIndex::new();
    index.insert(upcoming("a"), true);
    index.insert(upcoming("b"), true);
    let mut notified = NotifiedStreams::new(4);
    let with_chat = index.on_start_timer("a", &mut notified, true);
    assert_eq!(with_chat.live.as_ref().unwrap().id, "a");
    assert!(matches!(with_chat.chat, Some(StreamUpdate::Started(ref l)) if l.id == "a"));
    let without_chat = index.on_start_timer("b", &mut notified, false);
    assert_eq!(without_chat.live.as_ref().unwrap().id, "b");
    assert!(without_chat.chat.is_none());
    let again = index.on_start_timer("a", &mut notified, true);
    assert!(again.live.is_none() && again.chat.is_none());
}

#[test]
fn polls_broadcast_only_with_chat() {
    let on = poll_broadcast(true, vec![StreamUpdate::Ended("a".to_string())]);
    assert_eq!(on.updates.len(), 1);
    assert!(on.publish_index);
    let off = poll_broadcast(false, vec![StreamUpdate::Ended("a".to_string())]);
    assert!(off.updates.is_empty());
    assert!(!off.publish_index);
    let quiet = poll_broadcast(true, vec![]);
    assert!(quiet.updates.is_empty());
    assert!(!quiet.publish_index);
}

#[test]
fn announced_streams_reload_as_saved() {
    let mut n = NotifiedStreams::new(3);
    for id in ["a", "b", "c", "d", "b"] {
        n.put(id.to_string());
    }
    let saved = n.ids();
    assert_eq!(saved, vec!["c".to_string(), "d".to_string(), "b".to_string()]);
    let reloaded = NotifiedStreams::load(3, saved.clone());
    assert_eq!(reloaded.ids(), saved);
    assert!(!reloaded.contains("a"));
}

#[test]
fn meme_option_defaults() {
    assert_eq!(meme_options(None, None), Some((MemeFont::Impact, 50)));
    assert_eq!(meme_options(Some("Arial"), Some(30)), Some((MemeFont::Arial, 30)));
    assert_eq!(meme_options(Some("Comic Sans"), None), None);
}

fn reminder(id: u32, time: i64) -> Reminder {
    Reminder {
        id,
        message: "soon".to_string(),
        time,
        frequency: ReminderFrequency::Daily,
        subscribers: vec![],
    }
}

#[test]
fn updated_reminders_reset_their_timer() {
    let mut set = Reminders::new();
    let _ = set.on_event(EntryEvent::Added { key: 1, value: reminder(1, 5_000) }, 1_000);
    let (timer, stored) = set.on_event(EntryEvent::Updated { key: 1, value: reminder(1, 9_000) }, 2_000);
    assert!(stored);
    assert_eq!(timer, Some(TimerAction::Reset { key: 1, delay: 7_000 }));
    assert_eq!(set.get(1).unwrap().time, 9_000);
    assert_eq!(set.all().len(), 1);
    let (timer, _) = set.on_event(EntryEvent::Updated { key: 1, value: reminder(1, 9_000) }, 3_000);
    assert_eq!(timer, None);
    let (sent, _, _) = set.on_fire(1);
    assert_eq!(sent.unwrap().time, 9_000);
    assert!(set.get(2).is_none());
}

fn request() -> CommandRequest {
    CommandRequest {
        owners_only: false,
        requester_is_owner: false,
        allowed_roles: vec![],
        member_roles: vec![],
        requester_blocked: false,
        guild_blocked: None,
        guild_owner_blocked: None,
        allowed_channels: vec![],
        channel: 1,
        checks: vec![],
    }
}

#[test]
fn dispatch_counts_then_checks() {
    let limit = RateLimit { count: 1, interval_sec: 60, grouping: RateLimitGrouping::Everyone };
    let mut limiter = RateLimiter::new();
    assert!(limiter.dispatch(3, 1, Some(limit), 0, &request()));
    assert!(!limiter.dispatch(3, 2, Some(limit), 1_000, &request()));
    let mut blocked = request();
    blocked.requester_blocked = true;
    assert!(!limiter.dispatch(4, 1, None, 0, &blocked));
    assert!(limiter.dispatch(4, 1, None, 0, &request()));
}
