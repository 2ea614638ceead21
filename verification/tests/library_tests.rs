use holo_bot::config::{HoloBranch, Reminder, ReminderFrequency, ReminderLocation, ReminderSubscriber, Talent};
use holo_bot::discord::{
    format_timestamp, formatted_archival_time, ChatAction, DiscordApi, MessageKind, StreamChats,
};
use holo_bot::emoji::{EmojiStats, EmojiUsage};
use holo_bot::holo::{
    get_duration_until_stream, status_transition, updates_for_video, Livestream, NotifiedStreams,
    StreamIndex, StreamUpdate, Transition, Video, VideoChannel, VideoStatus,
};
use holo_bot::mchad::{sync_rooms, ListenerState, Room, RoomUpdate, VideoId};
use holo_bot::paging::{
    dispatch_error_reply, page_chunks, page_footer, page_items, required_pages, DispatchError,
    PageAction, PageChangePermission, PageEmoji, PageLayout, Pager, Reaction, ReactionUpdate,
    ShowPageCount,
};
use holo_bot::reminders::{EntryEvent, Reminders, StoreAction, TimerAction};
use holo_bot::twitter::{
    bearer_token, check_rate_limit, create_talent_rules, is_default, sort_rules_by_tag,
    ActiveRule, Error, Header, ProductTrack, Rule, RuleBuilder, RuleString, TweetCountGranularity,
};

fn talent(name: &str, twitter_id: Option<u64>) -> Talent {
    Talent {
        name: name.to_string(),
        english_name: name.to_string(),
        emoji: String::new(),
        icon: String::new(),
        colour: 1,
        branch: HoloBranch::HoloJP,
        discord_role: Some(5),
        youtube_ch_id: Some(format!("UC{}", name)),
        twitter_id,
        twitter_handle: None,
        schedule_keyword: None,
    }
}

fn live(id: &str, state: VideoStatus, start_at: i64) -> Livestream {
    Livestream {
        id: id.to_string(),
        title: "Title".to_string(),
        thumbnail: String::new(),
        url: format!("https://youtube.com/watch?v={}", id),
        streamer: talent("Pekora", None),
        state,
        start_at,
        duration: None,
    }
}

#[test]
fn pages() {
    assert_eq!(required_pages(0, PageLayout::Standard { items_per_page: 5 }), 0);
    assert_eq!(required_pages(10, PageLayout::Standard { items_per_page: 5 }), 2);
    assert_eq!(required_pages(11, PageLayout::Standard { items_per_page: 5 }), 3);
    assert_eq!(
        required_pages(31, PageLayout::Chunked { chunk_size: 10, chunks_per_page: 3 }),
        2
    );
    assert_eq!(page_items(11, 5, 3), (10, 11));
    assert_eq!(page_items(11, 5, 1), (0, 5));
    let chunks = page_chunks(35, 10, 3, 2);
    assert_eq!(chunks.len(), 1);
    assert_eq!(chunks[0].label, "31-35");
    assert_eq!((chunks[0].start, chunks[0].end), (30, 35));
    let first = page_chunks(35, 10, 3, 1);
    let labels: Vec<&str> = first.iter().map(|c| c.label.as_str()).collect();
    assert_eq!(labels, vec!["1-10", "11-20", "21-30"]);
    assert_eq!(page_footer(ShowPageCount::Always, 1, 1), Some("Page 1 of 1".to_string()));
    assert_eq!(page_footer(ShowPageCount::WhenSeveralPages, 1, 1), None);
    assert_eq!(page_footer(ShowPageCount::WhenSeveralPages, 2, 3), Some("Page 2 of 3".to_string()));
    assert_eq!(page_footer(ShowPageCount::Never, 2, 3), None);
}

#[test]
fn turning_pages_back_and_forth() {
    let mut p = Pager::new(100, 7, 999, PageChangePermission::Interactor, 3);
    let left = |user| ReactionUpdate::Added(Reaction { message_id: 100, user_id: Some(user), emoji: PageEmoji::Left });
    let right = |user| ReactionUpdate::Added(Reaction { message_id: 100, user_id: Some(user), emoji: PageEmoji::Right });
    assert_eq!(p.on_reaction(left(7)), PageAction::Turn(3));
    assert_eq!(p.on_reaction(right(7)), PageAction::Turn(1));
    assert_eq!(p.on_reaction(right(7)), PageAction::Turn(2));
    assert_eq!(p.on_reaction(left(7)), PageAction::Turn(1));
    assert_eq!(p.on_reaction(right(8)), PageAction::RemoveReaction);
    assert_eq!(p.on_reaction(right(999)), PageAction::Ignore);
    let other = ReactionUpdate::Added(Reaction { message_id: 5, user_id: Some(7), emoji: PageEmoji::Right });
    assert_eq!(p.on_reaction(other), PageAction::Ignore);
    assert_eq!(p.page, 1);
}

#[test]
fn refused_commands() {
    assert_eq!(
        dispatch_error_reply(DispatchError::NotEnoughArguments { min: 2, given: 1 }),
        Some("Need 2 arguments, but only got 1.".to_string())
    );
    assert_eq!(
        dispatch_error_reply(DispatchError::TooManyArguments { max: 3, given: 5 }),
        Some("Max arguments allowed is 3, but got 5.".to_string())
    );
    assert_eq!(dispatch_error_reply(DispatchError::LackingRole), None);
}

#[test]
fn stream_start_is_announced_once() {
    let mut index = StreamIndex::new();
    index.insert(live("abc", VideoStatus::Upcoming, 1000), true);
    let mut notified = NotifiedStreams::new(2);
    let first = index.stream_started("abc", &mut notified);
    assert!(first.is_some());
    assert_eq!(first.unwrap().state, VideoStatus::Live);
    assert!(notified.contains("abc"));
    assert!(index.stream_started("abc", &mut notified).is_none());
    assert!(index.stream_started("missing", &mut notified).is_none());
}

#[test]
fn unchanged_video_gives_no_updates() {
    let entry = live("v1", VideoStatus::Upcoming, 5000);
    let same = Video {
        id: "v1".to_string(),
        title: "Title".to_string(),
        status: VideoStatus::Upcoming,
        available_at: 5000,
        start_scheduled: Some(5000),
        duration: None,
        channel: VideoChannel::Id("UCPekora".to_string()),
    };
    assert!(updates_for_video(&entry, &same).is_empty());
    assert_eq!(status_transition(VideoStatus::Upcoming, VideoStatus::Live), Some(Transition::Started));
    assert_eq!(status_transition(VideoStatus::Live, VideoStatus::Past), Some(Transition::Ended));
    assert_eq!(status_transition(VideoStatus::Live, VideoStatus::Live), None);
    assert_eq!(get_duration_until_stream(&entry, 2000), Some(3000));
    assert_eq!(get_duration_until_stream(&entry, 6000), None);
}

#[test]
fn archival_texts() {
    assert_eq!(formatted_archival_time(300), "in 5 minutes");
    assert_eq!(formatted_archival_time(20), "now");
    assert_eq!(formatted_archival_time(45), "in 45 seconds");
    assert_eq!(formatted_archival_time(170), "in 3 minutes");
    assert_eq!(formatted_archival_time(125), "in 2 minutes");
    assert_eq!(formatted_archival_time(135), "in 2 minutes and 15 seconds");
    assert_eq!(formatted_archival_time(130), "in 2 minutes");
    assert_eq!(format_timestamp(3725, None), "01:02:05");
    assert_eq!(format_timestamp(65, Some("abc")), "[01:05](https://youtu.be/abc?t=65)");
    assert_eq!(format_timestamp(-65, Some("abc")), "-01:05");
    assert!(DiscordApi::should_message_be_archived(false, "hello", false, MessageKind::Regular, false));
    assert!(!DiscordApi::should_message_be_archived(true, "hello", false, MessageKind::Regular, false));
    assert!(!DiscordApi::should_message_be_archived(false, "", false, MessageKind::Regular, false));
    assert!(DiscordApi::should_message_be_archived(false, "", true, MessageKind::InlineReply, true));
    assert!(!DiscordApi::should_message_be_archived(false, "<:a:1>", false, MessageKind::Regular, true));
    assert!(!DiscordApi::should_message_be_archived(false, &"x".repeat(1001), false, MessageKind::Regular, false));
}

fn reminder(id: u32, frequency: ReminderFrequency, time: i64) -> Reminder {
    Reminder {
        id,
        message: "stream soon".to_string(),
        time,
        frequency,
        subscribers: vec![ReminderSubscriber { user: 1, location: ReminderLocation::DM }],
    }
}

#[test]
fn reminders_fire() {
    let (mut r, timers) = Reminders::load(
        vec![reminder(1, ReminderFrequency::Once, 5_000), reminder(2, ReminderFrequency::Daily, 5_000)],
        1_000,
    );
    assert_eq!(timers.len(), 2);
    let (sent, timer, store) = r.on_fire(1);
    assert_eq!(sent.unwrap().id, 1);
    assert!(timer.is_none());
    assert!(matches!(store, Some(StoreAction::Delete(1))));
    let (again, _, _) = r.on_fire(1);
    assert!(again.is_none());
    let (daily, timer, store) = r.on_fire(2);
    assert_eq!(daily.unwrap().time, 5_000);
    assert!(matches!(timer, Some(TimerAction::Insert { key: 2, delay: 86_400_000 })));
    assert!(matches!(store, Some(StoreAction::Update(2))));
    let (next, _, _) = r.on_fire(2);
    assert_eq!(next.unwrap().time, 5_000 + 86_400_000);
    let (_, removed) = r.on_event(EntryEvent::Removed { key: 2 }, 2_000);
    let _ = removed;
    let (gone, _, _) = r.on_fire(2);
    assert!(gone.is_none());
}

#[test]
fn emoji_counts() {
    let mut usage = EmojiUsage::new();
    assert_eq!(usage.try_count_message("hi <:peko:123> and <a:dance:456> <:peko:123>"), Some(true));
    assert_eq!(usage.get(123).text_count, 2);
    assert_eq!(usage.get(456).text_count, 1);
    assert_eq!(usage.get(789), EmojiStats::zero());
    usage.count_reaction(123);
    assert_eq!(usage.get(123).reaction_count, 1);
    assert_eq!(usage.get(123).total(), 3);
    assert_eq!(usage.try_count_message("<:big:99999999999999999999>"), Some(false));
    assert_eq!(usage.get(123).text_count, 2);
}

fn room(name: &str, stream: Option<&str>) -> Room {
    Room {
        name: name.to_string(),
        needs_password: false,
        allows_external_sharing: true,
        is_empty: false,
        stream: stream.map(|s| VideoId::new(s.to_string())),
        tags: vec![],
    }
}

#[test]
fn rooms_follow_the_server() {
    let current = vec![room("a", Some("v1")), room("b", Some("v2"))];
    let reported = vec![room("b", Some("v3")), room("c", Some("v4")), room("c", Some("v5"))];
    let listeners = vec![ListenerState { room: "b".to_string(), closed: false }];
    let out = sync_rooms(&current, reported, &listeners);
    let names: Vec<&str> = out.rooms.iter().map(|r| r.name.as_str()).collect();
    assert_eq!(names, vec!["b", "c"]);
    assert_eq!(out.rooms[1].stream.as_ref().unwrap().as_str(), "v5");
    assert_eq!(out.notify.len(), 1);
    assert!(out.updates.iter().any(|u| matches!(u, RoomUpdate::Removed(v) if v.as_str() == "v1")));
    assert!(out.updates.iter().any(|u| matches!(u, RoomUpdate::Changed(a, b) if a.as_str() == "v2" && b.as_str() == "v3")));
    assert!(out.updates.iter().any(|u| matches!(u, RoomUpdate::Added(v) if v.as_str() == "v5")));
}

#[test]
fn twitter_rules() {
    assert!(RuleString::try_from("a".repeat(512)).is_ok());
    match RuleString::try_from("a".repeat(513)) {
        Err(Error::RuleLengthExceeded { length, limit, .. }) => {
            assert_eq!(length, 513);
            assert_eq!(limit, 512);
        }
        _ => panic!("expected the length error"),
    }
    let talents = vec![talent("A", Some(1)), talent("B", None), talent("C", Some(3))];
    let rules = create_talent_rules(&talents).ok().unwrap();
    assert_eq!(rules.len(), 1);
    assert_eq!(rules[0].value.0, "(from:1 OR from:3) -is:retweet");
    assert_eq!(rules[0].tag, "Hololive Talents #1");
    assert_eq!(bearer_token("abc"), "Bearer abc");
}

#[test]
fn rate_limit_headers() {
    assert!(check_rate_limit(Header::Value(5), Header::Value(50), Header::Value(100)).is_ok());
    match check_rate_limit(Header::Value(0), Header::Value(50), Header::Value(100)) {
        Err(Error::RateLimitReached { requests_made, request_limit, resets_at }) => {
            assert_eq!((requests_made, request_limit, resets_at), (50, 50, 100));
        }
        _ => panic!("expected the rate limit error"),
    }
    match check_rate_limit(Header::Missing, Header::Value(50), Header::Value(100)) {
        Err(Error::MissingResponseHeader(n)) => assert_eq!(n, "x-rate-limit-remaining"),
        _ => panic!("expected a missing header"),
    }
}

fn active(id: u64, tag: &str, value: &str) -> ActiveRule {
    ActiveRule { id, value: RuleString(value.to_string()), tag: tag.to_string() }
}

#[test]
fn rules_in_tag_order() {
    let sorted = sort_rules_by_tag(vec![
        active(3, "Hololive Talents #2", "x"),
        active(1, "Hololive Talents #10", "y"),
        active(2, "Hololive Talents #1", "z"),
    ]);
    let tags: Vec<&str> = sorted.iter().map(|r| r.tag.as_str()).collect();
    assert_eq!(tags, vec!["Hololive Talents #1", "Hololive Talents #10", "Hololive Talents #2"]);
    assert!(active(1, "a", "b").order_le(&active(0, "b", "a")));
    assert!(active(1, "a", "b").order_le(&active(2, "a", "b")));
    assert!(!active(3, "a", "b").order_le(&active(2, "a", "b")));
    let r1 = Rule { value: RuleString("x".to_string()), tag: "t".to_string() };
    let r2 = Rule { value: RuleString("y".to_string()), tag: "t".to_string() };
    assert!(r1.order_le(&r2) && !r2.order_le(&r1));
}

#[test]
fn default_values() {
    assert!(is_default(&false));
    assert!(!is_default(&true));
    assert!(is_default(&TweetCountGranularity::Hour));
    assert!(!is_default(&TweetCountGranularity::Day));
}

#[test]
fn rule_builder_limits() {
    let rule = |v: &str| Rule { value: RuleString(v.to_string()), tag: "t".to_string() };
    let mut b = RuleBuilder::new();
    b.add_rule(rule("from:1"));
    b.add_rules(vec![rule("from:2"), rule("from:3")]);
    let built = b.build().ok().unwrap();
    assert_eq!(built.len(), 3);
    assert_eq!(built[2].value.0, "from:3");
    let mut many = RuleBuilder::new();
    many.add_rules((0..26).map(|i| rule(&format!("from:{}", i))).collect());
    match many.build() {
        Err(Error::RuleLimitExceeded { count, limit }) => assert_eq!((count, limit), (26, 25)),
        _ => panic!("expected the rule limit"),
    }
    let mut long = RuleBuilder::new();
    long.add_rules(vec![rule("ok"), rule(&"é".repeat(300)), rule(&"x".repeat(600))]);
    match long.build() {
        Err(Error::RuleLengthExceeded { length, limit, .. }) => assert_eq!((length, limit), (600, 512)),
        _ => panic!("expected the length limit"),
    }
    let mut academic = RuleBuilder::with_track(ProductTrack::AcademicResearch);
    academic.add_rules(vec![rule(&"x".repeat(1024))]);
    assert!(academic.build().is_ok());
}

#[test]
fn stream_chat_is_archived_once() {
    let mut chats = StreamChats::new();
    let s = live("vid", VideoStatus::Live, 0);
    chats.claimed(s.copy(), 42);
    assert!(chats.has_chat("vid"));
    match chats.on_update(&StreamUpdate::Ended("vid".to_string())) {
        Some(ChatAction::Archive { channel, stream }) => {
            assert_eq!(channel, 42);
            assert_eq!(stream.unwrap().id, "vid");
        }
        _ => panic!("expected the archival"),
    }
    assert!(!chats.has_chat("vid"));
    assert!(chats.on_update(&StreamUpdate::Ended("vid".to_string())).is_none());
}

#[test]
fn decimal_notation_reads_back() {
    for n in [0u64, 7, 10, 99, 1234567890123, u64::MAX] {
        assert_eq!(holo_bot::text::parse_u64(&holo_bot::text::dec_string(n)), Some(n));
    }
}

#[test]
fn removing_an_added_rule_restores_the_rules() {
    let mut rules = holo_bot::twitter::StreamRules::new();
    rules.insert(active(1, "a", "from:1"));
    rules.insert(active(2, "b", "from:2"));
    rules.insert(active(3, "c", "from:3"));
    rules.retain_not(&vec![3]);
    assert_eq!(rules.ids(), vec![1, 2]);
    rules.insert(active(1, "a2", "from:9"));
    assert_eq!(rules.ids(), vec![1, 2]);
    assert_eq!(rules.rules()[0].tag, "a2");
}

#[test]
fn finding_after_inserting() {
    let mut index = StreamIndex::new();
    index.insert(live("one", VideoStatus::Upcoming, 10), true);
    index.insert(live("two", VideoStatus::Live, 20), false);
    assert_eq!(index.find("one"), Some(0));
    assert_eq!(index.find("two"), Some(1));
    index.insert(live("one", VideoStatus::Live, 30), false);
    assert_eq!(index.find("one"), Some(0));
    assert_eq!(index.find("three"), None);
    let snap = index.snapshot();
    assert_eq!(snap[0].start_at, 30);
    assert_eq!(snap.len(), 2);
}

#[test]
fn remembered_ids() {
    let mut n = NotifiedStreams::new(2);
    n.put("a".to_string());
    n.put("b".to_string());
    n.put("c".to_string());
    assert!(n.contains("c") && n.contains("b") && !n.contains("a"));
    n.put("b".to_string());
    n.put("d".to_string());
    assert!(n.contains("b") && n.contains("d") && !n.contains("c"));
}

#[test]
fn added_reminder_fires() {
    let mut r = Reminders::new();
    let (timer, keep) = r.on_event(EntryEvent::Added { key: 4, value: reminder(4, ReminderFrequency::Weekly, 9_000) }, 1_000);
    assert!(keep);
    assert!(matches!(timer, Some(TimerAction::Insert { key: 4, delay: 8_000 })));
    let (sent, timer, _) = r.on_fire(4);
    assert_eq!(sent.unwrap().time, 9_000);
    assert!(matches!(timer, Some(TimerAction::Insert { key: 4, delay: 604_800_000 })));
    let (late, keep) = r.on_event(EntryEvent::Added { key: 5, value: reminder(5, ReminderFrequency::Once, 500) }, 1_000);
    assert!(late.is_none() && !keep);
    let (none, _, _) = r.on_fire(5);
    assert!(none.is_none());
}

#[test]
fn uploaded_commands_get_their_ids() {
    let mk = |name: &str| holo_bot::paging::RegisteredInteraction {
        name: name.to_string(),
        command_id: None,
        permissions: vec![],
    };
    let mut commands = vec![mk("live"), mk("meme"), mk("live")];
    holo_bot::paging::record_uploaded(
        &mut commands,
        &vec![("meme".to_string(), 20), ("live".to_string(), 10), ("ogey".to_string(), 30), ("live".to_string(), 11)],
    );
    assert_eq!(commands[0].command_id, Some(11));
    assert_eq!(commands[1].command_id, Some(20));
    assert_eq!(commands[2].command_id, None);
}

#[test]
fn page_texts_and_settings() {
    let s = holo_bot::paging::PageSettings::default();
    assert_eq!(s.layout, PageLayout::Standard { items_per_page: 5 });
    assert_eq!(s.timeout_secs, 900);
    assert_eq!(s.show_page_count, ShowPageCount::WhenSeveralPages);
    assert_eq!(holo_bot::paging::LIST_COLOUR, 6_282_735);
    let lines: Vec<String> = (1..=7).map(|i| format!("line {}\r\n", i)).collect();
    let (start, end) = page_items(lines.len(), 5, 2);
    assert_eq!(holo_bot::paging::join_lines(&lines, start, end), "line 6\r\nline 7\r\n");
    assert_eq!(holo_bot::paging::join_lines(&lines, 3, 3), "");
}

#[test]
fn rules_from_values() {
    let r = Rule::try_from("from:1".to_string(), "Talents".to_string()).ok().unwrap();
    assert_eq!((r.value.0.as_str(), r.tag.as_str()), ("from:1", "Talents"));
    assert!(matches!(
        Rule::try_from("y".repeat(513), "t".to_string()),
        Err(Error::RuleLengthExceeded { length: 513, limit: 512, .. })
    ));
}
