use holo_bot::chatbot::Conversation;
use holo_bot::commands::{
    currently_live, get_birthdays, get_upcoming_birthdays, upcoming_streams, BirthdayUser,
};
use holo_bot::config::{HoloBranch, MemeCreationConfig, Talent};
use holo_bot::holo::{Livestream, VideoStatus};
use holo_bot::mentions::mention_reply;
use holo_bot::ratelimit::{RateLimit, RateLimitGrouping, RateLimiter};

fn talent(name: &str, branch: HoloBranch, role: Option<u64>) -> Talent {
    Talent {
        name: name.to_string(),
        english_name: name.to_string(),
        emoji: String::new(),
        icon: String::new(),
        colour: 0xff00ff,
        branch,
        discord_role: role,
        youtube_ch_id: Some(format!("UC{}", name)),
        twitter_id: None,
        twitter_handle: None,
        schedule_keyword: None,
    }
}

fn stream(id: &str, t: Talent, state: VideoStatus, start_at: i64) -> Livestream {
    Livestream {
        id: id.to_string(),
        title: format!("Stream {}", id),
        thumbnail: format!("https://i.ytimg.com/vi/{}/hq.jpg", id),
        url: id.to_string(),
        streamer: t,
        state,
        start_at,
        duration: None,
    }
}

#[test]
fn rate_limit_allows_count_uses_per_window() {
    let limit = RateLimit { count: 2, interval_sec: 10, grouping: RateLimitGrouping::Everyone };
    let mut rl = RateLimiter::new();
    assert!(rl.check(1, 100, limit, 0));
    assert!(rl.check(1, 200, limit, 1_000));
    assert!(!rl.check(1, 300, limit, 2_000));
    // ten whole seconds are not more than the interval
    assert!(!rl.check(1, 300, limit, 10_999));
    // eleven whole seconds open a new window
    assert!(rl.check(1, 300, limit, 11_000));
    // another command has a window of its own
    assert!(rl.check(2, 300, limit, 11_000));
}

#[test]
fn rate_limit_per_user() {
    let limit = RateLimit { count: 1, interval_sec: 60, grouping: RateLimitGrouping::User };
    let mut rl = RateLimiter::new();
    assert!(rl.check(7, 1, limit, 0));
    assert!(!rl.check(7, 1, limit, 5_000));
    assert!(rl.check(7, 2, limit, 5_000));
    assert!(!rl.check(7, 2, limit, 65_999));
    assert!(rl.check(7, 2, limit, 66_000));
}

#[test]
fn rate_limit_with_clock_going_back() {
    let limit = RateLimit { count: 1, interval_sec: 0, grouping: RateLimitGrouping::Everyone };
    let mut rl = RateLimiter::new();
    assert!(rl.check(3, 1, limit, 10_000));
    assert!(!rl.check(3, 1, limit, 5_000));
    assert!(!rl.check(3, 1, limit, 10_999));
    assert!(rl.check(3, 1, limit, 11_000));
}

#[test]
fn mention_answers() {
    assert_eq!(mention_reply(None, None), Some("parduuun?".to_string()));
    assert_eq!(mention_reply(None, Some(false)), Some("parduuun?".to_string()));
    assert_eq!(mention_reply(None, Some(true)), None);
    assert_eq!(
        mention_reply(Some("marry me"), None),
        Some("AH↓HA↑HA↑HA↑HA↑ no peko".to_string())
    );
    assert_eq!(
        mention_reply(Some("will you be my waifu?"), Some(true)),
        Some("AH↓HA↑HA↑HA↑HA↑ no peko".to_string())
    );
    assert_eq!(mention_reply(Some("hello"), None), None);
}

#[test]
fn chatbot_conversation() {
    let mut c = Conversation::new();
    assert!(c.last_message.starts_with("You are talking to Usada Pekora"));
    let init = c.last_message.clone();
    let p = c.prompt_text("hi");
    assert_eq!(p, format!("{}\n\nFan:: hi\n\nPekora:: ", init));
    let a = c.answer("hi", &vec![" konpeko".to_string(), "x".to_string()]);
    assert_eq!(a, Ok(" konpeko".to_string()));
    assert_eq!(c.last_message, format!("{}\n\nFan:: hi\n\nPekora::  konpeko", init));
    let before = c.last_message.clone();
    assert_eq!(c.answer("again", &vec![]), Err("No completions returned!".to_string()));
    assert_eq!(c.last_message, before);
    c.clear();
    assert_eq!(c.last_message, init);
}

#[test]
fn live_list_and_line() {
    let index = vec![
        stream("a", talent("Pekora", HoloBranch::HoloJP, Some(11)), VideoStatus::Live, 0),
        stream("b", talent("Kiara", HoloBranch::HoloEN, Some(22)), VideoStatus::Live, 0),
        stream("c", talent("Moona", HoloBranch::HoloID, None), VideoStatus::Upcoming, 0),
    ];
    let all = currently_live(&index, None);
    assert_eq!(all.len(), 2);
    assert_eq!(all[0].title, "Stream a");
    assert_eq!(all[1].role, Some(22));
    let en = currently_live(&index, Some(HoloBranch::HoloEN));
    assert_eq!(en.len(), 1);
    assert_eq!(
        en[0].format(),
        "<@&22>\r\nStream b\r\n<https://youtube.com/watch?v=b>\r\n\r\n"
    );
}

#[test]
fn upcoming_list_sorted_by_start() {
    let now: i64 = 1_000_000;
    let index = vec![
        stream("late", talent("A", HoloBranch::HoloJP, Some(1)), VideoStatus::Upcoming, now + 50 * 60_000),
        stream("soon", talent("B", HoloBranch::HoloJP, Some(2)), VideoStatus::Upcoming, now + 5 * 60_000),
        stream("far", talent("C", HoloBranch::HoloJP, Some(3)), VideoStatus::Upcoming, now + 61 * 60_000),
        stream("edge", talent("D", HoloBranch::HoloEN, Some(4)), VideoStatus::Upcoming, now + 60 * 60_000 + 59_999),
        stream("live", talent("E", HoloBranch::HoloJP, Some(5)), VideoStatus::Live, now),
    ];
    let s = upcoming_streams(&index, None, 60, now);
    let urls: Vec<&str> = s.iter().map(|d| d.url.as_str()).collect();
    assert_eq!(urls, vec!["soon", "late", "edge"]);
    assert_eq!(
        s[0].description(),
        "<@&2>\r\nStream soon\r\n<https://youtube.com/watch?v=soon>"
    );
    let jp = upcoming_streams(&index, Some(HoloBranch::HoloJP), 60, now);
    assert_eq!(jp.len(), 2);
}

#[test]
fn birthdays_soonest_first() {
    let users = vec![
        BirthdayUser { display_name: "A".to_string(), branch: HoloBranch::HoloJP, discord_role: None, next_birthday: 30 },
        BirthdayUser { display_name: "B".to_string(), branch: HoloBranch::HoloEN, discord_role: None, next_birthday: 10 },
        BirthdayUser { display_name: "C".to_string(), branch: HoloBranch::HoloID, discord_role: None, next_birthday: 30 },
        BirthdayUser { display_name: "D".to_string(), branch: HoloBranch::HoloID, discord_role: None, next_birthday: 20 },
    ];
    let b = get_upcoming_birthdays(&users);
    let names: Vec<&str> = b.iter().map(|x| x.user.as_str()).collect();
    assert_eq!(names, vec!["B", "D", "A", "C"]);
    assert_eq!(b[0].birthday, 10);
    assert_eq!(get_birthdays(&users, None), vec![(1, 10), (3, 20), (0, 30), (2, 30)]);
    assert_eq!(get_birthdays(&users, Some(HoloBranch::HoloID)), vec![(3, 20), (2, 30)]);
    assert_eq!(get_birthdays(&users, Some(HoloBranch::HolostarsJP)), vec![]);
}

#[test]
fn meme_config_is_kept() {
    let c = MemeCreationConfig { imgflip_user: "u".to_string(), imgflip_pass: "p".to_string() };
    let api = holo_bot::memes::MemeApi::new(&c);
    assert_eq!(api.username, "u");
    assert_eq!(api.password, "p");
}
