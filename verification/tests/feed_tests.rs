use holo_bot::feed::{
    is_keep_alive, parse_message, Expansions, FeedMessage, MediaInfo, Tweet, TweetInfo,
    TweetReference, User,
};

fn user(id: u64, name: &str) -> User {
    User {
        twitter_id: id,
        display_name: name.to_string(),
        twitter_handle: format!("{}_en", name),
        schedule_keyword: Some("schedule".to_string()),
    }
}

fn info(author: u64, id: u64, text: &str) -> TweetInfo {
    TweetInfo {
        author_id: author,
        id,
        text: text.to_string(),
        created_at: 1_636_490_454_000,
        lang: None,
        in_reply_to_user_id: None,
        referenced_tweets: vec![],
    }
}

#[test]
fn tweets_of_users() {
    let users = vec![user(1409817941705515015, "Kiara"), user(1283646922406760448, "Calli")];
    let mut data = info(1409817941705515015, 1458172771054206977, "Ki Ki Kiaraoke!!!");
    data.lang = Some("in".to_string());
    data.referenced_tweets = vec![TweetReference { reply_type: "quoted".to_string(), id: 1458038855005782017 }];
    let quoted = info(1283646922406760448, 1458038855005782017, "next stream");
    let tweet = Tweet {
        data,
        includes: Some(Expansions {
            media: vec![
                MediaInfo { media_type: "photo".to_string(), url: Some("https://pbs/1.jpg".to_string()) },
                MediaInfo { media_type: "video".to_string(), url: Some("https://pbs/2.mp4".to_string()) },
            ],
            tweets: vec![quoted],
        }),
    };
    match parse_message(&tweet, &users) {
        Ok(Some(FeedMessage::Tweet(t))) => {
            assert_eq!(t.user, 0);
            assert_eq!(t.link, "https://twitter.com/1409817941705515015/status/1458172771054206977");
            assert_eq!(t.media, vec!["https://pbs/1.jpg".to_string()]);
            assert_eq!(t.translate_from, Some("in".to_string()));
            let r = t.replied_to.unwrap();
            assert_eq!((r.user, r.tweet), (1283646922406760448, 1458038855005782017));
        }
        _ => panic!("expected a tweet"),
    }
}

#[test]
fn tweets_that_are_not_posted() {
    let users = vec![user(1, "A")];
    assert_eq!(
        parse_message(&Tweet { data: info(2, 10, "hi"), includes: None }, &users).err(),
        Some("Could not find user with twitter ID: 2".to_string())
    );
    let mut reply = info(1, 11, "@someone hi");
    reply.referenced_tweets = vec![TweetReference { reply_type: "replied_to".to_string(), id: 5 }];
    reply.in_reply_to_user_id = Some(99);
    assert!(matches!(parse_message(&Tweet { data: reply, includes: None }, &users), Ok(None)));
    let mut broken = info(1, 12, "hm");
    broken.referenced_tweets = vec![TweetReference { reply_type: "retweeted".to_string(), id: 5 }];
    assert_eq!(
        parse_message(&Tweet { data: broken, includes: None }, &users).err(),
        Some("Unknown reply type: retweeted".to_string())
    );
}

#[test]
fn schedules() {
    let users = vec![user(1, "A")];
    let tweet = Tweet {
        data: info(1, 13, "This week's SCHEDULE"),
        includes: Some(Expansions {
            media: vec![MediaInfo { media_type: "photo".to_string(), url: Some("https://pbs/s.jpg".to_string()) }],
            tweets: vec![],
        }),
    };
    match parse_message(&tweet, &users) {
        Ok(Some(FeedMessage::ScheduleUpdate(u))) => {
            assert_eq!(u.schedule_image, "https://pbs/s.jpg");
            assert_eq!(u.tweet_link, "https://twitter.com/A_en/status/13");
        }
        _ => panic!("expected a schedule"),
    }
    let no_url = Tweet {
        data: info(1, 14, "schedule"),
        includes: Some(Expansions {
            media: vec![MediaInfo { media_type: "photo".to_string(), url: None }],
            tweets: vec![],
        }),
    };
    assert_eq!(parse_message(&no_url, &users).err(), Some("Detected schedule image had no URL.".to_string()));
}

#[test]
fn keep_alive_messages() {
    assert!(is_keep_alive(b"\r\n"));
    assert!(!is_keep_alive(b"{\"data\":{}}"));
}

#[test]
fn entities_in_order() {
    let raw = holo_bot::tweets::EntitiesRaw {
        annotations: vec![holo_bot::tweets::EntityAnnotation { entity_type: "Person".to_string(), normalized_text: "Kiara".to_string() }],
        urls: vec![holo_bot::tweets::EntityUrl {
            url: "https://t.co/x".to_string(),
            expanded_url: "https://youtu.be/abc".to_string(),
            display_url: "youtu.be/abc".to_string(),
            unwound_url: None,
        }],
        hashtags: vec![holo_bot::tweets::EntityHashtag { tag: "hololive".to_string() }],
        mentions: vec![holo_bot::tweets::EntityMention { username: "takanashikiara".to_string() }],
    };
    let list = holo_bot::tweets::entities_from(raw);
    let shown: Vec<String> = list.iter().map(|e| e.to_string()).collect();
    assert_eq!(shown, vec!["#hololive", "@takanashikiara", "https://youtu.be/abc", "Person - Kiara"]);
    let mut text = "#hololive with @takanashikiara https://t.co/x".to_string();
    for e in &list {
        e.embed_link(&mut text);
    }
    assert_eq!(
        text,
        "[#hololive](https://twitter.com/hashtag/hololive) with [@takanashikiara](https://twitter.com/takanashikiara) [youtu.be/abc](https://youtu.be/abc)"
    );
}
