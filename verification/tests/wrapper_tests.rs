use holo_bot::config::{HoloBranch, Reminder, ReminderFrequency, ReminderLocation, ReminderSubscriber, Talent};
use holo_bot::discord::{
    group_reminder, plan_reply, posting_cache, reminder_message, remember_tweet, MessageRef,
    ReplyLookup, TweetReply,
};
use holo_bot::mchad::VideoId;
use holo_bot::tweets::{Expansions, HoloTweetReference, Media, Tweet, TweetInfo};
use holo_bot::twitter::MediaType;

fn talent(name: &str, twitter_id: u64) -> Talent {
    Talent {
        name: name.to_string(),
        english_name: name.to_string(),
        emoji: String::new(),
        icon: String::new(),
        colour: 0,
        branch: HoloBranch::HoloEN,
        discord_role: None,
        youtube_ch_id: Some("UCx".to_string()),
        twitter_id: Some(twitter_id),
        twitter_handle: Some(format!("{}_handle", name)),
        schedule_keyword: Some("SCHEDULE".to_string()),
    }
}

#[test]
fn video_ids_in_links() {
    let id = VideoId::from_str("https://www.youtube.com/watch?v=dQw4w9WgXcQ&t=1").ok().unwrap();
    assert_eq!(id.as_str(), "dQw4w9WgXcQ");
    let id = VideoId::from_str("xxxxxxxxxxxzzzzzzzzzzQ").ok().unwrap();
    assert_eq!(id.as_str(), "zzzzzzzzzzQ");
    assert!(VideoId::from_str("short").is_err());
}

#[test]
fn schedule_keyword_ignores_case() {
    let t = talent("Kiara", 77);
    let tweet = Tweet {
        data: TweetInfo {
            id: 123,
            text: "This week's Schedule!".to_string(),
            author_id: Some(77),
            created_at: Some(1_600_000_000_000),
            in_reply_to_user_id: None,
            referenced_tweets: vec![],
            entities: vec![],
            lang: Some("eng".to_string()),
        },
        includes: Some(Expansions {
            media: vec![Media { media_type: MediaType::Photo, url: Some("https://pbs.twimg.com/x.jpg".to_string()) }],
            tweets: vec![],
        }),
    };
    let u = tweet.schedule_update(&t).unwrap();
    assert_eq!(u.schedule_image, "https://pbs.twimg.com/x.jpg");
    assert_eq!(u.tweet_link, "https://twitter.com/Kiara_handle/status/123");
    assert_eq!(u.twitter_id, 77);
    assert_eq!(tweet.source_language(), Some("en".to_string()));
}

#[test]
fn replies_come_from_the_cache() {
    let mut cache = posting_cache();
    let talents = vec![talent("Kiara", 77), talent("Ina", 88)];
    let channels = vec![Some(500), None];
    remember_tweet(&mut cache, 1, 900, 4242, "Kiara".to_string());
    remember_tweet(&mut cache, 2, 901, 4343, "Ina".to_string());
    match plan_reply(Some(HoloTweetReference { user: 77, tweet: 1 }), &mut cache, 900, &talents, &channels) {
        ReplyLookup::Done(TweetReply::SameChannel(user, m)) => {
            assert_eq!(user, "Kiara");
            assert_eq!(m, MessageRef { channel_id: 900, message_id: Some(4242), guild_id: None });
        }
        other => panic!("unexpected {:?}", other),
    }
    match plan_reply(Some(HoloTweetReference { user: 88, tweet: 2 }), &mut cache, 900, &talents, &channels) {
        ReplyLookup::Link { user, message } => {
            assert_eq!(user, "Ina");
            assert_eq!(message.message_id, Some(4343));
        }
        other => panic!("unexpected {:?}", other),
    }
    match plan_reply(Some(HoloTweetReference { user: 77, tweet: 3 }), &mut cache, 900, &talents, &channels) {
        ReplyLookup::Search { user, channel } => {
            assert_eq!(user, "Kiara");
            assert_eq!(channel, 500);
        }
        other => panic!("unexpected {:?}", other),
    }
    assert!(matches!(
        plan_reply(Some(HoloTweetReference { user: 88, tweet: 3 }), &mut cache, 900, &talents, &channels),
        ReplyLookup::Done(TweetReply::NoReply)
    ));
    assert!(matches!(
        plan_reply(None, &mut cache, 900, &talents, &channels),
        ReplyLookup::Done(TweetReply::NoReply)
    ));
}

#[test]
fn tweet_posts() {
    let tweet = holo_bot::tweets::HoloTweet {
        id: 5,
        user: talent("Kiara", 77),
        text: "Kikkeriki".to_string(),
        link: "https://twitter.com/Kiara_handle/status/5".to_string(),
        timestamp: 0,
        media: vec!["https://pbs/a.jpg".to_string(), "https://pbs/b.jpg".to_string()],
        translation: Some("Cock-a-doodle-doo".to_string()),
        replied_to: None,
    };
    let other = TweetReply::OtherChannel("Ina".to_string(), "https://discord.com/x".to_string());
    let m = holo_bot::discord::tweet_message(&tweet, &other, 900);
    assert_eq!(m.channel, 900);
    assert!(m.embed.description.is_none());
    assert_eq!(m.embed.image, Some("https://pbs/a.jpg".to_string()));
    let fields: Vec<(&str, &str)> = m.embed.fields.iter().map(|f| (f.name.as_str(), f.value.as_str())).collect();
    assert_eq!(
        fields,
        vec![
            ("Replying to Ina", "[Link to tweet](https://discord.com/x)"),
            ("Tweet", "Kikkeriki"),
            ("Machine Translation", "Cock-a-doodle-doo"),
        ]
    );
    let same = TweetReply::SameChannel("Ina".to_string(), MessageRef { channel_id: 900, message_id: Some(1), guild_id: None });
    let m = holo_bot::discord::tweet_message(&tweet, &same, 900);
    assert_eq!(m.embed.description, Some("Kikkeriki".to_string()));
    assert_eq!(m.reference, Some(MessageRef { channel_id: 900, message_id: Some(1), guild_id: None }));
    assert_eq!(m.embed.fields.len(), 1);
}

#[test]
fn reminder_posts() {
    let reminder = Reminder {
        id: 1,
        message: "Karaoke!".to_string(),
        time: 1000,
        frequency: ReminderFrequency::Once,
        subscribers: vec![
            ReminderSubscriber { user: 10, location: ReminderLocation::Channel(500) },
            ReminderSubscriber { user: 11, location: ReminderLocation::DM },
            ReminderSubscriber { user: 12, location: ReminderLocation::Channel(500) },
            ReminderSubscriber { user: 13, location: ReminderLocation::Channel(500) },
            ReminderSubscriber { user: 14, location: ReminderLocation::DM },
        ],
    };
    let groups = group_reminder(&reminder, &vec![None, Some(70), None, None, None]);
    assert_eq!(groups.len(), 2);
    assert_eq!((groups[0].channel, groups[0].public), (500, true));
    assert_eq!(groups[0].users, vec![12, 13]);
    assert_eq!((groups[1].channel, groups[1].public), (70, false));
    let m = reminder_message(&reminder, &groups[0]);
    assert_eq!(m.content, Some("<@12> <@13>".to_string()));
    assert_eq!(m.embed.title, Some("Reminder!".to_string()));
    assert_eq!(m.embed.description, Some("Karaoke!".to_string()));
    assert_eq!(m.embed.timestamp, Some(1000));
    assert_eq!(reminder_message(&reminder, &groups[1]).content, None);
}
