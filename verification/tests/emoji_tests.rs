use holo_bot::emoji::{
    emote_count_text, emote_list_title, most_used_emotes, parse_emoji_type, parse_usage,
    EmojiStats, EmojiType, EmojiUsage, UsageKind,
};

fn stats(text: u64, reactions: u64) -> EmojiStats {
    EmojiStats { text_count: text, reaction_count: reactions }
}

#[test]
fn emote_rankings() {
    let usage = vec![(1, stats(5, 0)), (2, stats(1, 9)), (3, stats(7, 2)), (4, stats(0, 1)), (9, stats(50, 50))];
    let guild = vec![(1, false), (2, true), (3, false), (4, false)];
    let most = most_used_emotes(&usage, &guild, "Descending", UsageKind::Text, EmojiType::Any).unwrap();
    let ids: Vec<u64> = most.iter().map(|e| e.0).collect();
    assert_eq!(ids, vec![3, 1, 2]);
    let least = most_used_emotes(&usage, &guild, "Ascending", UsageKind::Reactions, EmojiType::Normal).unwrap();
    let ids: Vec<u64> = least.iter().map(|e| e.0).collect();
    assert_eq!(ids, vec![4, 3]);
    let animated = most_used_emotes(&usage, &guild, "Descending", UsageKind::Any, EmojiType::Animated).unwrap();
    assert_eq!(animated.len(), 1);
    assert_eq!(animated[0].0, 2);
    assert_eq!(
        most_used_emotes(&usage, &guild, "Sideways", UsageKind::Any, EmojiType::Any),
        Err("Invalid ordering.".to_string())
    );
}

#[test]
fn emote_texts() {
    assert_eq!(parse_usage(Some("Text")), UsageKind::Text);
    assert_eq!(parse_usage(Some("Reactions")), UsageKind::Reactions);
    assert_eq!(parse_usage(Some("other")), UsageKind::Any);
    assert_eq!(parse_usage(None), UsageKind::Any);
    assert_eq!(parse_emoji_type(Some("Animated")), EmojiType::Animated);
    assert_eq!(parse_emoji_type(None), EmojiType::Any);
    assert_eq!(
        emote_list_title(true, EmojiType::Normal, UsageKind::Text),
        "Least used static emotes (Not counting reactions)"
    );
    assert_eq!(emote_list_title(false, EmojiType::Any, UsageKind::Any), "Most used emotes");
    assert_eq!(emote_count_text(stats(3, 4), UsageKind::Any), " 7 (3T, 4R)\r\n");
    assert_eq!(emote_count_text(stats(3, 4), UsageKind::Reactions), " 4\r\n");
}

#[test]
fn merging_counts() {
    let mut usage = EmojiUsage::new();
    usage.count_text(1);
    usage.count_text(1);
    usage.merge(&vec![(1, stats(1, 2)), (2, stats(0, 3))]);
    assert_eq!(usage.get(1), stats(3, 2));
    assert_eq!(usage.get(2), stats(0, 3));
    usage.set(2, stats(9, 9));
    assert_eq!(usage.get(2), stats(9, 9));
    assert_eq!(usage.entries().len(), 2);
}
