use holo_bot::config::MemeCreationConfig;
use holo_bot::memes::{
    pick_meme, read_reply, split_lines, CacheState, CaptionCollector, CaptionStep, ImgflipReply,
    Meme, MemeApi, MemeCache, MemeFont,
};

fn meme(id: u64, name: &str, boxes: usize) -> Meme {
    Meme {
        id,
        name: name.to_string(),
        url: format!("https://i.imgflip.com/{}.jpg", id),
        width: 500,
        height: 500,
        box_count: boxes,
    }
}

#[test]
fn picking_templates() {
    let memes = vec![meme(1, "Drake Hotline Bling", 2), meme(2, "Distracted Boyfriend", 3)];
    assert_eq!(pick_meme(&memes, "1"), Some(0));
    assert_eq!(pick_meme(&memes, " 2 "), Some(1));
    assert_eq!(pick_meme(&memes, "3"), None);
    assert_eq!(pick_meme(&memes, "distracted boyfriend"), Some(1));
    assert_eq!(pick_meme(&memes, "DRAKE HOTLINE BLING"), Some(0));
    assert_eq!(pick_meme(&memes, "unknown"), None);
}

#[test]
fn fonts() {
    assert_eq!(MemeFont::default(), MemeFont::Impact);
    assert_eq!(MemeFont::Arial.as_str(), "arial");
    assert_eq!(MemeFont::Impact.name(), "Impact");
    assert_eq!(MemeFont::from_name("Arial"), Some(MemeFont::Arial));
    assert_eq!(MemeFont::from_name("arial"), None);
}

#[test]
fn lines_and_captions() {
    assert_eq!(split_lines("a\nb\r\nc"), vec!["a", "b", "c"]);
    let mut c = CaptionCollector::new(5, 9, 2);
    assert_eq!(c.on_message(6, 9, "top\nbottom"), CaptionStep::Ignored);
    assert_eq!(c.on_message(5, 8, "top\nbottom"), CaptionStep::Ignored);
    assert_eq!(c.on_message(5, 9, "top\n\n"), CaptionStep::Added { done: false });
    assert_eq!(c.on_message(5, 9, "bottom"), CaptionStep::Added { done: true });
    assert_eq!(c.captions, vec!["top", "bottom"]);
    let mut d = CaptionCollector::new(5, 9, 2);
    assert_eq!(d.on_message(5, 9, "  a\n b \nc  "), CaptionStep::Added { done: true });
    assert_eq!(d.captions, vec!["a", " b "]);
}

#[test]
fn caption_request_of_two_boxes() {
    let api = MemeApi::new(&MemeCreationConfig {
        imgflip_user: "user".to_string(),
        imgflip_pass: "pass".to_string(),
    });
    let captions = vec!["top".to_string(), "bottom".to_string()];
    let r = api.caption_request(&meme(181913649, "Drake", 2), &captions, MemeFont::Arial, 50);
    assert_eq!(r.url, "https://api.imgflip.com/caption_image");
    let q: Vec<(&str, &str)> = r.query.iter().map(|(k, v)| (k.as_str(), v.as_str())).collect();
    assert_eq!(
        q,
        vec![
            ("template_id", "181913649"),
            ("username", "user"),
            ("password", "pass"),
            ("max_font_size", "50"),
            ("font", "arial"),
            ("text0", "top"),
            ("text1", "bottom"),
        ]
    );
    assert!(r.boxes.is_none());
}

#[test]
fn caption_request_of_one_and_of_many_boxes() {
    let api = MemeApi { username: "u".to_string(), password: "p".to_string() };
    let one = api.caption_request(&meme(7, "One", 1), &vec!["only".to_string()], MemeFont::Impact, -3);
    assert_eq!(one.query.len(), 6);
    assert_eq!(one.query[3].1, "-3");
    assert_eq!(one.query[4].1, "impact");
    let caps = vec!["a".to_string(), "b".to_string(), "c".to_string()];
    let many = api.caption_request(&meme(8, "Three", 3), &caps, MemeFont::Impact, 40);
    assert_eq!(many.query.len(), 7);
    assert_eq!(many.boxes, Some(caps));
}

#[test]
fn imgflip_replies() {
    let ok: ImgflipReply<String> = ImgflipReply {
        success: true,
        data: Some("https://i.imgflip.com/x.jpg".to_string()),
        error_message: None,
    };
    assert_eq!(read_reply(ok), Ok("https://i.imgflip.com/x.jpg".to_string()));
    let no_data: ImgflipReply<String> = ImgflipReply { success: true, data: None, error_message: None };
    assert_eq!(read_reply(no_data), Err("URL not found!".to_string()));
    let failed: ImgflipReply<String> = ImgflipReply {
        success: false,
        data: None,
        error_message: Some("No texts specified".to_string()),
    };
    assert_eq!(read_reply(failed), Err("No texts specified".to_string()));
    let silent: ImgflipReply<String> = ImgflipReply { success: false, data: None, error_message: None };
    assert_eq!(read_reply(silent), Err("Error message not found!".to_string()));
}

#[test]
fn template_cache_expires_after_a_day() {
    let mut c = MemeCache::new(1_000);
    assert_eq!(c.prepare(1_000), CacheState::Fetch);
    c.store(vec![meme(1, "A", 2)]);
    assert_eq!(c.prepare(2_000), CacheState::Serve);
    assert_eq!(c.prepare(500), CacheState::ClockError);
    assert_eq!(c.prepare(1_000 + 86_399_999), CacheState::Serve);
    assert_eq!(c.memes.len(), 1);
    assert_eq!(c.prepare(1_000 + 86_400_000), CacheState::Fetch);
    assert_eq!(c.memes.len(), 0);
    assert_eq!(c.last_update, 86_401_000);
}

#[test]
fn template_texts() {
    let m = meme(3, "Two Buttons", 3);
    assert_eq!(m.list_line(), "Two Buttons\r\n");
    assert_eq!(
        m.caption_prompt(),
        "Meme has 3 text boxes. Please type each caption on a separate line."
    );
}
