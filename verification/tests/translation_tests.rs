use holo_bot::deepl::{
    read_reply, DeepL, Error, HttpReply, TranslatableTextList, TranslatedText, UsageInformation,
};
use holo_bot::livetl::{
    Client, Language, Translation, TranslationFilter, TranslatorId,
};
use holo_bot::translation::{
    apply_config_update, azure_request, deepl_on_translation, deepl_on_usage, deepl_start,
    read_azure_reply, AzureReply, DeepLStep, TranslationApi, TranslatorConfig,
    TranslatorConfigUpdate, TranslatorType,
};
use holo_bot::tweets::language_of_tag;

fn pairs(q: &[(String, String)]) -> Vec<(&str, &str)> {
    q.iter().map(|(k, v)| (k.as_str(), v.as_str())).collect()
}

fn config(t: TranslatorType, langs: &[&str]) -> (TranslatorType, TranslatorConfig) {
    (
        t,
        TranslatorConfig {
            token: "key".to_string(),
            languages: langs.iter().map(|l| l.to_string()).collect(),
        },
    )
}

#[test]
fn indonesian_language_tag() {
    assert_eq!(language_of_tag("in"), Ok("ind".to_string()));
    assert_eq!(language_of_tag("ja"), Ok("jpn".to_string()));
    assert_eq!(language_of_tag("und"), Ok("und".to_string()));
    assert_eq!(
        language_of_tag("zz"),
        Err("Could not parse language tag: zz".to_string())
    );
}

#[test]
fn translator_routing() {
    let api = TranslationApi::new(&vec![
        config(TranslatorType::DeepL, &["ja", "jp", "de"]),
        config(TranslatorType::Azure, &[]),
        config(TranslatorType::Libre, &["ja", "fr"]),
        config(TranslatorType::Azure, &[]),
    ]);
    assert_eq!(api.get_translator_for_lang("ja"), Some(TranslatorType::DeepL));
    assert_eq!(api.get_translator_for_lang("fr"), Some(TranslatorType::Libre));
    assert_eq!(api.get_translator_for_lang("in"), Some(TranslatorType::Azure));
    let no_default = TranslationApi::new(&vec![config(TranslatorType::Libre, &["fr"])]);
    assert_eq!(no_default.get_translator_for_lang("ja"), None);
}

#[test]
fn azure_requests() {
    let r = azure_request("おはよう \"peko\"", "jp").unwrap();
    assert_eq!(r.url, "https://api.cognitive.microsofttranslator.com/translate");
    assert_eq!(pairs(&r.query), vec![("api-version", "3.0"), ("to", "en"), ("from", "ja")]);
    assert_eq!(r.body, "[{\"Text\":\"おはよう \\\"peko\\\"\"}]");
    let id = azure_request("halo", "in").unwrap();
    assert_eq!(id.query[2].1, "id");
    let ko = azure_request("x", "ko").unwrap();
    assert_eq!(ko.query[2].1, "ko");
    assert_eq!(azure_request("x", "und").err(), Some("Invalid source language.".to_string()));
}

#[test]
fn azure_replies() {
    let ok = AzureReply::Translations(vec![vec!["Good morning".to_string(), "x".to_string()]]);
    assert_eq!(read_azure_reply(ok), Ok("Good morning".to_string()));
    assert_eq!(
        read_azure_reply(AzureReply::Translations(vec![])),
        Err("Did not receive translation.".to_string())
    );
    assert_eq!(
        read_azure_reply(AzureReply::Translations(vec![vec![]])),
        Err("Did not receive translation.".to_string())
    );
    assert_eq!(
        read_azure_reply(AzureReply::Error { code: 401000, message: "bad key".to_string() }),
        Err("Code: 401000, Message: 'bad key'.".to_string())
    );
}

#[test]
fn deepl_steps() {
    let client = DeepL::new("abc:fx".to_string());
    match deepl_start(&client, "jp") {
        DeepLStep::AskUsage(q) => {
            assert_eq!(q.url, "https://api-free.deepl.com/v2/usage");
            assert_eq!(pairs(&q.query), vec![("auth_key", "abc:fx")]);
        }
        _ => panic!("expected a usage request"),
    }
    match deepl_start(&client, "fr") {
        DeepLStep::Done(Err(e)) => assert_eq!(e, "Invalid source language."),
        _ => panic!("expected an error"),
    }
    let full = UsageInformation { character_limit: 10, character_count: 11 };
    match deepl_on_usage(&client, "Hallo", "de", Ok(full)) {
        DeepLStep::Done(Err(e)) => {
            assert_eq!(e, "Character usage has reached its limit this month.")
        }
        _ => panic!("expected the limit error"),
    }
    let fine = UsageInformation { character_limit: 10, character_count: 10 };
    match deepl_on_usage(&client, "Hallo", "de", Ok(fine)) {
        DeepLStep::Translate(q) => {
            assert_eq!(q.url, "https://api-free.deepl.com/v2/translate");
            assert_eq!(
                pairs(&q.query),
                vec![
                    ("auth_key", "abc:fx"),
                    ("target_lang", "EN-US"),
                    ("source_lang", "DE"),
                    ("text", "Hallo"),
                ]
            );
        }
        _ => panic!("expected a translation request"),
    }
    match deepl_on_usage(&client, "x", "ja", Err(Error::AuthorizationError)) {
        DeepLStep::Done(Err(e)) => assert_eq!(e, "Authorization failed, is your API key correct?"),
        _ => panic!("expected an error"),
    }
    let result = vec![TranslatedText {
        detected_source_language: "DE".to_string(),
        text: "Hello".to_string(),
    }];
    match deepl_on_translation(Ok(result)) {
        DeepLStep::Done(Ok(t)) => assert_eq!(t, "Hello"),
        _ => panic!("expected the translation"),
    }
    match deepl_on_translation(Ok(vec![])) {
        DeepLStep::Done(Err(e)) => assert_eq!(e, "Translated text wasn't found."),
        _ => panic!("expected an error"),
    }
    match deepl_on_translation(Err(Error::ServerError("down".to_string()))) {
        DeepLStep::Done(Err(e)) => assert_eq!(
            e,
            "An error occurred while communicating with the DeepL server: 'down'"
        ),
        _ => panic!("expected an error"),
    }
}

#[test]
fn deepl_unauthorized_reply() {
    let reply: HttpReply<Vec<TranslatedText>> =
        HttpReply::Status { code: 403, body: None, server_message: None };
    assert!(matches!(read_reply(reply), Err(Error::AuthorizationError)));
    let reply: HttpReply<Vec<TranslatedText>> =
        HttpReply::Status { code: 401, body: None, server_message: Some("no".to_string()) };
    assert!(matches!(read_reply(reply), Err(Error::AuthorizationError)));
}

#[test]
fn deepl_error_replies() {
    let reply: HttpReply<Vec<TranslatedText>> = HttpReply::Status {
        code: 400,
        body: None,
        server_message: Some("Value for 'target_lang' not supported.".to_string()),
    };
    match read_reply(reply) {
        Err(Error::ServerError(m)) => assert_eq!(m, "Value for 'target_lang' not supported."),
        _ => panic!("expected a server error"),
    }
    let reply: HttpReply<u8> = HttpReply::Status { code: 500, body: None, server_message: None };
    match read_reply(reply) {
        Err(Error::ServerError(m)) => assert_eq!(m, "500"),
        _ => panic!("expected a server error"),
    }
    let reply: HttpReply<u8> = HttpReply::Status { code: 200, body: None, server_message: None };
    assert!(matches!(read_reply(reply), Err(Error::DeserializationError)));
    let reply: HttpReply<u8> = HttpReply::Status { code: 204, body: Some(7), server_message: None };
    assert!(matches!(read_reply(reply), Ok(7)));
    let reply: HttpReply<u8> = HttpReply::Failed("timed out".to_string());
    assert!(matches!(read_reply(reply), Err(Error::ServerError(m)) if m == "timed out"));
}

#[test]
fn deepl_requests() {
    let paid = DeepL::new("abc".to_string());
    let q = paid.translate(
        None,
        TranslatableTextList {
            source_language: None,
            target_language: "EN-US".to_string(),
            texts: vec!["ja".to_string(), "nein".to_string()],
        },
    );
    assert_eq!(q.url, "https://api.deepl.com/v2/translate");
    assert_eq!(
        pairs(&q.query),
        vec![("auth_key", "abc"), ("target_lang", "EN-US"), ("text", "ja"), ("text", "nein")]
    );
    let s = paid.source_languages();
    assert_eq!(s.url, "https://api.deepl.com/v2/languages");
    assert_eq!(pairs(&s.query), vec![("auth_key", "abc"), ("type", "source")]);
    let t = paid.target_languages();
    assert_eq!(pairs(&t.query), vec![("auth_key", "abc"), ("type", "target")]);
}

fn translation(start: i64, end: Option<i64>) -> Translation {
    Translation {
        id: 9,
        video_id: "IhiievWaZMI".to_string(),
        translator_id: TranslatorId::new("tl1".to_string()),
        language: Language {
            code: "eng".to_string(),
            name: "English".to_string(),
            native_name: "English".to_string(),
        },
        translated_text: "hello".to_string(),
        start,
        end,
    }
}

#[test]
fn livetl_translations() {
    assert_eq!(translation(1500, Some(3000)).to_string(), "[PT1.5S-PT3S] tl1 [English]: hello");
    assert_eq!(translation(0, None).to_string(), "[P0D] tl1 [English]: hello");
    assert_eq!(translation(-250, None).to_string(), "[-PT0.25S] tl1 [English]: hello");
    assert_eq!(translation(61_005, None).to_string(), "[PT61.005S] tl1 [English]: hello");
    assert!(translation(1, None) == translation(2, Some(5)));
    let a = Language { code: "jpn".to_string(), name: "Japanese".to_string(), native_name: "日本語".to_string() };
    let b = Language { code: "jpn".to_string(), name: "Japanisch".to_string(), native_name: String::new() };
    assert!(a == b);
}

#[test]
fn livetl_requests() {
    let f = TranslationFilter::default();
    assert!(f.query().is_empty());
    let g = TranslationFilter {
        since: 1000,
        require: vec![TranslatorId::new("a".to_string()), TranslatorId::new("b".to_string())],
        exclude: vec![TranslatorId::new("c".to_string())],
    };
    assert_eq!(pairs(&g.query()), vec![("since", "1000"), ("require", "a,b"), ("exclude", "c")]);
    let c = Client::new();
    let r = c.try_translations_for_video("IhiievWaZMI", "eng", &g).unwrap();
    assert_eq!(r.url, "https://api.livetl.app/translations/IhiievWaZMI/en");
    assert_eq!(r.query.len(), 3);
    let s = c.try_translation_stream("UtS5wFgSMZs", "eng").unwrap();
    assert_eq!(
        s.url,
        "https://api.livetl.app/notifications/translations?videoId=UtS5wFgSMZs&languageCode=en"
    );
    assert!(c.try_translation_stream("x", "und").is_none());
    assert_eq!(c.translators().url, "https://api.livetl.app/translators/registered");
    assert_eq!(
        c.translator(&TranslatorId::new("abc".to_string())).url,
        "https://api.livetl.app/translators/abc"
    );
}

#[test]
fn translator_configuration_updates() {
    let mut configs = vec![config(TranslatorType::DeepL, &["ja"])];
    assert!(apply_config_update(&mut configs, TranslatorConfigUpdate::Added(TranslatorType::Azure, TranslatorConfig { token: "t".to_string(), languages: vec![] })));
    assert_eq!(configs.len(), 2);
    assert!(!apply_config_update(&mut configs, TranslatorConfigUpdate::Changed(TranslatorType::Libre, TranslatorConfig { token: "x".to_string(), languages: vec![] })));
    assert_eq!(configs.len(), 2);
    assert!(apply_config_update(&mut configs, TranslatorConfigUpdate::Changed(TranslatorType::DeepL, TranslatorConfig { token: "new".to_string(), languages: vec!["de".to_string()] })));
    assert_eq!(configs[0].1.token, "new");
    assert_eq!(configs[0].1.languages, vec!["de".to_string()]);
    assert!(apply_config_update(&mut configs, TranslatorConfigUpdate::Removed(TranslatorType::Azure)));
    assert_eq!(configs.len(), 1);
    let api = TranslationApi::new(&configs);
    assert_eq!(api.get_translator_for_lang("de"), Some(TranslatorType::DeepL));
    assert_eq!(api.get_translator_for_lang("ja"), None);
}
