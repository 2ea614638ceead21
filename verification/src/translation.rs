//! Translating tweets: which translator serves which language, and the
//! requests and replies of the Azure and DeepL translators.

use vstd::prelude::*;
use vstd::string::*;
use crate::deepl::{
    error_text, pair_views, DeepL, Error, ErrorView, HttpRequest, TranslatableTextList,
    TranslatedText, UsageInformation,
};
use crate::memes::string_views;
use crate::text::{dec, push_dec, push_str, str_eq};

verus! {

/// A translation service.
#[derive(Debug, Clone, Copy, PartialEq, Eq, Structural)]
pub enum TranslatorType {
    DeepL,
    Azure,
    Libre,
}

/// A translator's configuration: its key, and the languages it is used for
/// (none: it is the default).
#[derive(Debug)]
pub struct TranslatorConfig {
    pub token: String,
    pub languages: Vec<String>,
}

pub open spec fn config_view(c: Seq<(TranslatorType, TranslatorConfig)>) -> Seq<
    (TranslatorType, Seq<Seq<char>>),
> {
    c.map_values(|p: (TranslatorType, TranslatorConfig)| (p.0, string_views(p.1.languages@)))
}

/// The first translator, in the order of the configuration, used for
/// `lang`.
pub open spec fn first_listing(c: Seq<(TranslatorType, Seq<Seq<char>>)>, lang: Seq<char>) -> Option<
    TranslatorType,
>
    decreases c.len(),
{
    if c.len() == 0 {
        None
    } else if c[0].1.contains(lang) {
        Some(c[0].0)
    } else {
        first_listing(c.drop_first(), lang)
    }
}

/// The first translator configured for no language.
pub open spec fn first_default(c: Seq<(TranslatorType, Seq<Seq<char>>)>) -> Option<TranslatorType>
    decreases c.len(),
{
    if c.len() == 0 {
        None
    } else if c[0].1.len() == 0 {
        Some(c[0].0)
    } else {
        first_default(c.drop_first())
    }
}

/// The translator of `lang`: the first used for it, else the default.
pub open spec fn route(c: Seq<(TranslatorType, Seq<Seq<char>>)>, lang: Seq<char>) -> Option<
    TranslatorType,
> {
    match first_listing(c, lang) {
        Some(t) => Some(t),
        None => first_default(c),
    }
}

/// The translators and the languages they serve.
#[derive(Debug)]
pub struct TranslationApi {
    routes: Vec<(TranslatorType, Vec<String>)>,
}

pub open spec fn routes_view(r: Seq<(TranslatorType, Vec<String>)>) -> Seq<
    (TranslatorType, Seq<Seq<char>>),
> {
    r.map_values(|p: (TranslatorType, Vec<String>)| (p.0, string_views(p.1@)))
}

fn copy_strings(v: &Vec<String>) -> (r: Vec<String>)
    ensures
        string_views(r@) == string_views(v@),
{
    let mut out: Vec<String> = Vec::new();
    let mut i: usize = 0;
    while i < v.len()
        invariant
            i <= v@.len(),
            string_views(out@) == string_views(v@).take(i as int),
        decreases v@.len() - i,
    {
        let ghost prev = string_views(out@);
        out.push(v[i].clone());
        assert(string_views(out@) =~= prev.push(v@[i as int]@));
        assert(string_views(v@).take(i + 1) =~= string_views(v@).take(i as int).push(
            v@[i as int]@,
        ));
        i += 1;
    }
    assert(string_views(v@).take(i as int) =~= string_views(v@));
    out
}

fn contains_str(v: &Vec<String>, s: &str) -> (r: bool)
    ensures
        r == string_views(v@).contains(s@),
{
    let mut i: usize = 0;
    while i < v.len()
        invariant
            i <= v@.len(),
            forall|j: int| 0 <= j < i ==> v@[j]@ != s@,
        decreases v@.len() - i,
    {
        if str_eq(v[i].as_str(), s) {
            assert(string_views(v@)[i as int] == s@);
            return true;
        }
        i += 1;
    }
    assert forall|j: int| 0 <= j < string_views(v@).len() implies string_views(v@)[j] != s@ by {
        assert(string_views(v@)[j] == v@[j]@);
    }
    false
}

impl TranslationApi {
    pub closed spec fn routes(&self) -> Seq<(TranslatorType, Seq<Seq<char>>)> {
        routes_view(self.routes@)
    }

    /// The translators of the configuration, in its order.
    pub fn new(config: &Vec<(TranslatorType, TranslatorConfig)>) -> (r: TranslationApi)
        ensures
            r.routes() == config_view(config@),
    {
        let mut routes: Vec<(TranslatorType, Vec<String>)> = Vec::new();
        let mut i: usize = 0;
        while i < config.len()
            invariant
                i <= config@.len(),
                routes_view(routes@) == config_view(config@).take(i as int),
            decreases config@.len() - i,
        {
            let ghost prev = routes_view(routes@);
            let langs = copy_strings(&config[i].1.languages);
            routes.push((config[i].0, langs));
            assert(routes_view(routes@) =~= prev.push(
                (config@[i as int].0, string_views(config@[i as int].1.languages@)),
            ));
            assert(config_view(config@).take(i + 1) =~= config_view(config@).take(i as int).push(
                config_view(config@)[i as int],
            ));
            i += 1;
        }
        assert(config_view(config@).take(i as int) =~= config_view(config@));
        TranslationApi { routes }
    }

    /// The translator of a language: the first configured for it, else the
    /// first configured for none.
    pub fn get_translator_for_lang(&self, lang: &str) -> (r: Option<TranslatorType>)
        ensures
            r == route(self.routes(), lang@),
    {
        let ghost c = self.routes();
        assert(c.skip(0) =~= c);
        let mut i: usize = 0;
        while i < self.routes.len()
            invariant
                i <= self.routes@.len(),
                c == routes_view(self.routes@),
                first_listing(c, lang@) == first_listing(c.skip(i as int), lang@),
            decreases self.routes@.len() - i,
        {
            assert(c.skip(i as int)[0] == c[i as int]);
            assert(c.skip(i as int).drop_first() =~= c.skip(i + 1));
            if contains_str(&self.routes[i].1, lang) {
                return Some(self.routes[i].0);
            }
            i += 1;
        }
        assert(c.skip(i as int).len() == 0);
        let mut j: usize = 0;
        assert(c.skip(0) =~= c);
        while j < self.routes.len()
            invariant
                j <= self.routes@.len(),
                c == routes_view(self.routes@),
                first_listing(c, lang@) is None,
                first_default(c) == first_default(c.skip(j as int)),
            decreases self.routes@.len() - j,
        {
            assert(c.skip(j as int)[0] == c[j as int]);
            assert(c.skip(j as int).drop_first() =~= c.skip(j + 1));
            if self.routes[j].1.len() == 0 {
                return Some(self.routes[j].0);
            }
            j += 1;
        }
        assert(c.skip(j as int).len() == 0);
        None
    }
}

/// The lower-case hexadecimal digit of `n`, below 16.
pub open spec fn hex_digit(n: int) -> char {
    seq!['0', '1', '2', '3', '4', '5', '6', '7', '8', '9', 'a', 'b', 'c', 'd', 'e', 'f'][n]
}

/// A character inside a JSON string as serde_json writes it: the quote and
/// the backslash behind a backslash; backspace, form feed, line feed,
/// carriage return and tab as `\b`, `\f`, `\n`, `\r`, `\t`; the other
/// control characters below U+0020 as `\u00` and two hexadecimal digits;
/// every other character as it is.
pub open spec fn json_escaped_char(c: char) -> Seq<char> {
    if c == '"' {
        seq!['\\', '"']
    } else if c == '\\' {
        seq!['\\', '\\']
    } else if c == '\x08' {
        seq!['\\', 'b']
    } else if c == '\x0C' {
        seq!['\\', 'f']
    } else if c == '\n' {
        seq!['\\', 'n']
    } else if c == '\r' {
        seq!['\\', 'r']
    } else if c == '\t' {
        seq!['\\', 't']
    } else if (c as u32) < 0x20 {
        seq!['\\', 'u', '0', '0', hex_digit((c as int) / 16), hex_digit((c as int) % 16)]
    } else {
        seq![c]
    }
}

/// The characters of `s`, each escaped as inside a JSON string.
pub open spec fn json_escaped(s: Seq<char>) -> Seq<char>
    decreases s.len(),
{
    if s.len() == 0 {
        Seq::empty()
    } else {
        json_escaped(s.drop_last()) + json_escaped_char(s.last())
    }
}

/// A text as a JSON string, as serde_json writes it: escaped, in quotes.
pub open spec fn json_string(s: Seq<char>) -> Seq<char> {
    seq!['"'] + json_escaped(s) + seq!['"']
}

/// serde_json's `to_string` of a string slice: the text quoted and escaped
/// as JSON, by the escape table of its serializer (`ESCAPE` in ser.rs) and
/// its escape writer. Serializing a `str` into memory does not fail in the
/// source, and the error arm is never taken.
#[verifier::external_body]
fn to_json_string(s: &str) -> (r: String)
    ensures
        r@ == json_string(s@),
{
    match serde_json::to_string(s) {
        Ok(v) => v,
        Err(_) => String::new(),
    }
}

/// The language code Azure expects for a tweet's language: "jp" is "ja",
/// "in" is "id"; an undetermined language cannot be translated.
pub open spec fn azure_language(from: Seq<char>) -> Result<Seq<char>, Seq<char>> {
    if from == "jp"@ {
        Ok("ja"@)
    } else if from == "in"@ {
        Ok("id"@)
    } else if from == "und"@ {
        Err("Invalid source language."@)
    } else {
        Ok(from)
    }
}

/// A request to Azure's translator: its URL, query and JSON body.
#[derive(Debug)]
pub struct AzureRequest {
    pub url: String,
    pub query: Vec<(String, String)>,
    pub body: String,
}

/// The request that translates `text` from `from` into English, or the
/// error for a language that cannot be translated.
pub fn azure_request(text: &str, from: &str) -> (r: Result<AzureRequest, String>)
    ensures
        match (r, azure_language(from@)) {
            (Ok(q), Ok(src)) => q.url@ == "https://api.cognitive.microsofttranslator.com/translate"@
                && pair_views(q.query@) == seq![
                ("api-version"@, "3.0"@),
                ("to"@, "en"@),
                ("from"@, src),
            ] && q.body@ == "[{\"Text\":"@ + json_string(text@) + "}]"@,
            (Err(e), Err(m)) => e@ == m,
            _ => false,
        },
{
    let src: &str = if str_eq(from, "jp") {
        "ja"
    } else if str_eq(from, "in") {
        "id"
    } else if str_eq(from, "und") {
        return Err(String::from_str("Invalid source language."));
    } else {
        from
    };
    let mut q: Vec<(String, String)> = Vec::new();
    q.push((String::from_str("api-version"), String::from_str("3.0")));
    q.push((String::from_str("to"), String::from_str("en")));
    q.push((String::from_str("from"), String::from_str(src)));
    let mut body = String::new();
    push_str(&mut body, "[{\"Text\":");
    let t = to_json_string(text);
    push_str(&mut body, t.as_str());
    push_str(&mut body, "}]");
    assert(pair_views(q@) =~= seq![("api-version"@, "3.0"@), ("to"@, "en"@), ("from"@, src@)]);
    Ok(
        AzureRequest {
            url: String::from_str("https://api.cognitive.microsofttranslator.com/translate"),
            query: q,
            body,
        },
    )
}

/// Azure's answer: for each text, its translations; or an error.
#[derive(Debug)]
pub enum AzureReply {
    Translations(Vec<Vec<String>>),
    Error { code: u32, message: String },
}

/// What an answer gives: the first translation of the first text, or the
/// error to report.
pub open spec fn azure_outcome(reply: AzureReply) -> Result<Seq<char>, Seq<char>> {
    match reply {
        AzureReply::Translations(v) => if v@.len() > 0 && v@[0]@.len() > 0 {
            Ok(v@[0]@[0]@)
        } else {
            Err("Did not receive translation."@)
        },
        AzureReply::Error { code, message } => Err(
            "Code: "@ + dec(code as nat) + ", Message: '"@ + message@ + "'."@,
        ),
    }
}

/// Reads Azure's answer.
pub fn read_azure_reply(reply: AzureReply) -> (r: Result<String, String>)
    ensures
        match (r, azure_outcome(reply)) {
            (Ok(a), Ok(b)) => a@ == b,
            (Err(a), Err(b)) => a@ == b,
            _ => false,
        },
{
    match reply {
        AzureReply::Translations(v) => {
            if v.len() > 0 && v[0].len() > 0 {
                Ok(v[0][0].clone())
            } else {
                Err(String::from_str("Did not receive translation."))
            }
        },
        AzureReply::Error { code, message } => {
            let mut s = String::new();
            push_str(&mut s, "Code: ");
            push_dec(&mut s, code as u64);
            push_str(&mut s, ", Message: '");
            push_str(&mut s, message.as_str());
            push_str(&mut s, "'.");
            Err(s)
        },
    }
}

/// The language code DeepL expects for a tweet's language: Japanese and
/// German are the only ones it is used for.
pub open spec fn deepl_language(from: Seq<char>) -> Option<Seq<char>> {
    if from == "ja"@ || from == "jp"@ {
        Some("JA"@)
    } else if from == "de"@ {
        Some("DE"@)
    } else {
        None
    }
}

/// The steps of a translation by DeepL: first the account's usage is asked
/// for, then the text is translated.
#[derive(Debug)]
pub enum DeepLStep {
    /// Send this request, and hand its reply to `on_usage`.
    AskUsage(HttpRequest),
    /// Send this request, and hand its reply to `on_translation`.
    Translate(HttpRequest),
    /// The translation, or why there is none.
    Done(Result<String, String>),
}

/// The first step of a DeepL translation of text in the language `from`: asks
/// for the usage, unless DeepL is not used for that language.
pub fn deepl_start(client: &DeepL, from: &str) -> (r: DeepLStep)
    ensures
        match deepl_language(from@) {
            Some(_) => r matches DeepLStep::AskUsage(q) && q.url@ == crate::deepl::base_url(
                client.key(),
            ) + "/usage"@ && pair_views(q.query@) == seq![("auth_key"@, client.key())],
            None => r matches DeepLStep::Done(Err(e)) && e@ == "Invalid source language."@,
        },
{
    if str_eq(from, "ja") || str_eq(from, "jp") || str_eq(from, "de") {
        DeepLStep::AskUsage(client.usage_information())
    } else {
        DeepLStep::Done(Err(String::from_str("Invalid source language.")))
    }
}

/// After the usage came back: fails with the error's description, or when
/// more characters were used than the limit allows; otherwise translates
/// `text` from `from`.
pub fn deepl_on_usage(
    client: &DeepL,
    text: &str,
    from: &str,
    usage: Result<UsageInformation, Error>,
) -> (r: DeepLStep)
    requires
        deepl_language(from@) is Some,
    ensures
        match usage {
            Err(e) => r matches DeepLStep::Done(Err(m)) && m@ == error_text(e@),
            Ok(u) => if u.character_count > u.character_limit {
                r matches DeepLStep::Done(Err(m)) && m@
                    == "Character usage has reached its limit this month."@
            } else {
                r matches DeepLStep::Translate(q) && q.url@ == crate::deepl::base_url(client.key())
                    + "/translate"@ && pair_views(q.query@) == seq![
                    ("auth_key"@, client.key()),
                    ("target_lang"@, "EN-US"@),
                    ("source_lang"@, deepl_language(from@)->0),
                    ("text"@, text@),
                ]
            },
        },
{
    match usage {
        Err(e) => DeepLStep::Done(Err(e.to_string())),
        Ok(u) => {
            if u.character_count > u.character_limit {
                return DeepLStep::Done(
                    Err(String::from_str("Character usage has reached its limit this month.")),
                );
            }
            let src: &str = if str_eq(from, "de") {
                "DE"
            } else {
                "JA"
            };
            let mut texts: Vec<String> = Vec::new();
            texts.push(String::from_str(text));
            let ghost tv = texts@;
            let list = TranslatableTextList {
                source_language: Some(String::from_str(src)),
                target_language: String::from_str("EN-US"),
                texts,
            };
            proof {
                reveal_strlit("ja");
                reveal_strlit("jp");
                reveal_strlit("de");
                if from@ == "de"@ {
                    assert(src@ == "DE"@);
                    assert("de"@ != "ja"@ && "de"@ != "jp"@) by {
                        assert("de"@[1] != "ja"@[1]);
                        assert("de"@[0] != "jp"@[0]);
                    }
                } else {
                    assert(from@ == "ja"@ || from@ == "jp"@);
                    assert(src@ == "JA"@);
                }
                assert(src@ == deepl_language(from@)->0);
            }
            let q = client.translate(None, list);
            proof {
                assert(crate::deepl::translate_query(None, list) =~= seq![
                    ("target_lang"@, "EN-US"@),
                    ("source_lang"@, deepl_language(from@)->0),
                    ("text"@, text@),
                ]);
                reveal_strlit("ja");
                reveal_strlit("jp");
                reveal_strlit("de");
                assert(crate::deepl::text_pairs(tv) =~= seq![
                    ("text"@, text@),
                ]);
                assert(crate::deepl::option_pairs(None) =~= Seq::<(Seq<char>, Seq<char>)>::empty());
                assert(pair_views(q.query@) =~= seq![
                    ("auth_key"@, client.key()),
                    ("target_lang"@, "EN-US"@),
                    ("source_lang"@, deepl_language(from@)->0),
                    ("text"@, text@),
                ]);
            }
            DeepLStep::Translate(q)
        },
    }
}

/// After the translation came back: its first text, or why there is none.
pub fn deepl_on_translation(result: Result<Vec<TranslatedText>, Error>) -> (r: DeepLStep)
    ensures
        match result {
            Err(e) => r matches DeepLStep::Done(Err(m)) && m@ == error_text(e@),
            Ok(v) => if v@.len() > 0 {
                r matches DeepLStep::Done(Ok(t)) && t@ == v@[0].text@
            } else {
                r matches DeepLStep::Done(Err(m)) && m@ == "Translated text wasn't found."@
            },
        },
{
    match result {
        Err(e) => DeepLStep::Done(Err(e.to_string())),
        Ok(v) => {
            if v.len() > 0 {
                DeepLStep::Done(Ok(v[0].text.clone()))
            } else {
                DeepLStep::Done(Err(String::from_str("Translated text wasn't found.")))
            }
        },
    }
}

/// A change of the translators' configuration.
#[derive(Debug)]
pub enum TranslatorConfigUpdate {
    Added(TranslatorType, TranslatorConfig),
    Removed(TranslatorType),
    Changed(TranslatorType, TranslatorConfig),
}

pub open spec fn full_config_view(c: Seq<(TranslatorType, TranslatorConfig)>) -> Seq<
    (TranslatorType, Seq<char>, Seq<Seq<char>>),
> {
    c.map_values(
        |p: (TranslatorType, TranslatorConfig)| (p.0, p.1.token@, string_views(p.1.languages@)),
    )
}

/// Where the configuration of translator `t` stands.
pub open spec fn type_pos(s: Seq<(TranslatorType, Seq<char>, Seq<Seq<char>>)>, t: TranslatorType) -> Option<int>
    decreases s.len(),
{
    if s.len() == 0 {
        None
    } else if s[0].0 == t {
        Some(0)
    } else {
        match type_pos(s.drop_first(), t) {
            Some(i) => Some(i + 1),
            None => None,
        }
    }
}

proof fn lemma_type_pos(s: Seq<(TranslatorType, Seq<char>, Seq<Seq<char>>)>, t: TranslatorType)
    ensures
        match type_pos(s, t) {
            Some(i) => 0 <= i < s.len() && s[i].0 == t && forall|j: int| 0 <= j < i ==> s[j].0 != t,
            None => forall|j: int| 0 <= j < s.len() ==> s[j].0 != t,
        },
    decreases s.len(),
{
    if s.len() > 0 && s[0].0 != t {
        let u = s.drop_first();
        lemma_type_pos(u, t);
        assert forall|j: int| 0 < j < s.len() implies s[j] == u[j - 1] by {}
    }
}

/// The configuration after an update, and whether the translators are to be
/// set up anew: an added translator replaces the configuration of its type or
/// comes last; a removed one goes; a changed one is replaced when it is
/// configured (and nothing happens otherwise).
pub open spec fn config_after(
    s: Seq<(TranslatorType, Seq<char>, Seq<Seq<char>>)>,
    u: TranslatorConfigUpdate,
) -> (Seq<(TranslatorType, Seq<char>, Seq<Seq<char>>)>, bool) {
    match u {
        TranslatorConfigUpdate::Added(t, c) => {
            let e = (t, c.token@, string_views(c.languages@));
            match type_pos(s, t) {
                Some(i) => (s.update(i, e), true),
                None => (s.push(e), true),
            }
        },
        TranslatorConfigUpdate::Removed(t) => match type_pos(s, t) {
            Some(i) => (s.remove(i), true),
            None => (s, true),
        },
        TranslatorConfigUpdate::Changed(t, c) => match type_pos(s, t) {
            Some(i) => (s.update(i, (t, c.token@, string_views(c.languages@))), true),
            None => (s, false),
        },
    }
}

fn find_type(configs: &Vec<(TranslatorType, TranslatorConfig)>, t: TranslatorType) -> (r: Option<usize>)
    ensures
        match r {
            Some(i) => i < configs@.len() && type_pos(full_config_view(configs@), t) == Some(
                i as int,
            ),
            None => type_pos(full_config_view(configs@), t) is None,
        },
{
    let ghost v = full_config_view(configs@);
    proof {
        lemma_type_pos(v, t);
    }
    let mut i: usize = 0;
    while i < configs.len()
        invariant
            i <= configs@.len(),
            v == full_config_view(configs@),
            forall|j: int| 0 <= j < i ==> v[j].0 != t,
        decreases configs@.len() - i,
    {
        if configs[i].0 == t {
            assert(v[i as int].0 == t);
            proof {
                lemma_type_pos(v, t);
                if type_pos(v, t) != Some(i as int) {
                    let q = type_pos(v, t);
                    if q is Some {
                        let qq = q.unwrap();
                        assert(qq < i || qq > i);
                    }
                }
            }
            return Some(i);
        }
        i += 1;
    }
    proof {
        lemma_type_pos(v, t);
        if type_pos(v, t) is Some {
            let q = type_pos(v, t).unwrap();
            assert(v[q].0 != t);
        }
    }
    None
}

/// Applies a change of the translators' configuration; returns whether the
/// translators are to be set up anew.
pub fn apply_config_update(
    configs: &mut Vec<(TranslatorType, TranslatorConfig)>,
    update: TranslatorConfigUpdate,
) -> (r: bool)
    ensures
        (full_config_view(final(configs)@), r) == config_after(full_config_view(old(configs)@), update),
{
    let ghost s = full_config_view(configs@);
    match update {
        TranslatorConfigUpdate::Added(t, c) => {
            let ghost e = (t, c.token@, string_views(c.languages@));
            match find_type(configs, t) {
                Some(i) => {
                    configs.set(i, (t, c));
                    assert(full_config_view(configs@) =~= s.update(i as int, e));
                },
                None => {
                    configs.push((t, c));
                    assert(full_config_view(configs@) =~= s.push(e));
                },
            }
            true
        },
        TranslatorConfigUpdate::Removed(t) => {
            match find_type(configs, t) {
                Some(i) => {
                    let _ = configs.remove(i);
                    assert(full_config_view(configs@) =~= s.remove(i as int));
                },
                None => {},
            }
            true
        },
        TranslatorConfigUpdate::Changed(t, c) => {
            let ghost e = (t, c.token@, string_views(c.languages@));
            match find_type(configs, t) {
                Some(i) => {
                    configs.set(i, (t, c));
                    assert(full_config_view(configs@) =~= s.update(i as int, e));
                    true
                },
                None => false,
            }
        },
    }
}

/// Removing a translator that was just added, when none of its type was
/// configured, gives back the configuration as it was.
pub proof fn lemma_remove_undoes_add_translator(
    s: Seq<(TranslatorType, Seq<char>, Seq<Seq<char>>)>,
    t: TranslatorType,
    c: TranslatorConfig,
)
    requires
        type_pos(s, t) is None,
    ensures
        config_after(
            config_after(s, TranslatorConfigUpdate::Added(t, c)).0,
            TranslatorConfigUpdate::Removed(t),
        ).0 == s,
{
    let e = (t, c.token@, string_views(c.languages@));
    let u = s.push(e);
    lemma_type_pos(s, t);
    lemma_type_pos(u, t);
    if type_pos(u, t) != Some(s.len() as int) {
        let q = type_pos(u, t).unwrap();
        assert(u[s.len() as int].0 == t);
        assert(q < s.len() ==> u[q] == s[q]);
    }
    assert(u.remove(s.len() as int) =~= s);
}

} // verus!
