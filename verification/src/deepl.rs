//! A lightweight client of the DeepL REST API: the requests it sends and how
//! it reads DeepL's replies. The requests are plain values; performing them is
//! left to the caller, who hands the reply back to `read_reply`.

use vstd::prelude::*;
use vstd::string::*;
use crate::text::{dec, dec_string, ends_with, push_str, str_ends_with};

verus! {

/// Information about API usage and limits for this account.
#[derive(Debug)]
pub struct UsageInformation {
    /// How many characters can be translated per billing period.
    pub character_limit: u64,
    /// How many characters were already translated in the current period.
    pub character_count: u64,
}

/// Information about a single language.
#[derive(Debug)]
pub struct LanguageInformation {
    /// DeepL's identifier of the language, such as "EN-US".
    pub language: String,
    /// English name of the language, such as "English (America)".
    pub name: String,
}

/// Whether the translation engine first splits the input into sentences.
#[derive(Debug, Clone, Copy, PartialEq, Eq, Structural)]
pub enum SplitSentences {
    /// Don't split sentences.
    Off,
    /// Split on punctuation only.
    Punctuation,
    /// Split on punctuation and newlines.
    PunctuationAndNewlines,
}

/// The desired formality of the translation.
#[derive(Debug, Clone, Copy, PartialEq, Eq, Structural)]
pub enum Formality {
    Default,
    More,
    Less,
}

/// Optional flags of a translation request.
#[derive(Debug, Clone, Copy, PartialEq, Eq, Structural)]
pub struct TranslationOptions {
    pub split_sentences: Option<SplitSentences>,
    pub preserve_formatting: Option<bool>,
    pub formality: Option<Formality>,
}

/// The texts to translate.
#[derive(Debug)]
pub struct TranslatableTextList {
    /// Source language, if known; DeepL detects it otherwise.
    pub source_language: Option<String>,
    /// Target language.
    pub target_language: String,
    /// The texts to translate.
    pub texts: Vec<String>,
}

/// One translated text.
#[derive(Debug)]
pub struct TranslatedText {
    /// The source language given, or the one DeepL detected.
    pub detected_source_language: String,
    /// The translation.
    pub text: String,
}

/// What went wrong with a request.
#[derive(Debug)]
pub enum Error {
    AuthorizationError,
    ServerError(String),
    DeserializationError,
}

/// A POST request to DeepL: the URL and its query pairs, in order.
#[derive(Debug)]
pub struct HttpRequest {
    pub url: String,
    pub query: Vec<(String, String)>,
}

/// DeepL's answer to a request. `Failed` holds the description of a transport
/// failure; `Status` the HTTP status, the body read as the expected type (none
/// where it did not parse) and the error message that the body holds, if any.
#[derive(Debug)]
pub enum HttpReply<T> {
    Failed(String),
    Status { code: u16, body: Option<T>, server_message: Option<String> },
}

/// An account of the DeepL API, known by its key.
#[derive(Debug)]
pub struct DeepL {
    api_key: String,
}

pub open spec fn pair_views(q: Seq<(String, String)>) -> Seq<(Seq<char>, Seq<char>)> {
    q.map_values(|p: (String, String)| (p.0@, p.1@))
}

/// The API root: free-tier keys end in ":fx".
pub open spec fn base_url(key: Seq<char>) -> Seq<char> {
    if ends_with(key, ":fx"@) {
        "https://api-free.deepl.com/v2"@
    } else {
        "https://api.deepl.com/v2"@
    }
}

pub open spec fn split_value(s: SplitSentences) -> Seq<char> {
    match s {
        SplitSentences::Off => "0"@,
        SplitSentences::PunctuationAndNewlines => "1"@,
        SplitSentences::Punctuation => "nonewlines"@,
    }
}

pub open spec fn bool_value(b: bool) -> Seq<char> {
    if b {
        "1"@
    } else {
        "0"@
    }
}

pub open spec fn formality_value(f: Formality) -> Seq<char> {
    match f {
        Formality::Default => "default"@,
        Formality::More => "more"@,
        Formality::Less => "less"@,
    }
}

/// The query pairs that the options add, in order.
pub open spec fn option_pairs(options: Option<TranslationOptions>) -> Seq<(Seq<char>, Seq<char>)> {
    match options {
        None => Seq::empty(),
        Some(o) => (match o.split_sentences {
            Some(s) => seq![("split_sentences"@, split_value(s))],
            None => Seq::empty(),
        }) + (match o.preserve_formatting {
            Some(b) => seq![("preserve_formatting"@, bool_value(b))],
            None => Seq::empty(),
        }) + (match o.formality {
            Some(f) => seq![("formality"@, formality_value(f))],
            None => Seq::empty(),
        }),
    }
}

pub open spec fn text_pairs(texts: Seq<String>) -> Seq<(Seq<char>, Seq<char>)> {
    texts.map_values(|t: String| ("text"@, t@))
}

/// The query of a translation: the target language, the source language if
/// given, each text, then the options.
pub open spec fn translate_query(
    options: Option<TranslationOptions>,
    list: TranslatableTextList,
) -> Seq<(Seq<char>, Seq<char>)> {
    seq![("target_lang"@, list.target_language@)] + (match list.source_language {
        Some(s) => seq![("source_lang"@, s@)],
        None => Seq::empty(),
    }) + text_pairs(list.texts@) + option_pairs(options)
}

pub enum ErrorView {
    AuthorizationError,
    ServerError(Seq<char>),
    DeserializationError,
}

impl View for Error {
    type V = ErrorView;

    open spec fn view(&self) -> ErrorView {
        match self {
            Error::AuthorizationError => ErrorView::AuthorizationError,
            Error::ServerError(m) => ErrorView::ServerError(m@),
            Error::DeserializationError => ErrorView::DeserializationError,
        }
    }
}

/// How an error is described.
pub open spec fn error_text(e: ErrorView) -> Seq<char> {
    match e {
        ErrorView::AuthorizationError => "Authorization failed, is your API key correct?"@,
        ErrorView::ServerError(m) => "An error occurred while communicating with the DeepL server: '"@
            + m + "'"@,
        ErrorView::DeserializationError => "An error occurred while deserializing the response data."@,
    }
}

impl Error {
    /// The description of the error.
    pub fn to_string(&self) -> (r: String)
        ensures
            r@ == error_text(self@),
    {
        match self {
            Error::AuthorizationError => String::from_str(
                "Authorization failed, is your API key correct?",
            ),
            Error::ServerError(m) => {
                let mut s = String::new();
                push_str(&mut s, "An error occurred while communicating with the DeepL server: '");
                push_str(&mut s, m.as_str());
                push_str(&mut s, "'");
                s
            },
            Error::DeserializationError => String::from_str(
                "An error occurred while deserializing the response data.",
            ),
        }
    }
}

/// What a reply means: a transport failure or any status but 2xx, 401 and 403
/// is a server error, with the message that DeepL sent, else the status; 401
/// and 403 are authorization errors; a 2xx reply gives its body, or a
/// deserialization error when the body did not parse.
pub open spec fn reply_result<T>(reply: HttpReply<T>) -> Result<T, ErrorView> {
    match reply {
        HttpReply::Failed(e) => Err(ErrorView::ServerError(e@)),
        HttpReply::Status { code, body, server_message } => if 200 <= code <= 299 {
            match body {
                Some(b) => Ok(b),
                None => Err(ErrorView::DeserializationError),
            }
        } else if code == 401 || code == 403 {
            Err(ErrorView::AuthorizationError)
        } else {
            match server_message {
                Some(m) => Err(ErrorView::ServerError(m@)),
                None => Err(ErrorView::ServerError(dec(code as nat))),
            }
        },
    }
}

impl DeepL {
    pub closed spec fn key(&self) -> Seq<char> {
        self.api_key@
    }

    /// A client of the account with key `api_key`.
    pub fn new(api_key: String) -> (r: DeepL)
        ensures
            r.key() == api_key@,
    {
        DeepL { api_key }
    }

    /// The request to `path` with the key and then `query`.
    fn http_request(&self, path: &str, query: Vec<(String, String)>) -> (r: HttpRequest)
        ensures
            r.url@ == base_url(self.key()) + path@,
            pair_views(r.query@) == seq![("auth_key"@, self.key())] + pair_views(query@),
    {
        let mut url = String::new();
        if str_ends_with(self.api_key.as_str(), ":fx") {
            push_str(&mut url, "https://api-free.deepl.com/v2");
        } else {
            push_str(&mut url, "https://api.deepl.com/v2");
        }
        push_str(&mut url, path);
        proof {
            reveal_strlit(":fx");
            reveal_strlit("https://api-free.deepl.com/v2");
            reveal_strlit("https://api.deepl.com/v2");
        }
        let mut all: Vec<(String, String)> = Vec::new();
        all.push((String::from_str("auth_key"), self.api_key.clone()));
        let mut i: usize = 0;
        assert(pair_views(all@) =~= seq![("auth_key"@, self.key())] + pair_views(query@).take(0));
        while i < query.len()
            invariant
                i <= query.len(),
                pair_views(all@) == seq![("auth_key"@, self.key())] + pair_views(query@).take(
                    i as int,
                ),
            decreases query.len() - i,
        {
            let ghost prev = pair_views(all@);
            let (k, v) = (query[i].0.clone(), query[i].1.clone());
            all.push((k, v));
            assert(pair_views(all@) =~= prev.push((query@[i as int].0@, query@[i as int].1@)));
            assert(pair_views(query@).take(i + 1) =~= pair_views(query@).take(i as int).push(
                pair_views(query@)[i as int],
            ));
            i += 1;
        }
        assert(pair_views(query@).take(i as int) =~= pair_views(query@));
        HttpRequest { url, query: all }
    }

    /// The request for the account's usage and limits.
    pub fn usage_information(&self) -> (r: HttpRequest)
        ensures
            r.url@ == base_url(self.key()) + "/usage"@,
            pair_views(r.query@) == seq![("auth_key"@, self.key())],
    {
        let r = self.http_request("/usage", Vec::new());
        assert(pair_views(r.query@) =~= seq![("auth_key"@, self.key())]);
        r
    }

    /// The request for the languages of one kind ("source" or "target").
    fn languages(&self, language_type: &str) -> (r: HttpRequest)
        ensures
            r.url@ == base_url(self.key()) + "/languages"@,
            pair_views(r.query@) == seq![("auth_key"@, self.key()), ("type"@, language_type@)],
    {
        let mut q: Vec<(String, String)> = Vec::new();
        q.push((String::from_str("type"), String::from_str(language_type)));
        proof {
            reveal_strlit("type");
        }
        let r = self.http_request("/languages", q);
        assert(pair_views(r.query@) =~= seq![
            ("auth_key"@, self.key()),
            ("type"@, language_type@),
        ]);
        r
    }

    /// The request for the source languages DeepL accepts.
    pub fn source_languages(&self) -> (r: HttpRequest)
        ensures
            r.url@ == base_url(self.key()) + "/languages"@,
            pair_views(r.query@) == seq![("auth_key"@, self.key()), ("type"@, "source"@)],
    {
        self.languages("source")
    }

    /// The request for the languages that can be translated into.
    pub fn target_languages(&self) -> (r: HttpRequest)
        ensures
            r.url@ == base_url(self.key()) + "/languages"@,
            pair_views(r.query@) == seq![("auth_key"@, self.key()), ("type"@, "target"@)],
    {
        self.languages("target")
    }

    /// The request that translates the texts of `text_list` with `options`.
    pub fn translate(&self, options: Option<TranslationOptions>, text_list: TranslatableTextList) -> (r:
        HttpRequest)
        ensures
            r.url@ == base_url(self.key()) + "/translate"@,
            pair_views(r.query@) == seq![("auth_key"@, self.key())] + translate_query(
                options,
                text_list,
            ),
    {
        let ghost list = text_list;
        let mut q: Vec<(String, String)> = Vec::new();
        q.push((String::from_str("target_lang"), text_list.target_language));
        match text_list.source_language {
            Some(s) => q.push((String::from_str("source_lang"), s)),
            None => {},
        }
        proof {
            reveal_strlit("target_lang");
            reveal_strlit("source_lang");
        }
        let ghost head = pair_views(q@);
        assert(head =~= seq![("target_lang"@, list.target_language@)] + (match list.source_language {
            Some(s) => seq![("source_lang"@, s@)],
            None => Seq::empty(),
        }));
        let texts = text_list.texts;
        let mut i: usize = 0;
        assert(pair_views(q@) =~= head + text_pairs(texts@).take(0));
        while i < texts.len()
            invariant
                i <= texts.len(),
                texts@ == list.texts@,
                pair_views(q@) == head + text_pairs(texts@).take(i as int),
            decreases texts.len() - i,
        {
            let ghost prev = pair_views(q@);
            q.push((String::from_str("text"), texts[i].clone()));
            proof {
                reveal_strlit("text");
            }
            assert(pair_views(q@) =~= prev.push(("text"@, texts@[i as int]@)));
            assert(text_pairs(texts@).take(i + 1) =~= text_pairs(texts@).take(i as int).push(
                text_pairs(texts@)[i as int],
            ));
            i += 1;
        }
        assert(text_pairs(texts@).take(i as int) =~= text_pairs(texts@));
        let ghost mid = pair_views(q@);
        match options {
            Some(opt) => {
                match opt.split_sentences {
                    Some(s) => {
                        let v = match s {
                            SplitSentences::Off => "0",
                            SplitSentences::PunctuationAndNewlines => "1",
                            SplitSentences::Punctuation => "nonewlines",
                        };
                        q.push((String::from_str("split_sentences"), String::from_str(v)));
                    },
                    None => {},
                }
                let ghost after_split = pair_views(q@);
                match opt.preserve_formatting {
                    Some(b) => {
                        let v = if b {
                            "1"
                        } else {
                            "0"
                        };
                        q.push((String::from_str("preserve_formatting"), String::from_str(v)));
                    },
                    None => {},
                }
                let ghost after_preserve = pair_views(q@);
                match opt.formality {
                    Some(f) => {
                        let v = match f {
                            Formality::Default => "default",
                            Formality::More => "more",
                            Formality::Less => "less",
                        };
                        q.push((String::from_str("formality"), String::from_str(v)));
                    },
                    None => {},
                }
                proof {
                    reveal_strlit("split_sentences");
                    reveal_strlit("preserve_formatting");
                    reveal_strlit("formality");
                    reveal_strlit("0");
                    reveal_strlit("1");
                    reveal_strlit("nonewlines");
                    reveal_strlit("default");
                    reveal_strlit("more");
                    reveal_strlit("less");
                }
                assert(after_split =~= mid + (match opt.split_sentences {
                    Some(s) => seq![("split_sentences"@, split_value(s))],
                    None => Seq::empty(),
                }));
                assert(after_preserve =~= after_split + (match opt.preserve_formatting {
                    Some(b) => seq![("preserve_formatting"@, bool_value(b))],
                    None => Seq::empty(),
                }));
                assert(pair_views(q@) =~= after_preserve + (match opt.formality {
                    Some(f) => seq![("formality"@, formality_value(f))],
                    None => Seq::empty(),
                }));
                assert(pair_views(q@) =~= mid + option_pairs(options));
            },
            None => {
                assert(pair_views(q@) =~= mid + option_pairs(options));
            },
        }
        assert(pair_views(q@) =~= translate_query(options, list));
        let r = self.http_request("/translate", q);
        assert(pair_views(r.query@) =~= seq![("auth_key"@, self.key())] + translate_query(
            options,
            list,
        ));
        r
    }
}

/// Turns DeepL's answer to a request into its result.
pub fn read_reply<T>(reply: HttpReply<T>) -> (r: Result<T, Error>)
    ensures
        reply_result(reply) == match r {
            Ok(a) => Ok::<T, ErrorView>(a),
            Err(e) => Err::<T, ErrorView>(e@),
        },
{
    match reply {
        HttpReply::Failed(e) => Err(Error::ServerError(e)),
        HttpReply::Status { code, body, server_message } => {
            if 200 <= code && code <= 299 {
                match body {
                    Some(b) => Ok(b),
                    None => Err(Error::DeserializationError),
                }
            } else if code == 401 || code == 403 {
                Err(Error::AuthorizationError)
            } else {
                match server_message {
                    Some(m) => Err(Error::ServerError(m)),
                    None => Err(Error::ServerError(dec_string(code as u64))),
                }
            }
        },
    }
}

} // verus!
