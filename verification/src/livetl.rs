//! LiveTL: translations of streams made by its users, the filter of a
//! request for them, and the requests of its client.

use vstd::prelude::*;
use vstd::string::*;
use crate::deepl::{pair_views, HttpRequest};
use crate::text::{dec, dec2, push_dec, push_dec_int, push_str, str_eq, dec_int};
use crate::tweets::{iso_639_3_to_1, opt_string_view, to_639_1};

verus! {

/// The id of a translator.
#[derive(Debug)]
pub struct TranslatorId(pub String);

impl TranslatorId {
    /// The id of the given text.
    pub fn new(id: String) -> (r: TranslatorId)
        ensures
            r.0@ == id@,
    {
        TranslatorId(id)
    }

    /// The id as text.
    pub fn to_string(&self) -> (r: String)
        ensures
            r@ == self.0@,
    {
        self.0.clone()
    }
}

/// Whether a translator is registered or verified.
#[derive(Debug, Clone, Copy, PartialEq, Eq, Structural)]
pub enum TranslatorType {
    Registered,
    Verified,
}

/// A language of translations: its ISO 639-3 code and its names.
#[derive(Debug)]
pub struct Language {
    pub code: String,
    pub name: String,
    pub native_name: String,
}

impl PartialEq for Language {
    fn eq(&self, other: &Self) -> (r: bool) {
        str_eq(self.code.as_str(), other.code.as_str())
    }
}

impl vstd::std_specs::cmp::PartialEqSpecImpl for Language {
    open spec fn obeys_eq_spec() -> bool {
        true
    }

    open spec fn eq_spec(&self, other: &Self) -> bool {
        self.code@ == other.code@
    }
}

/// A translator of LiveTL.
#[derive(Debug)]
pub struct Translator {
    pub id: TranslatorId,
    pub name: String,
    pub picture: Option<String>,
    pub translator_type: TranslatorType,
    pub languages: Vec<Language>,
}

/// A translated line of a stream; `start` and `end` are offsets into the
/// stream, in milliseconds.
#[derive(Debug)]
pub struct Translation {
    pub id: u64,
    pub video_id: String,
    pub translator_id: TranslatorId,
    pub language: Language,
    pub translated_text: String,
    pub start: i64,
    pub end: Option<i64>,
}

impl PartialEq for Translation {
    fn eq(&self, other: &Self) -> (r: bool) {
        self.id == other.id
    }
}

impl vstd::std_specs::cmp::PartialEqSpecImpl for Translation {
    open spec fn obeys_eq_spec() -> bool {
        true
    }

    open spec fn eq_spec(&self, other: &Self) -> bool {
        self.id == other.id
    }
}

pub open spec fn abs(n: int) -> nat {
    if n < 0 {
        (-n) as nat
    } else {
        n as nat
    }
}

/// A number of 0 to 999 in three digits.
pub open spec fn dec3(n: nat) -> Seq<char> {
    if n < 100 {
        seq!['0'] + dec2(n)
    } else {
        dec(n)
    }
}

/// The thousandths `ms` (1 to 999) as decimal digits without trailing zeros.
pub open spec fn fraction_digits(ms: nat) -> Seq<char> {
    if ms % 100 == 0 {
        dec(ms / 100)
    } else if ms % 10 == 0 {
        dec2(ms / 10)
    } else {
        dec3(ms)
    }
}

/// A span of `ms` milliseconds in ISO 8601: a sign for a negative span,
/// "P0D" for none, else "PT", the whole seconds, the fraction if any, "S".
pub open spec fn iso_duration(ms: int) -> Seq<char> {
    let a = abs(ms);
    (if ms < 0 {
        "-"@
    } else {
        ""@
    }) + "P"@ + (if a == 0 {
        "0D"@
    } else {
        "T"@ + dec(a / 1000) + (if a % 1000 == 0 {
            ""@
        } else {
            "."@ + fraction_digits(a % 1000)
        }) + "S"@
    })
}

/// chrono's `TimeDelta::milliseconds` followed by its `Display`. The source
/// writes a negative span as "-" and its absolute value, an empty one as
/// "P0D", any other as "PT", the whole seconds, a point and the fraction's
/// digits without trailing zeros (when there is a fraction), and "S";
/// `milliseconds` panics below `-i64::MAX`.
#[verifier::external_body]
fn duration_text(ms: i64) -> (r: String)
    requires
        ms != i64::MIN,
    ensures
        r@ == iso_duration(ms as int),
{
    chrono::Duration::milliseconds(ms).to_string()
}

/// How a translation is shown: its time span, its translator, its
/// language's name and its text.
pub open spec fn translation_text(t: Translation) -> Seq<char> {
    (match t.end {
        Some(e) => "["@ + iso_duration(t.start as int) + "-"@ + iso_duration(e as int) + "]"@,
        None => "["@ + iso_duration(t.start as int) + "]"@,
    }) + " "@ + t.translator_id.0@ + " ["@ + t.language.name@ + "]: "@ + t.translated_text@
}

impl Translation {
    /// The translation as it is shown.
    pub fn to_string(&self) -> (r: String)
        requires
            self.start != i64::MIN,
            self.end matches Some(e) ==> e != i64::MIN,
        ensures
            r@ == translation_text(*self),
    {
        let mut s = String::new();
        push_str(&mut s, "[");
        let st = duration_text(self.start);
        push_str(&mut s, st.as_str());
        match self.end {
            Some(e) => {
                push_str(&mut s, "-");
                let et = duration_text(e);
                push_str(&mut s, et.as_str());
            },
            None => {},
        }
        push_str(&mut s, "] ");
        push_str(&mut s, self.translator_id.0.as_str());
        push_str(&mut s, " [");
        push_str(&mut s, self.language.name.as_str());
        push_str(&mut s, "]: ");
        push_str(&mut s, self.translated_text.as_str());
        proof {
            reveal_strlit("[");
            reveal_strlit("-");
            reveal_strlit("] ");
            reveal_strlit("]");
            reveal_strlit(" ");
            assert(s@ =~= translation_text(*self));
        }
        s
    }
}

/// Which translations a request asks for: those after `since` milliseconds
/// (-1 for all), by the required translators and not by the excluded ones.
#[derive(Debug)]
pub struct TranslationFilter {
    pub since: i64,
    pub require: Vec<TranslatorId>,
    pub exclude: Vec<TranslatorId>,
}

impl Default for TranslationFilter {
    fn default() -> (r: TranslationFilter)
        ensures
            r.since == -1,
            r.require@.len() == 0,
            r.exclude@.len() == 0,
    {
        TranslationFilter { since: -1, require: Vec::new(), exclude: Vec::new() }
    }
}

/// The ids joined by commas.
pub open spec fn comma_join(ids: Seq<TranslatorId>) -> Seq<char>
    decreases ids.len(),
{
    if ids.len() == 0 {
        ""@
    } else if ids.len() == 1 {
        ids[0].0@
    } else {
        comma_join(ids.drop_last()) + ","@ + ids.last().0@
    }
}

/// The query of a filter: `since` unless it is -1, then the required and
/// the excluded translators, each list only when it is not empty.
pub open spec fn filter_query(f: TranslationFilter) -> Seq<(Seq<char>, Seq<char>)> {
    (if f.since == -1 {
        Seq::empty()
    } else {
        seq![("since"@, dec_int(f.since as int))]
    }) + (if f.require@.len() == 0 {
        Seq::empty()
    } else {
        seq![("require"@, comma_join(f.require@))]
    }) + (if f.exclude@.len() == 0 {
        Seq::empty()
    } else {
        seq![("exclude"@, comma_join(f.exclude@))]
    })
}

/// The ids joined by commas.
fn join_ids(ids: &Vec<TranslatorId>) -> (r: String)
    ensures
        r@ == comma_join(ids@),
{
    let mut s = String::new();
    let mut i: usize = 0;
    proof {
        reveal_strlit("");
        assert(ids@.take(0) =~= Seq::<TranslatorId>::empty());
        assert(s@ =~= ""@);
    }
    while i < ids.len()
        invariant
            i <= ids@.len(),
            s@ == comma_join(ids@.take(i as int)),
        decreases ids@.len() - i,
    {
        let ghost prev = ids@.take(i as int);
        assert(ids@.take(i + 1).drop_last() =~= prev);
        assert(ids@.take(i + 1).last() == ids@[i as int]);
        if i > 0 {
            push_str(&mut s, ",");
            proof {
                reveal_strlit(",");
            }
        } else {
            proof {
                reveal_strlit("");
                assert(s@ =~= Seq::<char>::empty());
            }
        }
        push_str(&mut s, ids[i].0.as_str());
        i += 1;
    }
    assert(ids@.take(i as int) =~= ids@);
    s
}

impl TranslationFilter {
    /// The query pairs of the filter.
    pub fn query(&self) -> (r: Vec<(String, String)>)
        ensures
            pair_views(r@) == filter_query(*self),
    {
        let mut q: Vec<(String, String)> = Vec::new();
        if self.since != -1 {
            let mut v = String::new();
            push_dec_int(&mut v, self.since);
            q.push((String::from_str("since"), v));
        }
        let ghost after_since = pair_views(q@);
        if self.require.len() > 0 {
            q.push((String::from_str("require"), join_ids(&self.require)));
        }
        let ghost after_require = pair_views(q@);
        if self.exclude.len() > 0 {
            q.push((String::from_str("exclude"), join_ids(&self.exclude)));
        }
        assert(pair_views(q@) =~= filter_query(*self));
        q
    }
}

/// LiveTL's API root.
pub open spec fn endpoint() -> Seq<char> {
    "https://api.livetl.app"@
}

/// The client of LiveTL's API.
#[derive(Debug)]
pub struct Client;

impl Client {
    pub fn new() -> (r: Client) {
        Client
    }

    /// The request for a stream's translations into a language (by its ISO
    /// 639-3 code), filtered.
    pub fn translations_for_video(
        &self,
        video_id: &str,
        language_code: &str,
        filter: &TranslationFilter,
    ) -> (r: HttpRequest)
        requires
            iso_639_3_to_1(language_code@) is Some,
        ensures
            r.url@ == endpoint() + "/translations/"@ + video_id@ + "/"@ + iso_639_3_to_1(
                language_code@,
            )->0,
            pair_views(r.query@) == filter_query(*filter),
    {
        let code = to_639_1(language_code);
        let mut url = String::new();
        push_str(&mut url, "https://api.livetl.app/translations/");
        push_str(&mut url, video_id);
        push_str(&mut url, "/");
        match code {
            Some(c) => push_str(&mut url, c.as_str()),
            None => {},
        }
        proof {
            reveal_strlit("https://api.livetl.app/translations/");
            reveal_strlit("https://api.livetl.app");
            reveal_strlit("/translations/");
            assert(url@ =~= endpoint() + "/translations/"@ + video_id@ + "/"@ + iso_639_3_to_1(
                language_code@,
            )->0);
        }
        HttpRequest { url, query: filter.query() }
    }

    /// The request for the stream of a stream's new translations into a
    /// language (by its ISO 639-3 code).
    pub fn translation_stream(&self, video_id: &str, language_code: &str) -> (r: HttpRequest)
        requires
            iso_639_3_to_1(language_code@) is Some,
        ensures
            r.url@ == endpoint() + "/notifications/translations?videoId="@ + video_id@
                + "&languageCode="@ + iso_639_3_to_1(language_code@)->0,
            r.query@.len() == 0,
    {
        let code = to_639_1(language_code);
        let mut url = String::new();
        push_str(&mut url, "https://api.livetl.app/notifications/translations?videoId=");
        push_str(&mut url, video_id);
        push_str(&mut url, "&languageCode=");
        match code {
            Some(c) => push_str(&mut url, c.as_str()),
            None => {},
        }
        proof {
            reveal_strlit("https://api.livetl.app/notifications/translations?videoId=");
            reveal_strlit("https://api.livetl.app");
            reveal_strlit("/notifications/translations?videoId=");
            assert(url@ =~= endpoint() + "/notifications/translations?videoId="@ + video_id@
                + "&languageCode="@ + iso_639_3_to_1(language_code@)->0);
        }
        HttpRequest { url, query: Vec::new() }
    }

    /// The request for a stream's translations into a language, where the
    /// language has an ISO 639-1 code; `None` otherwise.
    pub fn try_translations_for_video(
        &self,
        video_id: &str,
        language_code: &str,
        filter: &TranslationFilter,
    ) -> (r: Option<HttpRequest>)
        ensures
            match r {
                Some(q) => iso_639_3_to_1(language_code@) is Some && q.url@ == endpoint()
                    + "/translations/"@ + video_id@ + "/"@ + iso_639_3_to_1(language_code@)->0
                    && pair_views(q.query@) == filter_query(*filter),
                None => iso_639_3_to_1(language_code@) is None,
            },
    {
        match to_639_1(language_code) {
            Some(_) => Some(self.translations_for_video(video_id, language_code, filter)),
            None => None,
        }
    }

    /// The request for the stream of new translations, where the language
    /// has an ISO 639-1 code; `None` otherwise.
    pub fn try_translation_stream(&self, video_id: &str, language_code: &str) -> (r: Option<
        HttpRequest,
    >)
        ensures
            match r {
                Some(q) => iso_639_3_to_1(language_code@) is Some && q.url@ == endpoint()
                    + "/notifications/translations?videoId="@ + video_id@ + "&languageCode="@
                    + iso_639_3_to_1(language_code@)->0 && q.query@.len() == 0,
                None => iso_639_3_to_1(language_code@) is None,
            },
    {
        match to_639_1(language_code) {
            Some(_) => Some(self.translation_stream(video_id, language_code)),
            None => None,
        }
    }

    /// The request for the registered translators.
    pub fn translators(&self) -> (r: HttpRequest)
        ensures
            r.url@ == endpoint() + "/translators/registered"@,
            r.query@.len() == 0,
    {
        let url = String::from_str("https://api.livetl.app/translators/registered");
        proof {
            reveal_strlit("https://api.livetl.app/translators/registered");
            reveal_strlit("https://api.livetl.app");
            reveal_strlit("/translators/registered");
            assert(url@ =~= endpoint() + "/translators/registered"@);
        }
        HttpRequest { url, query: Vec::new() }
    }

    /// The request for one translator.
    pub fn translator(&self, translator_id: &TranslatorId) -> (r: HttpRequest)
        ensures
            r.url@ == endpoint() + "/translators/"@ + translator_id.0@,
            r.query@.len() == 0,
    {
        let mut url = String::new();
        push_str(&mut url, "https://api.livetl.app/translators/");
        push_str(&mut url, translator_id.0.as_str());
        proof {
            reveal_strlit("https://api.livetl.app/translators/");
            reveal_strlit("https://api.livetl.app");
            reveal_strlit("/translators/");
            assert(url@ =~= endpoint() + "/translators/"@ + translator_id.0@);
        }
        HttpRequest { url, query: Vec::new() }
    }
}

} // verus!
