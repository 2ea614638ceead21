//! Memes from imgflip: picking a template from a message, collecting the
//! captions, the request that creates the meme, and reading imgflip's
//! replies.

use vstd::prelude::*;
use vstd::string::*;
use crate::config::MemeCreationConfig;
use crate::deepl::pair_views;
use crate::text::{
    ascii_lower, chars_of, dec, dec_int, parse_u64, parsed_u64, push_char, push_dec, push_dec_int,
    push_str, str_eq, str_trim, to_ascii_lower, trim,
};

verus! {

/// A meme template.
#[derive(Debug)]
pub struct Meme {
    pub id: u64,
    pub name: String,
    pub url: String,
    pub width: u32,
    pub height: u32,
    pub box_count: usize,
}

/// The font of a meme's captions.
#[derive(Debug, Clone, Copy, PartialEq, Eq, Structural)]
pub enum MemeFont {
    Impact,
    Arial,
}

impl Default for MemeFont {
    fn default() -> (r: MemeFont)
        ensures
            r == MemeFont::Impact,
    {
        MemeFont::Impact
    }
}

impl MemeFont {
    /// The name imgflip knows the font by.
    pub fn as_str(&self) -> (r: &'static str)
        ensures
            r@ == match self {
                MemeFont::Impact => "impact"@,
                MemeFont::Arial => "arial"@,
            },
    {
        match self {
            MemeFont::Impact => "impact",
            MemeFont::Arial => "arial",
        }
    }

    /// The name shown as a choice.
    pub fn name(&self) -> (r: &'static str)
        ensures
            r@ == match self {
                MemeFont::Impact => "Impact"@,
                MemeFont::Arial => "Arial"@,
            },
    {
        match self {
            MemeFont::Impact => "Impact",
            MemeFont::Arial => "Arial",
        }
    }

    /// The font whose choice name is `s`.
    pub open spec fn font_named(s: Seq<char>) -> Option<MemeFont> {
        if s == "Impact"@ {
            Some(MemeFont::Impact)
        } else if s == "Arial"@ {
            Some(MemeFont::Arial)
        } else {
            None
        }
    }

    /// The font of a choice's name.
    pub fn from_name(s: &str) -> (r: Option<MemeFont>)
        ensures
            r == MemeFont::font_named(s@),
    {
        if str_eq(s, "Impact") {
            Some(MemeFont::Impact)
        } else if str_eq(s, "Arial") {
            Some(MemeFont::Arial)
        } else {
            None
        }
    }
}

pub open spec fn meme_names(v: Seq<Meme>) -> Seq<Seq<char>> {
    v.map_values(|m: Meme| ascii_lower(m.name@))
}

/// The first template whose name is `name`, ignoring ASCII case.
pub open spec fn meme_named(names: Seq<Seq<char>>, name: Seq<char>) -> Option<int>
    decreases names.len(),
{
    if names.len() == 0 {
        None
    } else if names[0] == name {
        Some(0)
    } else {
        match meme_named(names.drop_first(), name) {
            Some(p) => Some(p + 1),
            None => None,
        }
    }
}

/// The template that a message picks, by its index among `count`: the
/// message's text, trimmed, is a template's number from 1, or its name in
/// any ASCII case.
pub open spec fn picked(memes: Seq<Meme>, text: Seq<char>) -> Option<int> {
    let t = trim(text);
    match parsed_u64(t) {
        Some(n) => if n as int <= usize::MAX && 1 <= n <= memes.len() {
            Some(n - 1)
        } else if n as int <= usize::MAX {
            None
        } else {
            meme_named(meme_names(memes), ascii_lower(t))
        },
        None => meme_named(meme_names(memes), ascii_lower(t)),
    }
}

/// The template that a message picks, if any.
pub fn pick_meme(memes: &Vec<Meme>, text: &str) -> (r: Option<usize>)
    ensures
        match r {
            Some(i) => picked(memes@, text@) == Some(i as int),
            None => picked(memes@, text@) is None,
        },
{
    let t = str_trim(text);
    let n = parse_u64(t.as_str());
    match n {
        Some(num) => {
            if num <= usize::MAX as u64 {
                let k = num as usize;
                if 1 <= k && k <= memes.len() {
                    return Some(k - 1);
                }
                return None;
            }
        },
        None => {},
    }
    let lower = to_ascii_lower(t.as_str());
    let ghost names = meme_names(memes@);
    assert(picked(memes@, text@) == meme_named(names, lower@));
    let mut i: usize = 0;
    assert(names.skip(0) =~= names);
    while i < memes.len()
        invariant
            i <= memes.len(),
            names == meme_names(memes@),
            picked(memes@, text@) == meme_named(names, lower@),
            meme_named(names, lower@) == match meme_named(names.skip(i as int), lower@) {
                Some(p) => Some(p + i),
                None => None,
            },
        decreases memes.len() - i,
    {
        let ghost u = names.skip(i as int);
        assert(u.drop_first() =~= names.skip(i + 1));
        let name = to_ascii_lower(memes[i].name.as_str());
        assert(u[0] == name@);
        if name == lower {
            return Some(i);
        }
        i += 1;
    }
    None
}

/// A message sent while the template list is shown to `user` in `channel`:
/// only that user's messages in that channel pick, and they pick as
/// `picked` says (a number from 1, or a name in any ASCII case; "0" and
/// numbers past the list pick nothing).
pub fn pick_step(
    user: u64,
    channel: u64,
    memes: &Vec<Meme>,
    author: u64,
    msg_channel: u64,
    text: &str,
) -> (r: Option<usize>)
    ensures
        author != user || msg_channel != channel ==> r is None,
        author == user && msg_channel == channel ==> match r {
            Some(i) => picked(memes@, text@) == Some(i as int),
            None => picked(memes@, text@) is None,
        },
{
    if author != user || msg_channel != channel {
        return None;
    }
    pick_meme(memes, text)
}

/// The lines of `s`, as `str::lines` gives them: split at each line feed,
/// one carriage return before it dropped; the text after the last line feed
/// is a line unless it is empty. `cur` is the line begun so far.
pub open spec fn lines_from(s: Seq<char>, cur: Seq<char>) -> Seq<Seq<char>>
    decreases s.len(),
{
    if s.len() == 0 {
        if cur.len() == 0 {
            Seq::empty()
        } else {
            seq![cur]
        }
    } else if s[0] == '\n' {
        let line = if cur.len() > 0 && cur.last() == '\r' {
            cur.drop_last()
        } else {
            cur
        };
        seq![line] + lines_from(s.drop_first(), Seq::empty())
    } else {
        lines_from(s.drop_first(), cur.push(s[0]))
    }
}

pub open spec fn lines(s: Seq<char>) -> Seq<Seq<char>> {
    lines_from(s, Seq::empty())
}

/// The lines that are not blank, in order.
pub open spec fn nonblank(ls: Seq<Seq<char>>) -> Seq<Seq<char>>
    decreases ls.len(),
{
    if ls.len() == 0 {
        Seq::empty()
    } else {
        nonblank(ls.drop_last()) + if trim(ls.last()).len() > 0 {
            seq![ls.last()]
        } else {
            Seq::empty()
        }
    }
}

proof fn lemma_nonblank_prefix(s: Seq<Seq<char>>, i: int)
    requires
        0 <= i <= s.len(),
    ensures
        nonblank(s.take(i)) == nonblank(s).take(nonblank(s.take(i)).len() as int),
        nonblank(s.take(i)).len() <= nonblank(s).len(),
    decreases s.len() - i,
{
    if i == s.len() {
        assert(s.take(i) =~= s);
        assert(nonblank(s).take(nonblank(s).len() as int) =~= nonblank(s));
    } else {
        lemma_nonblank_prefix(s, i + 1);
        assert(s.take(i + 1).drop_last() =~= s.take(i));
        let a = nonblank(s.take(i));
        let b = nonblank(s.take(i + 1));
        assert(b.take(a.len() as int) =~= a);
        assert(nonblank(s).take(a.len() as int) =~= nonblank(s).take(b.len() as int).take(
            a.len() as int,
        ));
    }
}

/// The captions that a message gives: the lines of its trimmed text that
/// are not blank, at most `limit`.
pub open spec fn message_captions(text: Seq<char>, limit: nat) -> Seq<Seq<char>> {
    let ls = nonblank(lines(trim(text)));
    ls.take(if ls.len() < limit {
        ls.len() as int
    } else {
        limit as int
    })
}

pub open spec fn string_views(v: Seq<String>) -> Seq<Seq<char>> {
    v.map_values(|s: String| s@)
}

/// The lines of `s`.
pub fn split_lines(s: &str) -> (r: Vec<String>)
    ensures
        string_views(r@) == lines(s@),
{
    let v = chars_of(s);
    let mut out: Vec<String> = Vec::new();
    let mut cur: Vec<char> = Vec::new();
    let mut i: usize = 0;
    assert(s@.skip(0) =~= s@);
    assert(string_views(out@) + lines_from(s@.skip(0), cur@) =~= lines(s@));
    while i < v.len()
        invariant
            v@ == s@,
            i <= v.len(),
            string_views(out@) + lines_from(s@.skip(i as int), cur@) == lines(s@),
        decreases v.len() - i,
    {
        let ghost t = s@.skip(i as int);
        assert(t.drop_first() =~= s@.skip(i + 1));
        assert(t[0] == v@[i as int]);
        let ghost prev = string_views(out@);
        if v[i] == '\n' {
            let n = cur.len();
            let line = if n > 0 && cur[n - 1] == '\r' {
                let mut l = String::new();
                let mut k: usize = 0;
                while k < n - 1
                    invariant
                        k <= n - 1,
                        n == cur@.len(),
                        l@ == cur@.take(k as int),
                    decreases n - 1 - k,
                {
                    push_char(&mut l, cur[k]);
                    assert(cur@.take(k + 1) =~= cur@.take(k as int).push(cur@[k as int]));
                    k += 1;
                }
                assert(cur@.take(k as int) =~= cur@.drop_last());
                l
            } else {
                let mut l = String::new();
                let mut k: usize = 0;
                while k < n
                    invariant
                        k <= n,
                        n == cur@.len(),
                        l@ == cur@.take(k as int),
                    decreases n - k,
                {
                    push_char(&mut l, cur[k]);
                    assert(cur@.take(k + 1) =~= cur@.take(k as int).push(cur@[k as int]));
                    k += 1;
                }
                assert(cur@.take(k as int) =~= cur@);
                l
            };
            let ghost lv = line@;
            out.push(line);
            cur = Vec::new();
            assert(string_views(out@) =~= prev.push(lv));
            assert(string_views(out@) + lines_from(s@.skip(i + 1), cur@) =~= prev + (seq![lv]
                + lines_from(t.drop_first(), Seq::empty())));
        } else {
            cur.push(v[i]);
        }
        i += 1;
    }
    assert(s@.skip(i as int) =~= Seq::<char>::empty());
    if cur.len() > 0 {
        let mut l = String::new();
        let mut k: usize = 0;
        while k < cur.len()
            invariant
                k <= cur@.len(),
                l@ == cur@.take(k as int),
            decreases cur.len() - k,
        {
            push_char(&mut l, cur[k]);
            assert(cur@.take(k + 1) =~= cur@.take(k as int).push(cur@[k as int]));
            k += 1;
        }
        assert(cur@.take(k as int) =~= cur@);
        let ghost prev = string_views(out@);
        out.push(l);
        assert(string_views(out@) =~= prev.push(cur@));
    } else {
        assert(string_views(out@) =~= string_views(out@) + Seq::<Seq<char>>::empty());
    }
    out
}

/// The largest font size of a meme's captions unless the command names one.
pub const DEFAULT_MAX_FONT_SIZE: i64 = 50;

/// The meme command's options: the font named (Impact when none is) and the
/// largest font size given (50 when none is); `None` for a font name that is
/// no font.
pub fn meme_options(font: Option<&str>, max_font_size: Option<i64>) -> (r: Option<(MemeFont, i64)>)
    ensures
        match font {
            None => r == Some((MemeFont::Impact, match max_font_size {
                Some(m) => m,
                None => DEFAULT_MAX_FONT_SIZE,
            })),
            Some(name) => match MemeFont::font_named(name@) {
                Some(f) => r == Some((f, match max_font_size {
                    Some(m) => m,
                    None => DEFAULT_MAX_FONT_SIZE,
                })),
                None => r is None,
            },
        },
{
    let size = match max_font_size {
        Some(m) => m,
        None => DEFAULT_MAX_FONT_SIZE,
    };
    match font {
        None => Some((MemeFont::Impact, size)),
        Some(name) => match MemeFont::from_name(name) {
            Some(f) => Some((f, size)),
            None => None,
        },
    }
}

/// The captions of a meme, collected from the messages of the user who asked
/// for it.
#[derive(Debug)]
pub struct CaptionCollector {
    pub user: u64,
    pub channel: u64,
    pub box_count: usize,
    pub captions: Vec<String>,
}

/// What a message does to the collected captions.
#[derive(Debug, Clone, Copy, PartialEq, Eq, Structural)]
pub enum CaptionStep {
    /// The message is not the user's, or not in the channel.
    Ignored,
    /// The message's captions were added and it is to be deleted; `done`
    /// when there are now exactly as many captions as boxes.
    Added { done: bool },
}

impl CaptionCollector {
    /// Collecting for `user` in `channel`, for a template with `box_count`
    /// boxes.
    pub fn new(user: u64, channel: u64, box_count: usize) -> (r: CaptionCollector)
        ensures
            r.user == user && r.channel == channel && r.box_count == box_count
                && r.captions@.len() == 0,
    {
        CaptionCollector { user, channel, box_count, captions: Vec::new() }
    }

    /// Takes the captions of a message.
    pub fn on_message(&mut self, author: u64, channel: u64, content: &str) -> (r: CaptionStep)
        requires
            old(self).captions@.len() + old(self).box_count <= usize::MAX,
        ensures
            final(self).user == old(self).user && final(self).channel == old(self).channel
                && final(self).box_count == old(self).box_count,
            if author != old(self).user || channel != old(self).channel {
                r == CaptionStep::Ignored && final(self).captions@ == old(self).captions@
            } else {
                string_views(final(self).captions@) == string_views(old(self).captions@)
                    + message_captions(content@, old(self).box_count as nat) && r
                    == (CaptionStep::Added {
                    done: final(self).captions@.len() == old(self).box_count,
                })
            },
    {
        if author != self.user || channel != self.channel {
            return CaptionStep::Ignored;
        }
        let t = str_trim(content);
        let ls = split_lines(t.as_str());
        let ghost lv = string_views(ls@);
        let ghost before = string_views(self.captions@);
        let mut taken: usize = 0;
        let mut i: usize = 0;
        assert(lv.take(0) =~= Seq::<Seq<char>>::empty());
        while i < ls.len() && taken < self.box_count
            invariant
                i <= ls.len(),
                lv == string_views(ls@),
                lv == lines(trim(content@)),
                taken <= self.box_count,
                self.captions@.len() == old(self).captions@.len() + taken,
                old(self).captions@.len() + old(self).box_count <= usize::MAX,
                self.box_count == old(self).box_count,
                self.user == old(self).user && self.channel == old(self).channel,
                taken == nonblank(lv.take(i as int)).len(),
                string_views(self.captions@) == before + nonblank(lv.take(i as int)),
            decreases ls.len() - i,
        {
            assert(lv.take(i + 1).drop_last() =~= lv.take(i as int));
            assert(lv.take(i + 1).last() == ls@[i as int]@);
            let line = str_trim(ls[i].as_str());
            let ghost prev = string_views(self.captions@);
            if !line.as_str().is_empty() {
                self.captions.push(ls[i].clone());
                taken += 1;
                assert(string_views(self.captions@) =~= prev.push(ls@[i as int]@));
                assert(nonblank(lv.take(i + 1)) =~= nonblank(lv.take(i as int)).push(ls@[i as int]@));
            } else {
                assert(nonblank(lv.take(i + 1)) =~= nonblank(lv.take(i as int)));
            }
            i += 1;
        }
        proof {
            lemma_nonblank_prefix(lv, i as int);
            let all = nonblank(lv);
            if i == ls.len() {
                assert(lv.take(i as int) =~= lv);
            }
            assert(nonblank(lv.take(i as int)) =~= all.take(
                if all.len() < self.box_count {
                    all.len() as int
                } else {
                    self.box_count as int
                },
            ));
        }
        CaptionStep::Added { done: self.captions.len() == self.box_count }
    }

    /// Whether the meme is made when waiting for captions ends: when at least
    /// as many captions as boxes were collected (a message may bring more
    /// than the boxes still open, so there can be more).
    pub fn ready(&self) -> (r: bool)
        ensures
            r == (self.captions@.len() >= self.box_count),
    {
        self.captions.len() >= self.box_count
    }
}


/// The account that creates memes.
#[derive(Debug)]
pub struct MemeApi {
    pub username: String,
    pub password: String,
}

/// A request that captions a template: the endpoint, the query pairs and,
/// for a template with more than two boxes, the captions sent as boxes.
#[derive(Debug)]
pub struct CaptionRequest {
    pub url: String,
    pub query: Vec<(String, String)>,
    pub boxes: Option<Vec<String>>,
}

pub open spec fn font_value(font: MemeFont) -> Seq<char> {
    match font {
        MemeFont::Impact => "impact"@,
        MemeFont::Arial => "arial"@,
    }
}

/// The query of a caption request: the template, the account, the font and
/// its size, the first caption and, for a template of two boxes or more, the
/// second.
pub open spec fn caption_query(
    meme: Meme,
    username: Seq<char>,
    password: Seq<char>,
    captions: Seq<Seq<char>>,
    font: MemeFont,
    max_font_size: int,
) -> Seq<(Seq<char>, Seq<char>)> {
    let base = seq![
        ("template_id"@, dec(meme.id as nat)),
        ("username"@, username),
        ("password"@, password),
        ("max_font_size"@, dec_int(max_font_size)),
        ("font"@, font_value(font)),
        ("text0"@, captions[0]),
    ];
    if meme.box_count > 1 {
        base.push(("text1"@, captions[1]))
    } else {
        base
    }
}

impl MemeApi {
    /// The account of the configuration.
    pub fn new(config: &MemeCreationConfig) -> (r: MemeApi)
        ensures
            r.username@ == config.imgflip_user@,
            r.password@ == config.imgflip_pass@,
    {
        MemeApi { username: config.imgflip_user.clone(), password: config.imgflip_pass.clone() }
    }

    /// The request that captions `meme` with `captions`: one caption for
    /// each of the template's first two boxes in the query, and every
    /// caption as a box when the template has more than two.
    pub fn caption_request(
        &self,
        meme: &Meme,
        captions: &Vec<String>,
        font: MemeFont,
        max_font_size: i64,
    ) -> (r: CaptionRequest)
        requires
            captions@.len() >= 1,
            meme.box_count > 1 ==> captions@.len() >= 2,
        ensures
            r.url@ == "https://api.imgflip.com/caption_image"@,
            pair_views(r.query@) == caption_query(
                *meme,
                self.username@,
                self.password@,
                string_views(captions@),
                font,
                max_font_size as int,
            ),
            match r.boxes {
                Some(b) => meme.box_count > 2 && string_views(b@) == string_views(captions@),
                None => meme.box_count <= 2,
            },
    {
        let mut q: Vec<(String, String)> = Vec::new();
        let mut id = String::new();
        push_dec(&mut id, meme.id);
        let mut size = String::new();
        push_dec_int(&mut size, max_font_size);
        q.push((String::from_str("template_id"), id));
        q.push((String::from_str("username"), self.username.clone()));
        q.push((String::from_str("password"), self.password.clone()));
        q.push((String::from_str("max_font_size"), size));
        q.push((String::from_str("font"), String::from_str(font.as_str())));
        q.push((String::from_str("text0"), captions[0].clone()));
        if meme.box_count > 1 {
            q.push((String::from_str("text1"), captions[1].clone()));
        }
        let boxes = if meme.box_count > 2 {
            let mut b: Vec<String> = Vec::new();
            let mut i: usize = 0;
            while i < captions.len()
                invariant
                    i <= captions@.len(),
                    string_views(b@) == string_views(captions@).take(i as int),
                decreases captions@.len() - i,
            {
                let ghost prev = string_views(b@);
                b.push(captions[i].clone());
                assert(string_views(b@) =~= prev.push(captions@[i as int]@));
                assert(string_views(captions@).take(i + 1) =~= string_views(captions@).take(
                    i as int,
                ).push(captions@[i as int]@));
                i += 1;
            }
            assert(string_views(captions@).take(i as int) =~= string_views(captions@));
            Some(b)
        } else {
            None
        };
        let ghost want = caption_query(
            *meme,
            self.username@,
            self.password@,
            string_views(captions@),
            font,
            max_font_size as int,
        );
        assert(pair_views(q@) =~= want);
        CaptionRequest { url: String::from_str("https://api.imgflip.com/caption_image"), query: q, boxes }
    }
}

/// imgflip's answer: whether it succeeded, its data and its error message.
#[derive(Debug)]
pub struct ImgflipReply<T> {
    pub success: bool,
    pub data: Option<T>,
    pub error_message: Option<String>,
}

/// What a reply gives: its data on success, else imgflip's message.
pub open spec fn reply_outcome<T>(reply: ImgflipReply<T>) -> Result<T, Seq<char>> {
    if reply.success {
        match reply.data {
            Some(d) => Ok(d),
            None => Err("URL not found!"@),
        }
    } else {
        match reply.error_message {
            Some(m) => Err(m@),
            None => Err("Error message not found!"@),
        }
    }
}

/// Reads a reply: its data on success, else the error to report.
pub fn read_reply<T>(reply: ImgflipReply<T>) -> (r: Result<T, String>)
    ensures
        match (r, reply_outcome(reply)) {
            (Ok(a), Ok(b)) => a == b,
            (Err(a), Err(b)) => a@ == b,
            _ => false,
        },
{
    if reply.success {
        match reply.data {
            Some(d) => Ok(d),
            None => Err(String::from_str("URL not found!")),
        }
    } else {
        match reply.error_message {
            Some(m) => Err(m),
            None => Err(String::from_str("Error message not found!")),
        }
    }
}

/// A day, in milliseconds: how long the popular templates are kept.
pub const CACHE_EXPIRATION_MS: i64 = 86_400_000;

/// The popular templates, and when they were last cleared.
#[derive(Debug)]
pub struct MemeCache {
    pub memes: Vec<Meme>,
    pub last_update: i64,
}

/// How the cache is prepared at time `now`.
#[derive(Debug, Clone, Copy, PartialEq, Eq, Structural)]
pub enum CacheState {
    /// The clock stands before the last update.
    ClockError,
    /// The templates are to be fetched and stored.
    Fetch,
    /// The cached templates are to be served.
    Serve,
}

impl MemeCache {
    /// An empty cache, updated at `now`.
    pub fn new(now: i64) -> (r: MemeCache)
        ensures
            r.memes@.len() == 0,
            r.last_update == now,
    {
        MemeCache { memes: Vec::new(), last_update: now }
    }

    /// Before serving at `now`: a cache a day old or older is cleared and
    /// dated `now`; an empty cache is to be fetched.
    pub fn prepare(&mut self, now: i64) -> (r: CacheState)
        ensures
            now < old(self).last_update ==> r == CacheState::ClockError && *final(self) == *old(
                self,
            ),
            now >= old(self).last_update && now - old(self).last_update >= CACHE_EXPIRATION_MS
                ==> final(self).memes@.len() == 0 && final(self).last_update == now && r
                == CacheState::Fetch,
            now >= old(self).last_update && now - old(self).last_update < CACHE_EXPIRATION_MS
                ==> *final(self) == *old(self) && r == (if old(self).memes@.len() == 0 {
                CacheState::Fetch
            } else {
                CacheState::Serve
            }),
    {
        if now < self.last_update {
            return CacheState::ClockError;
        }
        let elapsed: i128 = (now as i128) - (self.last_update as i128);
        if elapsed >= CACHE_EXPIRATION_MS as i128 {
            self.last_update = now;
            self.memes.clear();
        }
        if self.memes.len() == 0 {
            CacheState::Fetch
        } else {
            CacheState::Serve
        }
    }

    /// Stores fetched templates after those held.
    pub fn store(&mut self, memes: Vec<Meme>)
        ensures
            final(self).memes@ == old(self).memes@ + memes@,
            final(self).last_update == old(self).last_update,
    {
        let mut memes = memes;
        self.memes.append(&mut memes);
    }
}

/// How a template is listed for picking.
pub open spec fn template_line(name: Seq<char>) -> Seq<char> {
    name + "\r\n"@
}

/// How a template is asked to be captioned.
pub open spec fn caption_prompt(box_count: nat) -> Seq<char> {
    "Meme has "@ + dec(box_count) + " text boxes. Please type each caption on a separate line."@
}

impl Meme {
    /// The line that lists the template.
    pub fn list_line(&self) -> (r: String)
        ensures
            r@ == template_line(self.name@),
    {
        let mut s = String::new();
        push_str(&mut s, self.name.as_str());
        push_str(&mut s, "\r\n");
        s
    }

    /// The request for the captions of the template.
    pub fn caption_prompt(&self) -> (r: String)
        ensures
            r@ == caption_prompt(self.box_count as nat),
    {
        let mut s = String::new();
        push_str(&mut s, "Meme has ");
        push_dec(&mut s, self.box_count as u64);
        push_str(&mut s, " text boxes. Please type each caption on a separate line.");
        s
    }
}

} // verus!
