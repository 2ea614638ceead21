//! MChad rooms: video ids, room records, the events a room listener sees, and
//! the reconciliation of the tracked rooms with the room list that the MChad
//! server reports.

use vstd::prelude::*;
use crate::text::str_eq;


verus! {

// ---------------------------------------------------------------------------
// Video ids
// ---------------------------------------------------------------------------

/// A character that may stand in the first ten places of a YouTube video id.
pub open spec fn id_char(c: char) -> bool {
    ('0' <= c && c <= '9') || ('A' <= c && c <= 'Z') || ('a' <= c && c <= 'z') || c == '_'
        || c == '-'
}

/// A character that may stand in the last place of a YouTube video id.
pub open spec fn id_last_char(c: char) -> bool {
    c == '0' || c == '4' || c == '8' || c == 'A' || c == 'E' || c == 'I' || c == 'M' || c == 'Q'
        || c == 'U' || c == 'Y' || c == 'c' || c == 'g' || c == 'k' || c == 'o' || c == 's'
        || c == 'w'
}

/// `s` holds a video id (eleven characters) starting at position `i`.
pub open spec fn video_id_at(s: Seq<char>, i: int) -> bool {
    &&& 0 <= i
    &&& i + 11 <= s.len()
    &&& forall|k: int| 0 <= k < 10 ==> #[trigger] id_char(s[i + k])
    &&& id_last_char(s[i + 10])
}

/// The first position at or after `from` where a video id starts, if any.
pub open spec fn first_video_id_from(s: Seq<char>, from: int) -> Option<int>
    decreases s.len() - from,
{
    if from < 0 || from + 11 > s.len() {
        None
    } else if video_id_at(s, from) {
        Some(from)
    } else {
        first_video_id_from(s, from + 1)
    }
}

/// The leftmost video id in `s`, if any.
pub open spec fn first_video_id(s: Seq<char>) -> Option<Seq<char>> {
    match first_video_id_from(s, 0) {
        Some(i) => Some(s.subrange(i, i + 11)),
        None => None,
    }
}

/// The pattern of a YouTube video id.
pub const VIDEO_ID_PATTERN: &'static str = r"[0-9A-Za-z_-]{10}[048AEIMQUYcgkosw]";

/// `regex::Regex::new` on `pattern` followed by `Regex::find`: the leftmost
/// match, as the crate documents it. For the video id pattern, whose matches
/// all have eleven characters, the leftmost match is the eleven characters at
/// the first position where they fit the two classes.
#[verifier::external_body]
fn find_match(pattern: &str, s: &str) -> (r: Option<String>)
    requires
        pattern == VIDEO_ID_PATTERN,
    ensures
        match r {
            Some(m) => first_video_id(s@) == Some(m@),
            None => first_video_id(s@) is None,
        },
{
    let re = regex::Regex::new(pattern).expect("valid pattern");
    re.find(s).map(|m| m.as_str().to_string())
}

/// The pattern of a YouTube watch link, whose first group is what follows
/// the link's prefix.
pub const YOUTUBE_LINK_PATTERN: &'static str =
    r"(?:https?://)?(?:www\.)?youtu(?:(?:\.be/)|(?:be.com/watch\?v=))(.{11,})";

/// Where the text after a link prefix starts, when `s` holds at position `i`
/// "youtu" followed by ".be/", or by "be", any one character but a line
/// break, and "com/watch?v=".
pub open spec fn link_rest_start(s: Seq<char>, i: int) -> Option<int> {
    if 0 <= i && i + 9 <= s.len() && s.subrange(i, i + 9) == "youtu.be/"@ {
        Some(i + 9)
    } else if 0 <= i && i + 20 <= s.len() && s.subrange(i, i + 7) == "youtube"@ && s[i + 7]
        != '\n' && s.subrange(i + 8, i + 20) == "com/watch?v="@ {
        Some(i + 20)
    } else {
        None
    }
}

/// The end of the line of `s` that goes on at `j`: the first line break at or
/// after `j`, or the end of `s`.
pub open spec fn line_end(s: Seq<char>, j: int) -> int
    decreases s.len() - j,
{
    if j < 0 || j >= s.len() || s[j] == '\n' {
        j
    } else {
        line_end(s, j + 1)
    }
}

/// The text that a link prefix at `i` introduces: the rest of its line,
/// when that holds at least eleven characters.
pub open spec fn linked_id_at(s: Seq<char>, i: int) -> Option<Seq<char>> {
    match link_rest_start(s, i) {
        Some(j) => if line_end(s, j) - j >= 11 {
            Some(s.subrange(j, line_end(s, j)))
        } else {
            None
        },
        None => None,
    }
}

/// The text introduced by the first link prefix at or after `i` that
/// introduces one.
pub open spec fn linked_id_from(s: Seq<char>, i: int) -> Option<Seq<char>>
    decreases s.len() - i,
{
    if i < 0 || i >= s.len() {
        None
    } else {
        match linked_id_at(s, i) {
            Some(id) => Some(id),
            None => linked_id_from(s, i + 1),
        }
    }
}

/// What a YouTube link in `s` names, taken as the link pattern's first group.
pub open spec fn linked_video_id(s: Seq<char>) -> Option<Seq<char>> {
    linked_id_from(s, 0)
}

/// What the first group of the leftmost match of `pattern` in `s` captures;
/// `None` when `pattern` does not match or the group takes no part.
pub uninterp spec fn first_group_capture(pattern: Seq<char>, s: Seq<char>) -> Option<Seq<char>>;

pub open spec fn opt_text(o: Option<String>) -> Option<Seq<char>> {
    match o {
        Some(t) => Some(t@),
        None => None,
    }
}

/// `regex::Regex::new` on `pattern`, then `Regex::captures` and the first
/// group of the leftmost match. For the link pattern more is known: its
/// optional prefixes hold no 'y', so the leftmost match is the one at the
/// first "youtu" that is followed by one of the two link forms and by at
/// least eleven characters before a line break; `.` matches any character
/// but a line break, and the group, being greedy, runs to the end of that
/// line.
#[verifier::external_body]
pub(crate) fn first_group(pattern: &str, s: &str) -> (r: Option<String>)
    requires
        pattern == YOUTUBE_LINK_PATTERN || pattern == crate::discord::TWEET_LINK_PATTERN,
    ensures
        opt_text(r) == first_group_capture(pattern@, s@),
        pattern == YOUTUBE_LINK_PATTERN ==> opt_text(r) == linked_video_id(s@),
{
    let re = regex::Regex::new(pattern).expect("valid pattern");
    re.captures(s).and_then(|c| c.get(1)).map(|m| m.as_str().to_string())
}

/// Errors of the MChad client.
#[derive(Debug)]
pub enum Error {
    /// The text did not hold a video id.
    InvalidVideoId(String),
}

/// The id of a YouTube video.
#[derive(Debug)]
pub struct VideoId(pub String);

impl View for VideoId {
    type V = Seq<char>;

    open spec fn view(&self) -> Seq<char> {
        self.0@
    }
}

impl VideoId {
    /// The id of `s`, taken as it is.
    pub fn new(s: String) -> (r: VideoId)
        ensures
            r@ == s@,
    {
        VideoId(s)
    }

    /// The id's text.
    pub fn as_str(&self) -> (r: &str)
        ensures
            r@ == self@,
    {
        self.0.as_str()
    }

    /// A copy of the id.
    pub fn copy(&self) -> (r: VideoId)
        ensures
            r@ == self@,
    {
        VideoId(self.0.clone())
    }

    /// Whether two ids are the same.
    pub fn same(&self, other: &VideoId) -> (r: bool)
        ensures
            r == (self@ == other@),
    {
        self.0 == other.0
    }

    /// The leftmost video id found in `s`; an error when `s` holds none.
    pub fn from_str(s: &str) -> (r: Result<VideoId, Error>)
        ensures
            match r {
                Ok(id) => first_video_id(s@) == Some(id@),
                Err(Error::InvalidVideoId(t)) => first_video_id(s@) is None && t@ == s@,
            },
    {
        match find_match(VIDEO_ID_PATTERN, s) {
            Some(m) => Ok(VideoId(m)),
            None => Err(Error::InvalidVideoId(s.to_owned())),
        }
    }
}

// ---------------------------------------------------------------------------
// Rooms and events
// ---------------------------------------------------------------------------

/// A room on the MChad server.
#[derive(Debug)]
pub struct Room {
    pub name: String,
    pub needs_password: bool,
    pub allows_external_sharing: bool,
    pub is_empty: bool,
    pub stream: Option<VideoId>,
    pub tags: Vec<String>,
}

/// The mathematical value of a room.
pub struct RoomView {
    pub name: Seq<char>,
    pub needs_password: bool,
    pub allows_external_sharing: bool,
    pub is_empty: bool,
    pub stream: Option<Seq<char>>,
    pub tags: Seq<Seq<char>>,
}

pub open spec fn opt_id_view(o: Option<VideoId>) -> Option<Seq<char>> {
    match o {
        Some(id) => Some(id@),
        None => None,
    }
}

impl View for Room {
    type V = RoomView;

    open spec fn view(&self) -> RoomView {
        RoomView {
            name: self.name@,
            needs_password: self.needs_password,
            allows_external_sharing: self.allows_external_sharing,
            is_empty: self.is_empty,
            stream: opt_id_view(self.stream),
            tags: self.tags@.map_values(|t: String| t@),
        }
    }
}

fn copy_opt_id(o: &Option<VideoId>) -> (r: Option<VideoId>)
    ensures
        opt_id_view(r) == opt_id_view(*o),
{
    match o {
        Some(id) => Some(id.copy()),
        None => None,
    }
}

fn same_opt_id(a: &Option<VideoId>, b: &Option<VideoId>) -> (r: bool)
    ensures
        r == (opt_id_view(*a) == opt_id_view(*b)),
{
    match (a, b) {
        (Some(x), Some(y)) => x.same(y),
        (None, None) => true,
        _ => false,
    }
}

fn copy_strings(v: &Vec<String>) -> (r: Vec<String>)
    ensures
        r@.map_values(|t: String| t@) == v@.map_values(|t: String| t@),
{
    let mut r: Vec<String> = Vec::new();
    let mut i: usize = 0;
    while i < v.len()
        invariant
            i <= v.len(),
            r@.len() == i,
            forall|j: int| 0 <= j < i ==> #[trigger] r@[j]@ == v@[j]@,
        decreases v.len() - i,
    {
        r.push(v[i].clone());
        i += 1;
    }
    assert(r@.map_values(|t: String| t@) =~= v@.map_values(|t: String| t@));
    r
}

fn same_strings(a: &Vec<String>, b: &Vec<String>) -> (r: bool)
    ensures
        r == (a@.map_values(|t: String| t@) == b@.map_values(|t: String| t@)),
{
    let ghost av = a@.map_values(|t: String| t@);
    let ghost bv = b@.map_values(|t: String| t@);
    if a.len() != b.len() {
        assert(av.len() != bv.len());
        return false;
    }
    let mut i: usize = 0;
    while i < a.len()
        invariant
            a.len() == b.len(),
            av == a@.map_values(|t: String| t@),
            bv == b@.map_values(|t: String| t@),
            i <= a.len(),
            forall|j: int| 0 <= j < i ==> av[j] == bv[j],
        decreases a.len() - i,
    {
        if a[i] != b[i] {
            assert(av[i as int] != bv[i as int]);
            return false;
        }
        i += 1;
    }
    assert(av =~= bv);
    true
}

impl Room {
    /// A copy of the room.
    pub fn copy(&self) -> (r: Room)
        ensures
            r@ == self@,
    {
        Room {
            name: self.name.clone(),
            needs_password: self.needs_password,
            allows_external_sharing: self.allows_external_sharing,
            is_empty: self.is_empty,
            stream: copy_opt_id(&self.stream),
            tags: copy_strings(&self.tags),
        }
    }

    /// Whether two rooms agree in every field.
    pub fn same(&self, other: &Room) -> (r: bool)
        ensures
            r == (self@ == other@),
    {
        self.name == other.name && self.needs_password == other.needs_password
            && self.allows_external_sharing == other.allows_external_sharing && self.is_empty
            == other.is_empty && same_opt_id(&self.stream, &other.stream) && same_strings(
            &self.tags,
            &other.tags,
        )
    }

    /// Whether a listener on this room may pass its events on: only rooms that
    /// allow external sharing and need no password are relayed.
    pub fn relays_events(&self) -> (r: bool)
        ensures
            r == (self.allows_external_sharing && !self.needs_password),
    {
        self.allows_external_sharing && !self.needs_password
    }

    /// The room with its stream link reduced to what follows the prefix of a
    /// YouTube link in it; a stream that holds no such link is kept as it is.
    pub fn with_parsed_stream(self) -> (r: Room)
        ensures
            r@ == normalized(self@),
    {
        let Room { name, needs_password, allows_external_sharing, is_empty, stream, tags } = self;
        let stream = match stream {
            Some(link) => match first_group(YOUTUBE_LINK_PATTERN, link.as_str()) {
                Some(id) => Some(VideoId(id)),
                None => Some(link),
            },
            None => None,
        };
        Room { name, needs_password, allows_external_sharing, is_empty, stream, tags }
    }
}

/// A room whose stream link is reduced to what follows a YouTube link prefix.
pub open spec fn normalized(r: RoomView) -> RoomView {
    RoomView {
        stream: match r.stream {
            Some(link) => match linked_video_id(link) {
                Some(id) => Some(id),
                None => Some(link),
            },
            None => None,
        },
        ..r
    }
}

/// A change of the stream that a room follows.
#[derive(Debug)]
pub enum RoomUpdate {
    Added(VideoId),
    Removed(VideoId),
    Changed(VideoId, VideoId),
}

pub enum RoomUpdateView {
    Added(Seq<char>),
    Removed(Seq<char>),
    Changed(Seq<char>, Seq<char>),
}

impl View for RoomUpdate {
    type V = RoomUpdateView;

    open spec fn view(&self) -> RoomUpdateView {
        match self {
            RoomUpdate::Added(a) => RoomUpdateView::Added(a@),
            RoomUpdate::Removed(a) => RoomUpdateView::Removed(a@),
            RoomUpdate::Changed(a, b) => RoomUpdateView::Changed(a@, b@),
        }
    }
}

/// An event of a room's translation feed.
#[derive(Debug)]
pub enum EventData<T> {
    Connect(String),
    Insert(T),
    Delete(String),
    Update(T),
}

/// One translated line of a room.
#[derive(Debug)]
pub struct RoomEvent {
    pub id: String,
    pub text: String,
    pub time: u64,
}

/// A change of a room's access settings.
#[derive(Debug)]
pub enum RoomConfigUpdate {
    Locked,
    Unlocked,
    BlockedExternalSharing,
    UnblockedExternalSharing,
}

/// Data that the MChad event source sends either as an object or as `{}`.
#[derive(Debug)]
pub enum DataOrEmptyObject<T> {
    Data(T),
    Empty {},
}

impl<T> DataOrEmptyObject<T> {
    pub open spec fn to_option(self) -> Option<T> {
        match self {
            DataOrEmptyObject::Data(v) => Option::Some(v),
            DataOrEmptyObject::Empty {} => Option::None,
        }
    }

    /// The value that stands for `opt`: its data, or the empty object.
    pub fn from_option(opt: Option<T>) -> (r: Self)
        ensures
            r.to_option() == opt,
    {
        match opt {
            Option::Some(v) => DataOrEmptyObject::Data(v),
            Option::None => DataOrEmptyObject::Empty {},
        }
    }

    /// The data, or `None` for an empty object.
    pub fn into_option(self) -> (r: Option<T>)
        ensures
            r == self.to_option(),
    {
        match self {
            DataOrEmptyObject::Data(v) => Option::Some(v),
            DataOrEmptyObject::Empty {} => Option::None,
        }
    }

    /// A reference to the data, or `None` for an empty object.
    pub fn as_option(&self) -> (r: Option<&T>)
        ensures
            r matches Option::Some(v) ==> self.to_option() == Option::Some(*v),
            r is None <==> self.to_option() is None,
    {
        match self {
            DataOrEmptyObject::Data(v) => Option::Some(v),
            DataOrEmptyObject::Empty {} => Option::None,
        }
    }
}

// ---------------------------------------------------------------------------
// Reconciling the tracked rooms with the server's room list
// ---------------------------------------------------------------------------

/// The values of a list of rooms.
pub open spec fn views(v: Seq<Room>) -> Seq<RoomView> {
    v.map_values(|r: Room| r@)
}

/// Whether some room in `rs` has the name `name`.
pub open spec fn has_name(rs: Seq<RoomView>, name: Seq<char>) -> bool {
    exists|i: int| 0 <= i < rs.len() && rs[i].name == name
}

/// The last position in `rs` of a room named `name`.
pub open spec fn index_of(rs: Seq<RoomView>, name: Seq<char>) -> Option<int>
    decreases rs.len(),
{
    if rs.len() == 0 {
        None
    } else if rs.last().name == name {
        Some(rs.len() - 1)
    } else {
        index_of(rs.drop_last(), name)
    }
}

/// A position that [`index_of`] gives lies in `rs` and holds a room of that name.
pub proof fn lemma_index_of(rs: Seq<RoomView>, name: Seq<char>)
    ensures
        match index_of(rs, name) {
            Some(i) => 0 <= i < rs.len() && rs[i].name == name && forall|k: int|
                i < k < rs.len() ==> rs[k].name != name,
            None => forall|k: int| 0 <= k < rs.len() ==> rs[k].name != name,
        },
    decreases rs.len(),
{
    if rs.len() > 0 {
        let p = rs.drop_last();
        lemma_index_of(p, name);
        assert forall|k: int| 0 <= k < p.len() implies p[k] == rs[k] by {}
    }
}

/// The last room in `rs` named `name`: the one the server reports for it.
pub open spec fn latest(rs: Seq<RoomView>, name: Seq<char>) -> Option<RoomView> {
    match index_of(rs, name) {
        Some(i) => Some(rs[i]),
        None => None,
    }
}

/// The reported rooms, one per name, in the order in which each name first
/// appears, each holding the last room reported under its name.
pub open spec fn dedup(rs: Seq<RoomView>) -> Seq<RoomView>
    decreases rs.len(),
{
    if rs.len() == 0 {
        Seq::empty()
    } else {
        let d = dedup(rs.drop_last());
        match index_of(d, rs.last().name) {
            Some(j) => d.update(j, rs.last()),
            None => d.push(rs.last()),
        }
    }
}

/// No two rooms of `rs` share a name.
pub open spec fn distinct_names(rs: Seq<RoomView>) -> bool {
    forall|i: int, j: int| 0 <= i < rs.len() && 0 <= j < rs.len() && i != j ==> rs[i].name != rs[j].name
}

/// What becomes of a tracked room `r` that the server still reports as `n`: it
/// is kept when nothing changed or when its stream stayed the same, and
/// replaced by `n` otherwise.
pub open spec fn kept_room(r: RoomView, n: RoomView) -> RoomView {
    if r == n || r.stream == n.stream {
        r
    } else {
        n
    }
}

/// The stream update that replacing `r` by `n` announces.
pub open spec fn change_events(r: RoomView, n: RoomView) -> Seq<RoomUpdateView> {
    if r == n || r.stream == n.stream {
        Seq::empty()
    } else {
        match (r.stream, n.stream) {
            (None, Some(s)) => seq![RoomUpdateView::Added(s)],
            (Some(s), None) => seq![RoomUpdateView::Removed(s)],
            (Some(a), Some(b)) => seq![RoomUpdateView::Changed(a, b)],
            (None, None) => Seq::empty(),
        }
    }
}

/// The tracked rooms that the server still reports, each as [`kept_room`] has it.
pub open spec fn kept(old: Seq<RoomView>, d: Seq<RoomView>) -> Seq<RoomView>
    decreases old.len(),
{
    if old.len() == 0 {
        Seq::empty()
    } else {
        kept(old.drop_last(), d) + match index_of(d, old.last().name) {
            Some(j) => seq![kept_room(old.last(), d[j])],
            None => Seq::empty(),
        }
    }
}

/// The stream updates for the tracked rooms: changes of the rooms that stay,
/// removals of the streams of the rooms that went away.
pub open spec fn old_events(old: Seq<RoomView>, d: Seq<RoomView>) -> Seq<RoomUpdateView>
    decreases old.len(),
{
    if old.len() == 0 {
        Seq::empty()
    } else {
        old_events(old.drop_last(), d) + match index_of(d, old.last().name) {
            Some(j) => change_events(old.last(), d[j]),
            None => match old.last().stream {
                Some(s) => seq![RoomUpdateView::Removed(s)],
                None => Seq::empty(),
            },
        }
    }
}

/// The reported rooms whose names are not tracked yet.
pub open spec fn fresh(old: Seq<RoomView>, d: Seq<RoomView>) -> Seq<RoomView>
    decreases d.len(),
{
    if d.len() == 0 {
        Seq::empty()
    } else {
        fresh(old, d.drop_last()) + if index_of(old, d.last().name) is None {
            seq![d.last()]
        } else {
            Seq::empty()
        }
    }
}

/// The announcements of the streams of newly tracked rooms.
pub open spec fn added_events(a: Seq<RoomView>) -> Seq<RoomUpdateView>
    decreases a.len(),
{
    if a.len() == 0 {
        Seq::empty()
    } else {
        added_events(a.drop_last()) + match a.last().stream {
            Some(s) => seq![RoomUpdateView::Added(s)],
            None => Seq::empty(),
        }
    }
}

/// A listener that follows a room, and whether its receiving end is gone.
pub struct ListenerState {
    pub room: String,
    pub closed: bool,
}

pub struct ListenerStateView {
    pub room: Seq<char>,
    pub closed: bool,
}

impl View for ListenerState {
    type V = ListenerStateView;

    open spec fn view(&self) -> ListenerStateView {
        ListenerStateView { room: self.room@, closed: self.closed }
    }
}

pub open spec fn listener_views(v: Seq<ListenerState>) -> Seq<ListenerStateView> {
    v.map_values(|l: ListenerState| l@)
}

/// Whether the listener registered for `name` is closed (its last registration
/// counts); `None` when no listener follows the room.
pub open spec fn listener_closed(ls: Seq<ListenerStateView>, name: Seq<char>) -> Option<bool>
    decreases ls.len(),
{
    if ls.len() == 0 {
        None
    } else if ls.last().room == name {
        Some(ls.last().closed)
    } else {
        listener_closed(ls.drop_last(), name)
    }
}

/// The new value sent to the listener of the tracked room `r`: the reported
/// room, when it differs from `r` and the room's listener is open.
pub open spec fn notice_of(r: RoomView, d: Seq<RoomView>, ls: Seq<ListenerStateView>) -> Seq<
    RoomView,
> {
    match index_of(d, r.name) {
        Some(j) => if r != d[j] && listener_closed(ls, r.name) == Some(false) {
            seq![d[j]]
        } else {
            Seq::empty()
        },
        None => Seq::empty(),
    }
}

/// The new values sent to the open listeners of rooms that changed.
pub open spec fn notices(old: Seq<RoomView>, d: Seq<RoomView>, ls: Seq<ListenerStateView>) -> Seq<
    RoomView,
>
    decreases old.len(),
{
    if old.len() == 0 {
        Seq::empty()
    } else {
        notices(old.drop_last(), d, ls) + notice_of(old.last(), d, ls)
    }
}

/// The name of the tracked room `r` when it changed and its listener is closed.
pub open spec fn drop_of(r: RoomView, d: Seq<RoomView>, ls: Seq<ListenerStateView>) -> Seq<
    Seq<char>,
> {
    match index_of(d, r.name) {
        Some(j) => if r != d[j] && listener_closed(ls, r.name) == Some(true) {
            seq![r.name]
        } else {
            Seq::empty()
        },
        None => Seq::empty(),
    }
}

/// The names of changed rooms whose listeners are closed and are to be dropped.
pub open spec fn drops(old: Seq<RoomView>, d: Seq<RoomView>, ls: Seq<ListenerStateView>) -> Seq<
    Seq<char>,
>
    decreases old.len(),
{
    if old.len() == 0 {
        Seq::empty()
    } else {
        drops(old.drop_last(), d, ls) + drop_of(old.last(), d, ls)
    }
}

/// The outcome of one reconciliation with the server's room list.
pub struct RoomSync {
    /// The rooms tracked from now on.
    pub rooms: Vec<Room>,
    /// The stream updates to broadcast, in order.
    pub updates: Vec<RoomUpdate>,
    /// The new room values to send to the open listeners of changed rooms.
    pub notify: Vec<Room>,
    /// The rooms whose closed listeners are to be dropped.
    pub dropped_listeners: Vec<String>,
}

pub open spec fn update_views(v: Seq<RoomUpdate>) -> Seq<RoomUpdateView> {
    v.map_values(|u: RoomUpdate| u@)
}

pub open spec fn string_views(v: Seq<String>) -> Seq<Seq<char>> {
    v.map_values(|s: String| s@)
}

/// The position of the last room in `v` named `name`.
fn position(v: &Vec<Room>, name: &String) -> (r: Option<usize>)
    ensures
        match r {
            Some(i) => index_of(views(v@), name@) == Some(i as int),
            None => index_of(views(v@), name@) is None,
        },
{
    let ghost vs = views(v@);
    assert(vs.take(v.len() as int) =~= vs);
    let mut i: usize = v.len();
    while i > 0
        invariant
            i <= v.len(),
            vs == views(v@),
            index_of(vs, name@) == index_of(vs.take(i as int), name@),
        decreases i,
    {
        let ghost t = vs.take(i as int);
        assert(t.last() == vs[i - 1]);
        assert(t.drop_last() == vs.take(i - 1));
        if v[i - 1].name == *name {
            proof {
                lemma_index_of(vs, name@);
            }
            return Some(i - 1);
        }
        i -= 1;
    }
    assert(vs.take(0).len() == 0);
    None
}

/// Whether the listener of `name` is closed, if there is one.
fn closed_listener(ls: &Vec<ListenerState>, name: &String) -> (r: Option<bool>)
    ensures
        r == listener_closed(listener_views(ls@), name@),
{
    let ghost vs = listener_views(ls@);
    assert(vs.take(ls.len() as int) =~= vs);
    let mut i: usize = ls.len();
    while i > 0
        invariant
            i <= ls.len(),
            vs == listener_views(ls@),
            listener_closed(vs, name@) == listener_closed(vs.take(i as int), name@),
        decreases i,
    {
        let ghost t = vs.take(i as int);
        assert(t.last() == vs[i - 1]);
        assert(t.drop_last() == vs.take(i - 1));
        if ls[i - 1].room == *name {
            return Some(ls[i - 1].closed);
        }
        i -= 1;
    }
    None
}

/// The reported rooms, one per name ([`dedup`]).
fn dedup_rooms(reported: Vec<Room>) -> (d: Vec<Room>)
    ensures
        views(d@) == dedup(views(reported@)),
{
    let ghost rs = views(reported@);
    let mut d: Vec<Room> = Vec::new();
    let mut i: usize = 0;
    while i < reported.len()
        invariant
            i <= reported.len(),
            rs == views(reported@),
            views(d@) == dedup(rs.take(i as int)),
        decreases reported.len() - i,
    {
        let r = reported[i].copy();
        let ghost t = rs.take(i + 1);
        assert(t.drop_last() == rs.take(i as int));
        assert(t.last() == r@);
        proof {
            lemma_index_of(views(d@), r@.name);
        }
        match position(&d, &r.name) {
            Some(j) => {
                d.set(j, r);
                assert(views(d@) =~= dedup(t));
            },
            None => {
                d.push(r);
                assert(views(d@) =~= dedup(t));
            },
        }
        i += 1;
    }
    assert(rs.take(reported.len() as int) == rs);
    d
}

/// Reconciles the tracked rooms `current` with the list `reported` by the
/// server: rooms the server no longer lists are dropped, rooms whose stream
/// changed are replaced, new rooms are added; each stream change is announced
/// as a [`RoomUpdate`], and the open listeners of changed rooms get their new
/// value.
pub fn sync_rooms(current: &Vec<Room>, reported: Vec<Room>, listeners: &Vec<ListenerState>) -> (out:
    RoomSync)
    ensures
        views(out.rooms@) == kept(views(current@), dedup(views(reported@))) + fresh(
            views(current@),
            dedup(views(reported@)),
        ),
        update_views(out.updates@) == old_events(views(current@), dedup(views(reported@)))
            + added_events(fresh(views(current@), dedup(views(reported@)))),
        views(out.notify@) == notices(
            views(current@),
            dedup(views(reported@)),
            listener_views(listeners@),
        ),
        string_views(out.dropped_listeners@) == drops(
            views(current@),
            dedup(views(reported@)),
            listener_views(listeners@),
        ),
{
    let ghost old = views(current@);
    let ghost ls = listener_views(listeners@);
    let d = dedup_rooms(reported);
    let ghost dv = views(d@);
    let mut rooms: Vec<Room> = Vec::new();
    let mut updates: Vec<RoomUpdate> = Vec::new();
    let mut notify: Vec<Room> = Vec::new();
    let mut dropped: Vec<String> = Vec::new();
    let mut i: usize = 0;
    while i < current.len()
        invariant
            i <= current.len(),
            old == views(current@),
            dv == views(d@),
            ls == listener_views(listeners@),
            views(rooms@) == kept(old.take(i as int), dv),
            update_views(updates@) == old_events(old.take(i as int), dv),
            views(notify@) == notices(old.take(i as int), dv, ls),
            string_views(dropped@) == drops(old.take(i as int), dv, ls),
        decreases current.len() - i,
    {
        let r = &current[i];
        let ghost notify0 = views(notify@);
        let ghost dropped0 = string_views(dropped@);
        let ghost t = old.take(i + 1);
        assert(t.drop_last() == old.take(i as int));
        assert(t.last() == r@);
        proof {
            lemma_index_of(dv, r@.name);
        }
        match position(&d, &r.name) {
            Some(j) => {
                let n = &d[j];
                if r.same(n) {
                    rooms.push(r.copy());
                } else {
                    match closed_listener(listeners, &r.name) {
                        Some(false) => notify.push(n.copy()),
                        Some(true) => dropped.push(r.name.clone()),
                        None => {},
                    }
                    if same_opt_id(&r.stream, &n.stream) {
                        rooms.push(r.copy());
                    } else {
                        match (&r.stream, &n.stream) {
                            (None, Some(s)) => updates.push(RoomUpdate::Added(s.copy())),
                            (Some(s), None) => updates.push(RoomUpdate::Removed(s.copy())),
                            (Some(a), Some(b)) => updates.push(
                                RoomUpdate::Changed(a.copy(), b.copy()),
                            ),
                            (None, None) => {},
                        }
                        rooms.push(n.copy());
                    }
                }
            },
            None => {
                match &r.stream {
                    Some(s) => updates.push(RoomUpdate::Removed(s.copy())),
                    None => {},
                }
            },
        }
        assert(views(rooms@) =~= kept(t, dv));
        assert(update_views(updates@) == old_events(t, dv));
        assert(views(notify@) =~= notify0 + notice_of(r@, dv, ls));
        assert(string_views(dropped@) =~= dropped0 + drop_of(r@, dv, ls));
        assert(views(notify@) =~= notices(t, dv, ls));
        assert(string_views(dropped@) =~= drops(t, dv, ls));
        i += 1;
    }
    assert(old.take(current.len() as int) == old);
    let ghost kept_part = views(rooms@);
    let ghost old_ev = update_views(updates@);
    let mut k: usize = 0;
    while k < d.len()
        invariant
            k <= d.len(),
            old == views(current@),
            dv == views(d@),
            views(rooms@) == kept_part + fresh(old, dv.take(k as int)),
            update_views(updates@) == old_ev + added_events(fresh(old, dv.take(k as int))),
        decreases d.len() - k,
    {
        let n = &d[k];
        let ghost t = dv.take(k + 1);
        assert(t.drop_last() == dv.take(k as int));
        assert(t.last() == n@);
        if position(current, &n.name).is_none() {
            let ghost rooms_before = views(rooms@);
            let ghost updates_before = update_views(updates@);
            match &n.stream {
                Some(s) => updates.push(RoomUpdate::Added(s.copy())),
                None => {},
            }
            rooms.push(n.copy());
            assert(fresh(old, t) =~= fresh(old, dv.take(k as int)).push(n@));
            assert(views(rooms@) =~= rooms_before.push(n@));
            assert(views(rooms@) =~= kept_part + fresh(old, t));
            assert(update_views(updates@) =~= updates_before + match n@.stream {
                Some(s) => seq![RoomUpdateView::Added(s)],
                None => Seq::<RoomUpdateView>::empty(),
            });
            assert(added_events(fresh(old, t)) == added_events(fresh(old, dv.take(k as int)))
                + match n@.stream {
                Some(s) => seq![RoomUpdateView::Added(s)],
                None => Seq::<RoomUpdateView>::empty(),
            }) by {
                assert(fresh(old, t).drop_last() == fresh(old, dv.take(k as int)));
            }
            assert(update_views(updates@) =~= old_ev + added_events(fresh(old, t)));
        } else {
            assert(fresh(old, t) == fresh(old, dv.take(k as int)));
        }
        k += 1;
    }
    assert(dv.take(d.len() as int) == dv);
    RoomSync { rooms, updates, notify, dropped_listeners: dropped }
}

// ---------------------------------------------------------------------------
// Properties of the reconciliation
// ---------------------------------------------------------------------------

proof fn lemma_has_name_index(rs: Seq<RoomView>, name: Seq<char>)
    ensures
        has_name(rs, name) <==> index_of(rs, name) is Some,
{
    lemma_index_of(rs, name);
}

proof fn lemma_has_name_push(rs: Seq<RoomView>, r: RoomView, name: Seq<char>)
    ensures
        has_name(rs.push(r), name) <==> (has_name(rs, name) || r.name == name),
{
    let p = rs.push(r);
    if has_name(rs, name) {
        let i = choose|i: int| 0 <= i < rs.len() && rs[i].name == name;
        assert(p[i] == rs[i]);
    }
    if has_name(p, name) && r.name != name {
        let i = choose|i: int| 0 <= i < p.len() && p[i].name == name;
        assert(i < rs.len());
        assert(rs[i] == p[i]);
    }
    if r.name == name {
        assert(p[rs.len() as int] == r);
    }
}

proof fn lemma_has_name_concat(a: Seq<RoomView>, b: Seq<RoomView>, name: Seq<char>)
    ensures
        has_name(a + b, name) <==> (has_name(a, name) || has_name(b, name)),
{
    let c = a + b;
    if has_name(a, name) {
        let i = choose|i: int| 0 <= i < a.len() && a[i].name == name;
        assert(c[i] == a[i]);
    }
    if has_name(b, name) {
        let i = choose|i: int| 0 <= i < b.len() && b[i].name == name;
        assert(c[a.len() + i] == b[i]);
    }
    if has_name(c, name) {
        let i = choose|i: int| 0 <= i < c.len() && c[i].name == name;
        if i < a.len() {
            assert(c[i] == a[i]);
        } else {
            assert(c[i] == b[i - a.len()]);
        }
    }
}

proof fn lemma_distinct_push(rs: Seq<RoomView>, r: RoomView)
    requires
        distinct_names(rs),
        !has_name(rs, r.name),
    ensures
        distinct_names(rs.push(r)),
{
    let p = rs.push(r);
    assert forall|i: int, j: int|
        0 <= i < p.len() && 0 <= j < p.len() && i != j implies p[i].name != p[j].name by {
        if i < rs.len() && j < rs.len() {
            assert(p[i] == rs[i] && p[j] == rs[j]);
        } else if i < rs.len() {
            assert(p[i] == rs[i]);
        } else {
            assert(p[j] == rs[j]);
        }
    }
}

/// [`dedup`] keeps one room per name: for every name the server reports, the
/// room it reported last.
pub proof fn lemma_dedup(rs: Seq<RoomView>)
    ensures
        distinct_names(dedup(rs)),
        forall|name: Seq<char>| #[trigger]
            has_name(dedup(rs), name) <==> has_name(rs, name),
        forall|k: int|
            0 <= k < dedup(rs).len() ==> latest(rs, #[trigger] dedup(rs)[k].name) == Some(
                dedup(rs)[k],
            ),
    decreases rs.len(),
{
    if rs.len() > 0 {
        let p = rs.drop_last();
        let r = rs.last();
        let d = dedup(p);
        lemma_dedup(p);
        lemma_index_of(d, r.name);
        assert forall|name: Seq<char>| has_name(rs, name) <==> (has_name(p, name) || r.name
            == name) by {
            assert(rs == p.push(r));
            lemma_has_name_push(p, r, name);
        }
        match index_of(d, r.name) {
            Some(j) => {
                let e = d.update(j, r);
                assert forall|i: int, k: int|
                    0 <= i < e.len() && 0 <= k < e.len() && i != k implies e[i].name
                    != e[k].name by {}
                assert forall|name: Seq<char>| #[trigger]
                    has_name(e, name) <==> has_name(rs, name) by {
                    if has_name(e, name) {
                        let i = choose|i: int| 0 <= i < e.len() && e[i].name == name;
                        if i != j {
                            assert(d[i] == e[i]);
                            assert(has_name(d, name));
                        }
                    }
                    if has_name(d, name) {
                        let i = choose|i: int| 0 <= i < d.len() && d[i].name == name;
                        assert(e[i].name == name);
                    }
                    if r.name == name {
                        assert(e[j].name == name);
                    }
                }
                assert forall|k: int| 0 <= k < e.len() implies latest(rs, #[trigger] e[k].name)
                    == Some(e[k]) by {
                    if k == j {
                    } else {
                        assert(e[k] == d[k]);
                        assert(latest(p, d[k].name) == Some(d[k]));
                        lemma_index_of(p, d[k].name);
                    }
                }
            },
            None => {
                let e = d.push(r);
                lemma_has_name_index(d, r.name);
                lemma_distinct_push(d, r);
                assert forall|name: Seq<char>| #[trigger]
                    has_name(e, name) <==> has_name(rs, name) by {
                    lemma_has_name_push(d, r, name);
                }
                assert forall|k: int| 0 <= k < e.len() implies latest(rs, #[trigger] e[k].name)
                    == Some(e[k]) by {
                    if k < d.len() {
                        assert(e[k] == d[k]);
                        lemma_index_of(p, d[k].name);
                        assert(d[k].name != r.name) by {
                            assert(has_name(d, d[k].name));
                        }
                    }
                }
            },
        }
    }
}

proof fn lemma_kept_names(old: Seq<RoomView>, d: Seq<RoomView>)
    ensures
        forall|name: Seq<char>| #[trigger]
            has_name(kept(old, d), name) <==> (has_name(old, name) && has_name(d, name)),
        distinct_names(old) ==> distinct_names(kept(old, d)),
        forall|k: int|
            0 <= k < kept(old, d).len() ==> (#[trigger] index_of(d, kept(old, d)[k].name)) is Some
                && kept(old, d)[k].stream == d[index_of(d, kept(old, d)[k].name)->0].stream,
    decreases old.len(),
{
    if old.len() > 0 {
        let p = old.drop_last();
        let r = old.last();
        let kp = kept(p, d);
        lemma_kept_names(p, d);
        lemma_index_of(d, r.name);
        lemma_has_name_index(d, r.name);
        assert(old == p.push(r));
        assert forall|name: Seq<char>| has_name(old, name) <==> (has_name(p, name) || r.name
            == name) by {
            lemma_has_name_push(p, r, name);
        }
        if distinct_names(old) {
            assert(distinct_names(p)) by {
                assert forall|i: int, j: int|
                    0 <= i < p.len() && 0 <= j < p.len() && i != j implies p[i].name
                    != p[j].name by {
                    assert(p[i] == old[i] && p[j] == old[j]);
                }
            }
            assert(!has_name(p, r.name)) by {
                if has_name(p, r.name) {
                    let i = choose|i: int| 0 <= i < p.len() && p[i].name == r.name;
                    assert(old[i] == p[i]);
                    assert(old[old.len() - 1] == r);
                }
            }
        }
        match index_of(d, r.name) {
            Some(j) => {
                let n = kept_room(r, d[j]);
                assert(kept(old, d) == kp.push(n));
                assert forall|k: int| 0 <= k < kept(old, d).len() implies (#[trigger] index_of(
                    d,
                    kept(old, d)[k].name,
                )) is Some && kept(old, d)[k].stream == d[index_of(
                    d,
                    kept(old, d)[k].name,
                )->0].stream by {
                    if k < kp.len() {
                        assert(kept(old, d)[k] == kp[k]);
                    }
                }
                assert forall|name: Seq<char>| #[trigger]
                    has_name(kept(old, d), name) <==> (has_name(old, name) && has_name(d, name)) by {
                    lemma_has_name_push(kp, n, name);
                }
                if distinct_names(old) {
                    lemma_distinct_push(kp, n);
                }
            },
            None => {
                assert(kept(old, d) == kp + Seq::<RoomView>::empty());
                assert(kept(old, d) =~= kp);
            },
        }
    }
}

proof fn lemma_fresh_names(old: Seq<RoomView>, d: Seq<RoomView>)
    ensures
        forall|name: Seq<char>| #[trigger]
            has_name(fresh(old, d), name) <==> (has_name(d, name) && !has_name(old, name)),
        distinct_names(d) ==> distinct_names(fresh(old, d)),
        forall|k: int|
            0 <= k < fresh(old, d).len() ==> exists|i: int|
                0 <= i < d.len() && d[i] == #[trigger] fresh(old, d)[k],
    decreases d.len(),
{
    if d.len() > 0 {
        let p = d.drop_last();
        let r = d.last();
        let f = fresh(old, p);
        lemma_fresh_names(old, p);
        lemma_has_name_index(old, r.name);
        assert(d == p.push(r));
        assert forall|name: Seq<char>| has_name(d, name) <==> (has_name(p, name) || r.name
            == name) by {
            lemma_has_name_push(p, r, name);
        }
        if distinct_names(d) {
            assert(distinct_names(p)) by {
                assert forall|i: int, j: int|
                    0 <= i < p.len() && 0 <= j < p.len() && i != j implies p[i].name
                    != p[j].name by {
                    assert(p[i] == d[i] && p[j] == d[j]);
                }
            }
            assert(!has_name(p, r.name)) by {
                if has_name(p, r.name) {
                    let i = choose|i: int| 0 <= i < p.len() && p[i].name == r.name;
                    assert(d[i] == p[i]);
                    assert(d[d.len() - 1] == r);
                }
            }
        }
        assert forall|k: int| 0 <= k < f.len() implies exists|i: int|
            0 <= i < d.len() && d[i] == #[trigger] f[k] by {
            let i = choose|i: int| 0 <= i < p.len() && p[i] == f[k];
            assert(d[i] == p[i]);
        }
        if index_of(old, r.name) is None {
            assert(fresh(old, d) == f.push(r));
            assert forall|name: Seq<char>| #[trigger]
                has_name(fresh(old, d), name) <==> (has_name(d, name) && !has_name(old, name)) by {
                lemma_has_name_push(f, r, name);
            }
            if distinct_names(d) {
                lemma_distinct_push(f, r);
            }
            assert forall|k: int| 0 <= k < fresh(old, d).len() implies exists|i: int|
                0 <= i < d.len() && d[i] == #[trigger] fresh(old, d)[k] by {
                if k == f.len() {
                    assert(d[d.len() - 1] == r);
                } else {
                    assert(fresh(old, d)[k] == f[k]);
                }
            }
        } else {
            assert(fresh(old, d) =~= f);
        }
    }
}

/// After a reconciliation the client tracks exactly the rooms that the server
/// reports, one per name, each following the stream that the server reported
/// last for it; starting from rooms with distinct names, the names stay
/// distinct.
pub proof fn lemma_sync_follows_server(old: Seq<RoomView>, reported: Seq<RoomView>)
    requires
        distinct_names(old),
    ensures
        ({
            let d = dedup(reported);
            let result = kept(old, d) + fresh(old, d);
            &&& distinct_names(result)
            &&& forall|name: Seq<char>| #[trigger]
                has_name(result, name) <==> has_name(reported, name)
            &&& forall|k: int|
                0 <= k < result.len() ==> (#[trigger] latest(reported, result[k].name)) is Some
                    && result[k].stream == latest(reported, result[k].name)->0.stream
        }),
{
    let d = dedup(reported);
    let kp = kept(old, d);
    let f = fresh(old, d);
    let result = kp + f;
    lemma_dedup(reported);
    lemma_kept_names(old, d);
    lemma_fresh_names(old, d);
    assert forall|name: Seq<char>| #[trigger]
        has_name(result, name) <==> has_name(reported, name) by {
        lemma_has_name_concat(kp, f, name);
    }
    assert forall|i: int, j: int|
        0 <= i < result.len() && 0 <= j < result.len() && i != j implies result[i].name
        != result[j].name by {
        if i < kp.len() && j < kp.len() {
        } else if i >= kp.len() && j >= kp.len() {
            assert(result[i] == f[i - kp.len()] && result[j] == f[j - kp.len()]);
        } else if i < kp.len() {
            assert(result[i] == kp[i] && result[j] == f[j - kp.len()]);
            assert(has_name(kp, kp[i].name));
            assert(has_name(f, f[j - kp.len()].name));
        } else {
            assert(result[j] == kp[j] && result[i] == f[i - kp.len()]);
            assert(has_name(kp, kp[j].name));
            assert(has_name(f, f[i - kp.len()].name));
        }
    }
    assert forall|k: int| 0 <= k < result.len() implies (#[trigger] latest(
        reported,
        result[k].name,
    )) is Some && result[k].stream == latest(reported, result[k].name)->0.stream by {
        if k < kp.len() {
            assert(result[k] == kp[k]);
            let j = index_of(d, kp[k].name)->0;
            lemma_index_of(d, kp[k].name);
            assert(latest(reported, d[j].name) == Some(d[j]));
        } else {
            assert(result[k] == f[k - kp.len()]);
            let i = choose|i: int| 0 <= i < d.len() && d[i] == f[k - kp.len()];
            assert(latest(reported, d[i].name) == Some(d[i]));
        }
    }
}

proof fn lemma_index_of_distinct(rs: Seq<RoomView>, k: int)
    requires
        distinct_names(rs),
        0 <= k < rs.len(),
    ensures
        index_of(rs, rs[k].name) == Some(k),
{
    lemma_index_of(rs, rs[k].name);
}

proof fn lemma_dedup_distinct(rs: Seq<RoomView>)
    requires
        distinct_names(rs),
    ensures
        dedup(rs) == rs,
    decreases rs.len(),
{
    if rs.len() > 0 {
        let p = rs.drop_last();
        assert(distinct_names(p)) by {
            assert forall|i: int, j: int|
                0 <= i < p.len() && 0 <= j < p.len() && i != j implies p[i].name != p[j].name by {
                assert(p[i] == rs[i] && p[j] == rs[j]);
            }
        }
        lemma_dedup_distinct(p);
        lemma_index_of(p, rs.last().name);
        if index_of(p, rs.last().name) is Some {
            let j = index_of(p, rs.last().name)->0;
            assert(rs[j] == p[j]);
        }
        assert(p.push(rs.last()) =~= rs);
    }
}

proof fn lemma_stable_prefix(old: Seq<RoomView>, ls: Seq<ListenerStateView>, m: int)
    requires
        distinct_names(old),
        0 <= m <= old.len(),
    ensures
        kept(old.take(m), old) == old.take(m),
        old_events(old.take(m), old) == Seq::<RoomUpdateView>::empty(),
        notices(old.take(m), old, ls) == Seq::<RoomView>::empty(),
        drops(old.take(m), old, ls) == Seq::<Seq<char>>::empty(),
        fresh(old, old.take(m)) == Seq::<RoomView>::empty(),
    decreases m,
{
    if m > 0 {
        let t = old.take(m);
        lemma_stable_prefix(old, ls, m - 1);
        assert(t.drop_last() == old.take(m - 1));
        assert(t.last() == old[m - 1]);
        lemma_index_of_distinct(old, m - 1);
        assert(kept(t, old) =~= old.take(m - 1).push(old[m - 1]));
        assert(kept(t, old) =~= t);
        assert(old_events(t, old) =~= Seq::<RoomUpdateView>::empty());
        assert(notices(t, old, ls) =~= Seq::<RoomView>::empty());
        assert(drops(t, old, ls) =~= Seq::<Seq<char>>::empty());
        assert(fresh(old, t) =~= Seq::<RoomView>::empty());
    } else {
        assert(old.take(0) =~= Seq::<RoomView>::empty());
    }
}

/// When the server reports exactly the rooms that are tracked, a
/// reconciliation changes nothing: the same rooms are kept, and no update,
/// notice or listener drop results.
pub proof fn lemma_sync_unchanged(old: Seq<RoomView>, ls: Seq<ListenerStateView>)
    requires
        distinct_names(old),
    ensures
        kept(old, dedup(old)) + fresh(old, dedup(old)) == old,
        old_events(old, dedup(old)) + added_events(fresh(old, dedup(old))) == Seq::<
            RoomUpdateView,
        >::empty(),
        notices(old, dedup(old), ls) == Seq::<RoomView>::empty(),
        drops(old, dedup(old), ls) == Seq::<Seq<char>>::empty(),
{
    lemma_dedup_distinct(old);
    lemma_stable_prefix(old, ls, old.len() as int);
    assert(old.take(old.len() as int) == old);
    assert(added_events(Seq::<RoomView>::empty()) == Seq::<RoomUpdateView>::empty());
    assert(old + Seq::<RoomView>::empty() =~= old);
    assert(Seq::<RoomUpdateView>::empty() + Seq::<RoomUpdateView>::empty() =~= Seq::<
        RoomUpdateView,
    >::empty());
}

// ---------------------------------------------------------------------------
// The client's room state
// ---------------------------------------------------------------------------

/// The reported rooms with their stream links reduced to video ids.
pub open spec fn normalized_all(rs: Seq<RoomView>) -> Seq<RoomView> {
    rs.map_values(|r: RoomView| normalized(r))
}

/// The first tracked room that follows the stream `id`.
pub open spec fn room_for_stream(rs: Seq<RoomView>, id: Seq<char>) -> Option<int>
    decreases rs.len(),
{
    if rs.len() == 0 {
        None
    } else {
        match room_for_stream(rs.drop_last(), id) {
            Some(i) => Some(i),
            None => if rs.last().stream == Some(id) {
                Some(rs.len() - 1)
            } else {
                None
            },
        }
    }
}

/// What one refresh of the room list asks the caller to do.
pub struct RoomChanges {
    /// The stream updates to broadcast, in order.
    pub updates: Vec<RoomUpdate>,
    /// The new room values to send to the open listeners of changed rooms.
    pub notify: Vec<Room>,
    /// The rooms whose closed listeners are to be dropped.
    pub dropped_listeners: Vec<String>,
}

/// The MChad rooms that the client tracks.
pub struct Client {
    rooms: Vec<Room>,
}

impl Client {
    /// The tracked rooms.
    pub closed spec fn rooms_view(&self) -> Seq<RoomView> {
        views(self.rooms@)
    }

    /// The tracked rooms have distinct names.
    pub closed spec fn wf(&self) -> bool {
        distinct_names(views(self.rooms@))
    }

    /// A client that tracks no room yet.
    pub fn new() -> (c: Client)
        ensures
            c.wf(),
            c.rooms_view() == Seq::<RoomView>::empty(),
    {
        let c = Client { rooms: Vec::new() };
        assert(views(c.rooms@) =~= Seq::<RoomView>::empty());
        c
    }

    /// The tracked rooms.
    pub fn rooms(&self) -> (r: &Vec<Room>)
        ensures
            views(r@) == self.rooms_view(),
    {
        &self.rooms
    }

    /// One round of the room updater: reduces the stream links of the rooms
    /// that the server reported to video ids, reconciles the tracked rooms with
    /// them ([`sync_rooms`]) and keeps the result.
    pub fn refresh(&mut self, reported: Vec<Room>, listeners: &Vec<ListenerState>) -> (out:
        RoomChanges)
        requires
            old(self).wf(),
        ensures
            final(self).wf(),
            ({
                let d = dedup(normalized_all(views(reported@)));
                let o = old(self).rooms_view();
                &&& final(self).rooms_view() == kept(o, d) + fresh(o, d)
                &&& update_views(out.updates@) == old_events(o, d) + added_events(fresh(o, d))
                &&& views(out.notify@) == notices(o, d, listener_views(listeners@))
                &&& string_views(out.dropped_listeners@) == drops(
                    o,
                    d,
                    listener_views(listeners@),
                )
            }),
    {
        let ghost rv = views(reported@);
        let mut ordered: Vec<Room> = Vec::new();
        let mut i: usize = 0;
        while i < reported.len()
            invariant
                rv == views(reported@),
                i <= reported.len(),
                views(ordered@) == normalized_all(rv).take(i as int),
            decreases reported.len() - i,
        {
            let ghost before = views(ordered@);
            let r = reported[i].copy().with_parsed_stream();
            assert(r@ == normalized_all(rv)[i as int]);
            ordered.push(r);
            assert(views(ordered@) =~= before.push(r@));
            i += 1;
            assert(views(ordered@) =~= normalized_all(rv).take(i as int));
        }
        assert(views(ordered@) =~= normalized_all(rv));
        let out = sync_rooms(&self.rooms, ordered, listeners);
        proof {
            lemma_sync_follows_server(views(self.rooms@), normalized_all(rv));
        }
        let RoomSync { rooms, updates, notify, dropped_listeners } = out;
        self.rooms = rooms;
        RoomChanges { updates, notify, dropped_listeners }
    }

    /// The room that follows the stream `id`, which a new listener is to follow;
    /// `None` when no tracked room follows it.
    pub fn get_listener(&self, id: &str) -> (r: Option<Room>)
        ensures
            match r {
                Some(room) => room_for_stream(self.rooms_view(), id@) matches Some(i)
                    && room@ == self.rooms_view()[i],
                None => room_for_stream(self.rooms_view(), id@) is None,
            },
    {
        let ghost rs = views(self.rooms@);
        let mut i: usize = 0;
        while i < self.rooms.len()
            invariant
                i <= self.rooms.len(),
                rs == views(self.rooms@),
                room_for_stream(rs.take(i as int), id@) is None,
            decreases self.rooms.len() - i,
        {
            let ghost t = rs.take(i + 1);
            assert(t.drop_last() == rs.take(i as int));
            let hit = match &self.rooms[i].stream {
                Some(s) => str_eq(s.as_str(), id),
                None => false,
            };
            if hit {
                proof {
                    lemma_room_for_stream_prefix(rs, id@, i as int + 1);
                }
                return Some(self.rooms[i].copy());
            }
            i += 1;
        }
        assert(rs.take(self.rooms.len() as int) == rs);
        None
    }
}

proof fn lemma_room_for_stream_prefix(rs: Seq<RoomView>, id: Seq<char>, m: int)
    requires
        0 <= m <= rs.len(),
        room_for_stream(rs.take(m), id) is Some,
    ensures
        room_for_stream(rs, id) == room_for_stream(rs.take(m), id),
    decreases rs.len() - m,
{
    if m < rs.len() {
        let t = rs.take(m + 1);
        assert(t.drop_last() == rs.take(m));
        lemma_room_for_stream_prefix(rs, id, m + 1);
    } else {
        assert(rs.take(m) == rs);
    }
}

} // verus!
