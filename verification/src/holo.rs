//! Stream tracking: the index of a talent's streams, how the statuses that
//! Holodex reports change it, and which announcements and timer changes follow.
//! Times are milliseconds since the Unix epoch.

use vstd::prelude::*;
use crate::config::{Talent, TalentView};
use crate::text::{push_str, str_eq};

verus! {

/// The status of a video as Holodex reports it.
#[derive(Debug, Clone, Copy, PartialEq, Eq, Structural)]
pub enum VideoStatus {
    New,
    Upcoming,
    Live,
    Past,
    Missing,
}

/// A talent agency as Holodex names it.
#[derive(Debug)]
pub enum Organisation {
    Hololive,
    Nijisanji,
    Independents,
    Other(String),
}

/// The short record of a channel that Holodex embeds in a video.
#[derive(Debug)]
pub struct ChannelMin {
    pub id: String,
    pub name: String,
    pub org: Option<Organisation>,
}

/// The channel of a video: its id, or its short record.
#[derive(Debug)]
pub enum VideoChannel {
    Id(String),
    Data(ChannelMin),
}

impl VideoChannel {
    pub open spec fn id_view(&self) -> Seq<char> {
        match self {
            VideoChannel::Id(id) => id@,
            VideoChannel::Data(d) => d.id@,
        }
    }

    /// The channel's id.
    pub fn get_id(&self) -> (r: &String)
        ensures
            r@ == self.id_view(),
    {
        match self {
            VideoChannel::Id(id) => id,
            VideoChannel::Data(d) => &d.id,
        }
    }

    /// The channel's short record names an organisation other than Hololive,
    /// or none.
    pub open spec fn is_foreign(&self) -> bool {
        self matches VideoChannel::Data(d) && !(d.org matches Some(Organisation::Hololive))
    }

    /// Whether the channel is known to belong to another agency than Hololive.
    pub fn foreign(&self) -> (r: bool)
        ensures
            r == self.is_foreign(),
    {
        match self {
            VideoChannel::Id(_) => false,
            VideoChannel::Data(d) => match &d.org {
                Some(Organisation::Hololive) => false,
                _ => true,
            },
        }
    }
}

/// A video as Holodex reports it.
#[derive(Debug)]
pub struct Video {
    pub id: String,
    pub title: String,
    pub status: VideoStatus,
    pub available_at: i64,
    pub start_scheduled: Option<i64>,
    pub duration: Option<i64>,
    pub channel: VideoChannel,
}

impl Video {
    /// When the video is to start: its scheduled start, else when it became
    /// available.
    pub open spec fn start(&self) -> i64 {
        match self.start_scheduled {
            Some(t) => t,
            None => self.available_at,
        }
    }
}

/// A stream in the index.
#[derive(Debug)]
pub struct Livestream {
    pub id: String,
    pub title: String,
    pub thumbnail: String,
    pub url: String,
    pub streamer: Talent,
    pub state: VideoStatus,
    pub start_at: i64,
    pub duration: Option<i64>,
}

pub struct LivestreamView {
    pub id: Seq<char>,
    pub title: Seq<char>,
    pub thumbnail: Seq<char>,
    pub url: Seq<char>,
    pub streamer: TalentView,
    pub state: VideoStatus,
    pub start_at: i64,
    pub duration: Option<i64>,
}

impl View for Livestream {
    type V = LivestreamView;

    open spec fn view(&self) -> LivestreamView {
        LivestreamView {
            id: self.id@,
            title: self.title@,
            thumbnail: self.thumbnail@,
            url: self.url@,
            streamer: self.streamer@,
            state: self.state,
            start_at: self.start_at,
            duration: self.duration,
        }
    }
}

impl Livestream {
    /// A copy of the stream.
    pub fn copy(&self) -> (r: Livestream)
        ensures
            r@ == self@,
    {
        Livestream {
            id: self.id.clone(),
            title: self.title.clone(),
            thumbnail: self.thumbnail.clone(),
            url: self.url.clone(),
            streamer: self.streamer.copy(),
            state: self.state,
            start_at: self.start_at,
            duration: self.duration,
        }
    }
}

pub open spec fn watch_url(id: Seq<char>) -> Seq<char> {
    "https://youtube.com/watch?v="@ + id
}

pub open spec fn thumbnail_url(id: Seq<char>) -> Seq<char> {
    "https://i.ytimg.com/vi/"@ + id + "/maxresdefault.jpg"@
}

/// The index entry for `video` of `talent`.
pub fn from_video_and_talent(video: Video, talent: &Talent) -> (r: Livestream)
    ensures
        r@ == (LivestreamView {
            id: video.id@,
            title: video.title@,
            thumbnail: thumbnail_url(video.id@),
            url: watch_url(video.id@),
            streamer: talent@,
            state: video.status,
            start_at: video.start(),
            duration: video.duration,
        }),
{
    let mut url = String::new();
    push_str(&mut url, "https://youtube.com/watch?v=");
    push_str(&mut url, video.id.as_str());
    let mut thumbnail = String::new();
    push_str(&mut thumbnail, "https://i.ytimg.com/vi/");
    push_str(&mut thumbnail, video.id.as_str());
    push_str(&mut thumbnail, "/maxresdefault.jpg");
    let start_at = match video.start_scheduled {
        Some(t) => t,
        None => video.available_at,
    };
    proof {
        reveal_strlit("https://youtube.com/watch?v=");
        reveal_strlit("https://i.ytimg.com/vi/");
        reveal_strlit("/maxresdefault.jpg");
    }
    Livestream {
        id: video.id,
        title: video.title,
        thumbnail,
        url,
        streamer: talent.copy(),
        state: video.status,
        start_at,
        duration: video.duration,
    }
}

/// The talent whose YouTube channel is `channel` (the last one listed, as a map
/// built from the list keeps it).
pub open spec fn talent_of_channel(talents: Seq<TalentView>, channel: Seq<char>) -> Option<
    TalentView,
>
    decreases talents.len(),
{
    if talents.len() == 0 {
        None
    } else if talents.last().youtube_ch_id == Some(channel) {
        Some(talents.last())
    } else {
        talent_of_channel(talents.drop_last(), channel)
    }
}

pub open spec fn talent_views(v: Seq<Talent>) -> Seq<TalentView> {
    v.map_values(|t: Talent| t@)
}

/// The index entry for `video` of talent `t`.
pub open spec fn stream_of(video: Video, t: TalentView) -> LivestreamView {
    LivestreamView {
        id: video.id@,
        title: video.title@,
        thumbnail: thumbnail_url(video.id@),
        url: watch_url(video.id@),
        streamer: t,
        state: video.status,
        start_at: video.start(),
        duration: video.duration,
    }
}

/// The index entry for a video: none for a video of another agency, or of a
/// channel that belongs to no followed talent.
pub open spec fn processed(video: Video, tv: Seq<TalentView>) -> Option<LivestreamView> {
    if video.channel.is_foreign() {
        None
    } else {
        match talent_of_channel(tv, video.channel.id_view()) {
            Some(t) => Some(stream_of(video, t)),
            None => None,
        }
    }
}

pub open spec fn opt_stream_view(o: Option<Livestream>) -> Option<LivestreamView> {
    match o {
        Some(s) => Some(s@),
        None => None,
    }
}

/// The index entry for a video: `None` for a video of another agency, or of a
/// channel that belongs to no followed talent.
pub fn process_stream(video: Video, talents: &Vec<Talent>) -> (r: Option<Livestream>)
    ensures
        opt_stream_view(r) == processed(video, talent_views(talents@)),
{
    if video.channel.foreign() {
        return None;
    }
    let ghost tv = talent_views(talents@);
    let mut i: usize = talents.len();
    assert(tv.take(talents.len() as int) =~= tv);
    while i > 0
        invariant
            i <= talents.len(),
            !video.channel.is_foreign(),
            tv == talent_views(talents@),
            talent_of_channel(tv, video.channel.id_view()) == talent_of_channel(
                tv.take(i as int),
                video.channel.id_view(),
            ),
        decreases i,
    {
        let ghost t = tv.take(i as int);
        assert(t.last() == tv[i - 1]);
        assert(t.drop_last() == tv.take(i - 1));
        let hit = match &talents[i - 1].youtube_ch_id {
            Some(ch) => str_eq(ch.as_str(), video.channel.get_id().as_str()),
            None => false,
        };
        if hit {
            proof {
                assert(tv[i - 1] == talents@[i - 1]@);
                assert(t.last().youtube_ch_id == Some(video.channel.id_view()));
            }
            return Some(from_video_and_talent(video, &talents[i - 1]));
        }
        i -= 1;
    }
    None
}


/// How a status change of a tracked video is announced.
#[derive(Debug, Clone, Copy, PartialEq, Eq, Structural)]
pub enum Transition {
    Scheduled,
    Started,
    Ended,
    Unscheduled,
}

/// The announced transitions from the status in the index to the status that
/// Holodex reports; any other pair is no transition.
pub open spec fn transition(before: VideoStatus, after: VideoStatus) -> Option<Transition> {
    match (before, after) {
        (VideoStatus::Missing, VideoStatus::Upcoming) => Some(Transition::Scheduled),
        (VideoStatus::New, VideoStatus::Upcoming) => Some(Transition::Scheduled),
        (VideoStatus::Upcoming, VideoStatus::Live) => Some(Transition::Started),
        (VideoStatus::Missing, VideoStatus::Live) => Some(Transition::Started),
        (VideoStatus::Live, VideoStatus::Past) => Some(Transition::Ended),
        (VideoStatus::Live, VideoStatus::Missing) => Some(Transition::Ended),
        (VideoStatus::Upcoming, VideoStatus::Missing) => Some(Transition::Unscheduled),
        _ => None,
    }
}

/// The transition from `before` to `after`, if it is one that is announced.
pub fn status_transition(before: VideoStatus, after: VideoStatus) -> (r: Option<Transition>)
    ensures
        r == transition(before, after),
{
    match (before, after) {
        (VideoStatus::Missing, VideoStatus::Upcoming) => Some(Transition::Scheduled),
        (VideoStatus::New, VideoStatus::Upcoming) => Some(Transition::Scheduled),
        (VideoStatus::Upcoming, VideoStatus::Live) => Some(Transition::Started),
        (VideoStatus::Missing, VideoStatus::Live) => Some(Transition::Started),
        (VideoStatus::Live, VideoStatus::Past) => Some(Transition::Ended),
        (VideoStatus::Live, VideoStatus::Missing) => Some(Transition::Ended),
        (VideoStatus::Upcoming, VideoStatus::Missing) => Some(Transition::Unscheduled),
        _ => None,
    }
}

/// A change to a tracked video that a poll of Holodex found.
#[derive(Debug)]
pub enum VideoUpdate {
    Scheduled(String),
    Started(String),
    Ended(String),
    Unscheduled(String),
    Renamed { id: String, new_name: String },
    Rescheduled { id: String, new_start: i64 },
}

pub enum VideoUpdateView {
    Scheduled(Seq<char>),
    Started(Seq<char>),
    Ended(Seq<char>),
    Unscheduled(Seq<char>),
    Renamed { id: Seq<char>, new_name: Seq<char> },
    Rescheduled { id: Seq<char>, new_start: i64 },
}

impl View for VideoUpdate {
    type V = VideoUpdateView;

    open spec fn view(&self) -> VideoUpdateView {
        match self {
            VideoUpdate::Scheduled(id) => VideoUpdateView::Scheduled(id@),
            VideoUpdate::Started(id) => VideoUpdateView::Started(id@),
            VideoUpdate::Ended(id) => VideoUpdateView::Ended(id@),
            VideoUpdate::Unscheduled(id) => VideoUpdateView::Unscheduled(id@),
            VideoUpdate::Renamed { id, new_name } => VideoUpdateView::Renamed {
                id: id@,
                new_name: new_name@,
            },
            VideoUpdate::Rescheduled { id, new_start } => VideoUpdateView::Rescheduled {
                id: id@,
                new_start: *new_start,
            },
        }
    }
}

pub open spec fn video_update_views(v: Seq<VideoUpdate>) -> Seq<VideoUpdateView> {
    v.map_values(|u: VideoUpdate| u@)
}

pub open spec fn transition_update(t: Transition, id: Seq<char>) -> VideoUpdateView {
    match t {
        Transition::Scheduled => VideoUpdateView::Scheduled(id),
        Transition::Started => VideoUpdateView::Started(id),
        Transition::Ended => VideoUpdateView::Ended(id),
        Transition::Unscheduled => VideoUpdateView::Unscheduled(id),
    }
}

/// What Holodex's report `video` changes of the stream `entry`, in order: a new
/// title (when the reported one differs and is not empty), a new start (unless
/// the stream is over), then a status transition.
pub open spec fn updates_for(entry: LivestreamView, video: Video) -> Seq<VideoUpdateView> {
    let renamed = if entry.title != video.title@ && video.title@.len() > 0 {
        seq![VideoUpdateView::Renamed { id: entry.id, new_name: video.title@ }]
    } else {
        Seq::empty()
    };
    let moved = if entry.state != VideoStatus::Past && entry.start_at != video.start() {
        seq![VideoUpdateView::Rescheduled { id: entry.id, new_start: video.start() }]
    } else {
        Seq::empty()
    };
    let changed = match transition(entry.state, video.status) {
        Some(t) => seq![transition_update(t, entry.id)],
        None => Seq::empty(),
    };
    renamed + moved + changed
}

/// The announced status changes, as a table: a new or vanished stream that
/// becomes upcoming is scheduled; an upcoming or vanished stream that goes
/// live has started; a live stream that is over or vanished has ended; an
/// upcoming stream that vanished is unscheduled; no other pair of statuses is
/// announced.
pub proof fn lemma_transition_table(before: VideoStatus, after: VideoStatus)
    ensures
        (before == VideoStatus::New || before == VideoStatus::Missing) && after
            == VideoStatus::Upcoming ==> transition(before, after) == Some(Transition::Scheduled),
        (before == VideoStatus::Upcoming || before == VideoStatus::Missing) && after
            == VideoStatus::Live ==> transition(before, after) == Some(Transition::Started),
        before == VideoStatus::Live && (after == VideoStatus::Past || after == VideoStatus::Missing)
            ==> transition(before, after) == Some(Transition::Ended),
        before == VideoStatus::Upcoming && after == VideoStatus::Missing ==> transition(before, after)
            == Some(Transition::Unscheduled),
        !((before == VideoStatus::New || before == VideoStatus::Missing) && after
            == VideoStatus::Upcoming) && !((before == VideoStatus::Upcoming || before
            == VideoStatus::Missing) && after == VideoStatus::Live) && !(before == VideoStatus::Live
            && (after == VideoStatus::Past || after == VideoStatus::Missing)) && !(before
            == VideoStatus::Upcoming && after == VideoStatus::Missing) ==> transition(before, after)
            is None,
{
}

/// What a report announces of a tracked stream's status, stated on the
/// statuses: the last update for an upcoming stream that Holodex reports
/// missing unschedules it; for a live stream reported over or missing, it
/// ends it; for an upcoming or missing stream reported live, it starts it;
/// for a new or missing stream reported upcoming, it schedules it. A report
/// that keeps the status announces no status change.
pub proof fn lemma_report_announces_status(entry: LivestreamView, video: Video)
    ensures
        entry.state == VideoStatus::Upcoming && video.status == VideoStatus::Missing ==> updates_for(
            entry,
            video,
        ).last() == VideoUpdateView::Unscheduled(entry.id),
        entry.state == VideoStatus::Live && (video.status == VideoStatus::Past || video.status
            == VideoStatus::Missing) ==> updates_for(entry, video).last() == VideoUpdateView::Ended(
            entry.id,
        ),
        (entry.state == VideoStatus::Upcoming || entry.state == VideoStatus::Missing) && video.status
            == VideoStatus::Live ==> updates_for(entry, video).last() == VideoUpdateView::Started(
            entry.id,
        ),
        (entry.state == VideoStatus::New || entry.state == VideoStatus::Missing) && video.status
            == VideoStatus::Upcoming ==> updates_for(entry, video).last()
            == VideoUpdateView::Scheduled(entry.id),
        entry.state == video.status ==> forall|i: int|
            0 <= i < updates_for(entry, video).len() ==> (#[trigger] updates_for(entry, video)[i]
                is Renamed || updates_for(entry, video)[i] is Rescheduled),
{
    lemma_transition_table(entry.state, video.status);
    let u = updates_for(entry, video);
    if entry.state == video.status {
        assert forall|i: int| 0 <= i < u.len() implies (#[trigger] u[i] is Renamed || u[i]
            is Rescheduled) by {}
    }
}

/// The changes that Holodex's report `video` makes to the stream `entry`.
pub fn updates_for_video(entry: &Livestream, video: &Video) -> (r: Vec<VideoUpdate>)
    ensures
        video_update_views(r@) == updates_for(entry@, *video),
{
    let mut r: Vec<VideoUpdate> = Vec::new();
    if entry.title != video.title && !video.title.as_str().is_empty() {
        r.push(VideoUpdate::Renamed { id: entry.id.clone(), new_name: video.title.clone() });
    }
    let start = match video.start_scheduled {
        Some(t) => t,
        None => video.available_at,
    };
    if entry.state != VideoStatus::Past && entry.start_at != start {
        r.push(VideoUpdate::Rescheduled { id: entry.id.clone(), new_start: start });
    }
    match status_transition(entry.state, video.status) {
        Some(Transition::Scheduled) => r.push(VideoUpdate::Scheduled(entry.id.clone())),
        Some(Transition::Started) => r.push(VideoUpdate::Started(entry.id.clone())),
        Some(Transition::Ended) => r.push(VideoUpdate::Ended(entry.id.clone())),
        Some(Transition::Unscheduled) => r.push(VideoUpdate::Unscheduled(entry.id.clone())),
        None => {},
    }
    assert(video_update_views(r@) =~= updates_for(entry@, *video));
    r
}

/// A report that changes nothing of the stream gives no update.
pub proof fn lemma_unchanged_video_no_updates(entry: LivestreamView, video: Video)
    requires
        entry.title == video.title@ || video.title@.len() == 0,
        entry.state == VideoStatus::Past || entry.start_at == video.start(),
        entry.state == video.status,
    ensures
        updates_for(entry, video) == Seq::<VideoUpdateView>::empty(),
{
    assert(updates_for(entry, video) =~= Seq::<VideoUpdateView>::empty());
}


/// What the rest of the bot is told about a tracked stream.
#[derive(Debug)]
pub enum StreamUpdate {
    Scheduled(Livestream),
    Started(Livestream),
    Ended(String),
    Unscheduled(String),
    Renamed(String, String),
    Rescheduled(String, i64),
}

pub enum StreamUpdateView {
    Scheduled(LivestreamView),
    Started(LivestreamView),
    Ended(Seq<char>),
    Unscheduled(Seq<char>),
    Renamed(Seq<char>, Seq<char>),
    Rescheduled(Seq<char>, i64),
}

impl View for StreamUpdate {
    type V = StreamUpdateView;

    open spec fn view(&self) -> StreamUpdateView {
        match self {
            StreamUpdate::Scheduled(s) => StreamUpdateView::Scheduled(s@),
            StreamUpdate::Started(s) => StreamUpdateView::Started(s@),
            StreamUpdate::Ended(id) => StreamUpdateView::Ended(id@),
            StreamUpdate::Unscheduled(id) => StreamUpdateView::Unscheduled(id@),
            StreamUpdate::Renamed(id, name) => StreamUpdateView::Renamed(id@, name@),
            StreamUpdate::Rescheduled(id, t) => StreamUpdateView::Rescheduled(id@, *t),
        }
    }
}

/// A change to the timers that fire when a scheduled stream is due.
#[derive(Debug)]
pub enum QueueAction {
    /// Start a timer for the stream, firing after `delay` milliseconds.
    Insert { id: String, delay: u64 },
    /// Let the stream's timer fire after `delay` milliseconds from now.
    Reset { id: String, delay: u64 },
    /// Drop the stream's timer.
    Remove { id: String },
}

pub enum QueueActionView {
    Insert { id: Seq<char>, delay: u64 },
    Reset { id: Seq<char>, delay: u64 },
    Remove { id: Seq<char> },
}

impl View for QueueAction {
    type V = QueueActionView;

    open spec fn view(&self) -> QueueActionView {
        match self {
            QueueAction::Insert { id, delay } => QueueActionView::Insert { id: id@, delay: *delay },
            QueueAction::Reset { id, delay } => QueueActionView::Reset { id: id@, delay: *delay },
            QueueAction::Remove { id } => QueueActionView::Remove { id: id@ },
        }
    }
}

pub open spec fn opt_update_view(o: Option<StreamUpdate>) -> Option<StreamUpdateView> {
    match o {
        Some(u) => Some(u@),
        None => None,
    }
}

pub open spec fn opt_action_view(o: Option<QueueAction>) -> Option<QueueActionView> {
    match o {
        Some(a) => Some(a@),
        None => None,
    }
}

pub open spec fn stream_update_views(v: Seq<StreamUpdate>) -> Seq<StreamUpdateView> {
    v.map_values(|u: StreamUpdate| u@)
}

pub open spec fn queue_action_views(v: Seq<QueueAction>) -> Seq<QueueActionView> {
    v.map_values(|a: QueueAction| a@)
}

/// Milliseconds from `now` until `start`, if `start` is not past.
pub open spec fn delay_until(start: i64, now: i64) -> Option<u64> {
    if start >= now {
        Some((start - now) as u64)
    } else {
        None
    }
}

/// How long until the stream is due to start, or `None` once its start is past.
pub fn get_duration_until_stream(stream: &Livestream, now: i64) -> (r: Option<u64>)
    ensures
        r == delay_until(stream.start_at, now),
{
    if stream.start_at >= now {
        let d: i128 = stream.start_at as i128 - now as i128;
        Some(d as u64)
    } else {
        None
    }
}

/// A stream in the index, and whether a timer for its start is queued.
#[derive(Debug)]
pub struct IndexEntry {
    pub queued: bool,
    pub stream: Livestream,
}

pub struct IndexEntryView {
    pub queued: bool,
    pub stream: LivestreamView,
}

impl View for IndexEntry {
    type V = IndexEntryView;

    open spec fn view(&self) -> IndexEntryView {
        IndexEntryView { queued: self.queued, stream: self.stream@ }
    }
}

pub open spec fn entry_views(v: Seq<IndexEntry>) -> Seq<IndexEntryView> {
    v.map_values(|e: IndexEntry| e@)
}

/// Where the stream `id` stands in the index.
pub open spec fn pos_of(s: Seq<IndexEntryView>, id: Seq<char>) -> Option<int>
    decreases s.len(),
{
    if s.len() == 0 {
        None
    } else if s.last().stream.id == id {
        Some(s.len() - 1)
    } else {
        pos_of(s.drop_last(), id)
    }
}

/// No stream stands twice in the index.
pub open spec fn distinct_ids(s: Seq<IndexEntryView>) -> bool {
    forall|i: int, j: int|
        0 <= i < s.len() && 0 <= j < s.len() && i != j ==> s[i].stream.id != s[j].stream.id
}

pub proof fn lemma_pos_of(s: Seq<IndexEntryView>, id: Seq<char>)
    ensures
        match pos_of(s, id) {
            Some(p) => 0 <= p < s.len() && s[p].stream.id == id,
            None => forall|j: int| 0 <= j < s.len() ==> s[j].stream.id != id,
        },
    decreases s.len(),
{
    if s.len() > 0 && s.last().stream.id != id {
        lemma_pos_of(s.drop_last(), id);
        if pos_of(s, id) is None {
            assert forall|j: int| 0 <= j < s.len() implies s[j].stream.id != id by {
                if j < s.len() - 1 {
                    assert(s.drop_last()[j] == s[j]);
                }
            }
        }
    }
}

proof fn lemma_pos_of_unique(s: Seq<IndexEntryView>, j: int)
    requires
        distinct_ids(s),
        0 <= j < s.len(),
    ensures
        pos_of(s, s[j].stream.id) == Some(j),
{
    lemma_pos_of(s, s[j].stream.id);
}

pub open spec fn with_state(l: LivestreamView, state: VideoStatus) -> LivestreamView {
    LivestreamView {
        id: l.id,
        title: l.title,
        thumbnail: l.thumbnail,
        url: l.url,
        streamer: l.streamer,
        state,
        start_at: l.start_at,
        duration: l.duration,
    }
}

pub open spec fn with_title(l: LivestreamView, title: Seq<char>) -> LivestreamView {
    LivestreamView {
        id: l.id,
        title,
        thumbnail: l.thumbnail,
        url: l.url,
        streamer: l.streamer,
        state: l.state,
        start_at: l.start_at,
        duration: l.duration,
    }
}

pub open spec fn with_start(l: LivestreamView, start_at: i64) -> LivestreamView {
    LivestreamView {
        id: l.id,
        title: l.title,
        thumbnail: l.thumbnail,
        url: l.url,
        streamer: l.streamer,
        state: l.state,
        start_at,
        duration: l.duration,
    }
}

/// The timer change that a changed start asks for: a queued timer is reset to
/// the new start, unless that start is already past.
pub open spec fn reset_action(e: IndexEntryView, now: i64) -> Option<QueueActionView> {
    if e.queued {
        match delay_until(e.stream.start_at, now) {
            Some(d) => Some(QueueActionView::Reset { id: e.stream.id, delay: d }),
            None => None,
        }
    } else {
        None
    }
}

/// The index, the announcement and the timer change that follow from applying
/// `u` to the index `s` at time `now`. An update of a stream that is not in the
/// index changes nothing.
pub open spec fn applied(s: Seq<IndexEntryView>, u: VideoUpdateView, now: i64) -> (
    Seq<IndexEntryView>,
    Option<StreamUpdateView>,
    Option<QueueActionView>,
) {
    let id = match u {
        VideoUpdateView::Scheduled(id) => id,
        VideoUpdateView::Started(id) => id,
        VideoUpdateView::Ended(id) => id,
        VideoUpdateView::Unscheduled(id) => id,
        VideoUpdateView::Renamed { id, new_name: _ } => id,
        VideoUpdateView::Rescheduled { id, new_start: _ } => id,
    };
    match pos_of(s, id) {
        None => (s, None, None),
        Some(p) => {
            let old = s[p];
            match u {
                VideoUpdateView::Scheduled(_) => {
                    let e = IndexEntryView {
                        queued: old.queued,
                        stream: with_state(old.stream, VideoStatus::Upcoming),
                    };
                    (s.update(p, e), Some(StreamUpdateView::Scheduled(e.stream)), reset_action(e, now))
                },
                VideoUpdateView::Started(_) => {
                    let e = IndexEntryView {
                        queued: old.queued,
                        stream: with_state(old.stream, VideoStatus::Live),
                    };
                    (s.update(p, e), Some(StreamUpdateView::Started(e.stream)), None)
                },
                VideoUpdateView::Ended(_) => {
                    let e = IndexEntryView {
                        queued: old.queued,
                        stream: with_state(old.stream, VideoStatus::Past),
                    };
                    (s.update(p, e), Some(StreamUpdateView::Ended(id)), None)
                },
                VideoUpdateView::Unscheduled(_) => (
                    s.remove(p),
                    Some(StreamUpdateView::Unscheduled(id)),
                    if old.queued {
                        Some(QueueActionView::Remove { id })
                    } else {
                        None
                    },
                ),
                VideoUpdateView::Renamed { id: _, new_name } => {
                    let e = IndexEntryView {
                        queued: old.queued,
                        stream: with_title(old.stream, new_name),
                    };
                    (s.update(p, e), Some(StreamUpdateView::Renamed(id, new_name)), None)
                },
                VideoUpdateView::Rescheduled { id: _, new_start } => {
                    let e = IndexEntryView {
                        queued: old.queued,
                        stream: with_start(old.stream, new_start),
                    };
                    (
                        s.update(p, e),
                        Some(StreamUpdateView::Rescheduled(id, new_start)),
                        reset_action(e, now),
                    )
                },
            }
        },
    }
}

/// The index of tracked streams, each with whether a timer for its start is
/// queued; no stream stands in it twice.
pub struct StreamIndex {
    entries: Vec<IndexEntry>,
}

impl View for StreamIndex {
    type V = Seq<IndexEntryView>;

    closed spec fn view(&self) -> Seq<IndexEntryView> {
        entry_views(self.entries@)
    }
}

impl StreamIndex {
    pub closed spec fn wf(&self) -> bool {
        distinct_ids(self@)
    }

    /// An empty index.
    pub fn new() -> (r: StreamIndex)
        ensures
            r.wf(),
            r@ == Seq::<IndexEntryView>::empty(),
    {
        let r = StreamIndex { entries: Vec::new() };
        assert(r@ =~= Seq::<IndexEntryView>::empty());
        r
    }

    /// Where the stream `id` stands in the index.
    pub fn find(&self, id: &str) -> (r: Option<usize>)
        ensures
            match r {
                Some(i) => pos_of(self@, id@) == Some(i as int),
                None => pos_of(self@, id@) is None,
            },
    {
        let mut i: usize = self.entries.len();
        assert(self@.take(i as int) =~= self@);
        while i > 0
            invariant
                i <= self.entries.len(),
                self@ == entry_views(self.entries@),
                pos_of(self@, id@) == pos_of(self@.take(i as int), id@),
            decreases i,
        {
            let ghost t = self@.take(i as int);
            assert(t.drop_last() =~= self@.take(i - 1));
            assert(t.last() == self.entries@[i - 1]@);
            if str_eq(self.entries[i - 1].stream.id.as_str(), id) {
                return Some(i - 1);
            }
            i -= 1;
        }
        None
    }

    /// The stream id that an update is about.
    fn update_id(update: &VideoUpdate) -> (r: String)
        ensures
            r@ == match update@ {
                VideoUpdateView::Scheduled(id) => id,
                VideoUpdateView::Started(id) => id,
                VideoUpdateView::Ended(id) => id,
                VideoUpdateView::Unscheduled(id) => id,
                VideoUpdateView::Renamed { id, new_name: _ } => id,
                VideoUpdateView::Rescheduled { id, new_start: _ } => id,
            },
    {
        match update {
            VideoUpdate::Scheduled(id) => id.clone(),
            VideoUpdate::Started(id) => id.clone(),
            VideoUpdate::Ended(id) => id.clone(),
            VideoUpdate::Unscheduled(id) => id.clone(),
            VideoUpdate::Renamed { id, new_name: _ } => id.clone(),
            VideoUpdate::Rescheduled { id, new_start: _ } => id.clone(),
        }
    }

    /// The timer reset that the entry's start asks for, if its timer is queued.
    fn reset_for(e: &IndexEntry, now: i64) -> (r: Option<QueueAction>)
        ensures
            opt_action_view(r) == reset_action(e@, now),
    {
        if e.queued {
            match get_duration_until_stream(&e.stream, now) {
                Some(d) => Some(QueueAction::Reset { id: e.stream.id.clone(), delay: d }),
                None => None,
            }
        } else {
            None
        }
    }

    /// Applies a change that Holodex reported: returns what to announce and
    /// how the stream's timer changes.
    pub fn apply_update(&mut self, update: VideoUpdate, now: i64) -> (r: (
        Option<StreamUpdate>,
        Option<QueueAction>,
    ))
        requires
            old(self).wf(),
        ensures
            final(self).wf(),
            applied(old(self)@, update@, now) == (
                final(self)@,
                opt_update_view(r.0),
                opt_action_view(r.1),
            ),
    {
        let ghost s = self@;
        let id = Self::update_id(&update);
        let p = match self.find(id.as_str()) {
            Some(p) => p,
            None => {
                return (None, None);
            },
        };
        proof {
            lemma_pos_of(s, id@);
        }
        let mut e = self.entries.remove(p);
        assert(e@ == s[p as int]);
        let r = match update {
            VideoUpdate::Scheduled(_) => {
                e.stream.state = VideoStatus::Upcoming;
                let action = Self::reset_for(&e, now);
                let out = e.stream.copy();
                (Some(StreamUpdate::Scheduled(out)), action)
            },
            VideoUpdate::Started(_) => {
                e.stream.state = VideoStatus::Live;
                let out = e.stream.copy();
                (Some(StreamUpdate::Started(out)), None)
            },
            VideoUpdate::Ended(uid) => {
                e.stream.state = VideoStatus::Past;
                (Some(StreamUpdate::Ended(uid)), None)
            },
            VideoUpdate::Unscheduled(uid) => {
                let action = if e.queued {
                    Some(QueueAction::Remove { id: uid.clone() })
                } else {
                    None
                };
                assert(self@ =~= s.remove(p as int));
                proof {
                    assert forall|i: int, j: int|
                        0 <= i < self@.len() && 0 <= j < self@.len() && i != j implies
                        self@[i].stream.id != self@[j].stream.id by {
                        let a = if i < p { i } else { i + 1 };
                        let b = if j < p { j } else { j + 1 };
                        assert(self@[i] == s[a] && self@[j] == s[b]);
                    }
                }
                return (Some(StreamUpdate::Unscheduled(uid)), action);
            },
            VideoUpdate::Renamed { id: uid, new_name } => {
                e.stream.title = new_name.clone();
                (Some(StreamUpdate::Renamed(uid, new_name)), None)
            },
            VideoUpdate::Rescheduled { id: uid, new_start } => {
                e.stream.start_at = new_start;
                let action = Self::reset_for(&e, now);
                (Some(StreamUpdate::Rescheduled(uid, new_start)), action)
            },
        };
        let ghost ev = e@;
        self.entries.insert(p, e);
        assert(self@ =~= s.update(p as int, ev));
        proof {
            assert forall|i: int, j: int|
                0 <= i < self@.len() && 0 <= j < self@.len() && i != j implies
                self@[i].stream.id != self@[j].stream.id by {
                assert(i != p ==> self@[i] == s[i]);
                assert(j != p ==> self@[j] == s[j]);
            }
        }
        r
    }
}


/// The index after `e` is put in it: in place of the entry with the same id,
/// else at the end.
pub open spec fn inserted(s: Seq<IndexEntryView>, e: IndexEntryView) -> Seq<IndexEntryView> {
    match pos_of(s, e.stream.id) {
        Some(p) => s.update(p, e),
        None => s.push(e),
    }
}

pub proof fn lemma_inserted_distinct(s: Seq<IndexEntryView>, e: IndexEntryView)
    requires
        distinct_ids(s),
    ensures
        distinct_ids(inserted(s, e)),
        pos_of(inserted(s, e), e.stream.id) is Some,
{
    lemma_pos_of(s, e.stream.id);
    let t = inserted(s, e);
    match pos_of(s, e.stream.id) {
        Some(p) => {
            assert forall|i: int, j: int|
                0 <= i < t.len() && 0 <= j < t.len() && i != j implies t[i].stream.id
                    != t[j].stream.id by {
                assert(i != p ==> t[i] == s[i]);
                assert(j != p ==> t[j] == s[j]);
            }
        },
        None => {
            assert forall|i: int, j: int|
                0 <= i < t.len() && 0 <= j < t.len() && i != j implies t[i].stream.id
                    != t[j].stream.id by {
                assert(i < s.len() ==> t[i] == s[i]);
                assert(j < s.len() ==> t[j] == s[j]);
            }
        },
    }
    lemma_pos_of(t, e.stream.id);
    assert(t[pos_of(s, e.stream.id).unwrap_or(s.len() as int)].stream.id == e.stream.id);
}

pub open spec fn opt_seq<T>(o: Option<T>) -> Seq<T> {
    match o {
        Some(x) => seq![x],
        None => Seq::empty(),
    }
}

/// How a stream found at start-up enters the index at time `now`: `None` for an
/// upcoming stream more than two minutes late, which is left out; else with no
/// timer (`Some(None)`) unless it is upcoming, when its timer fires after the
/// time left to its start, or at once.
pub open spec fn initial_plan(l: LivestreamView, now: i64) -> Option<Option<u64>> {
    if l.state != VideoStatus::Upcoming {
        Some(None)
    } else if l.start_at >= now {
        Some(delay_until(l.start_at, now))
    } else if now - l.start_at > 120_000 {
        None
    } else {
        Some(Some(0u64))
    }
}

/// The index and the timers that the streams found at start-up give.
pub open spec fn initial_fold(ls: Seq<LivestreamView>, now: i64) -> (
    Seq<IndexEntryView>,
    Seq<QueueActionView>,
)
    decreases ls.len(),
{
    if ls.len() == 0 {
        (Seq::empty(), Seq::empty())
    } else {
        let prev = initial_fold(ls.drop_last(), now);
        let l = ls.last();
        match initial_plan(l, now) {
            None => prev,
            Some(None) => (inserted(prev.0, IndexEntryView { queued: false, stream: l }), prev.1),
            Some(Some(d)) => (
                inserted(prev.0, IndexEntryView { queued: true, stream: l }),
                prev.1.push(QueueActionView::Insert { id: l.id, delay: d }),
            ),
        }
    }
}

/// The index entries of the videos that are kept, in order.
pub open spec fn processed_all(videos: Seq<Video>, tv: Seq<TalentView>) -> Seq<LivestreamView>
    decreases videos.len(),
{
    if videos.len() == 0 {
        Seq::empty()
    } else {
        processed_all(videos.drop_last(), tv) + opt_seq(processed(videos.last(), tv))
    }
}

/// What the index gives for an id after an insertion: the inserted entry
/// for its own id; for any other id, what it gave before.
pub proof fn lemma_find_after_insert(s: Seq<IndexEntryView>, e: IndexEntryView, id: Seq<char>)
    requires
        distinct_ids(s),
    ensures
        ({
            let t = inserted(s, e);
            if id == e.stream.id {
                pos_of(t, id) matches Some(p) && t[p] == e
            } else {
                match (pos_of(s, id), pos_of(t, id)) {
                    (Some(a), Some(b)) => s[a] == t[b],
                    (None, None) => true,
                    _ => false,
                }
            }
        }),
{
    let t = inserted(s, e);
    lemma_inserted_distinct(s, e);
    lemma_pos_of(s, e.stream.id);
    lemma_pos_of(s, id);
    lemma_pos_of(t, id);
    match pos_of(s, e.stream.id) {
        Some(p) => {
            assert(t[p] == e);
            if id == e.stream.id {
                lemma_pos_of_unique(t, p);
            } else {
                if pos_of(s, id) is Some {
                    let a = pos_of(s, id).unwrap();
                    assert(t[a] == s[a]);
                    lemma_pos_of_unique(t, a);
                }
                if pos_of(t, id) is Some {
                    let b = pos_of(t, id).unwrap();
                    assert(t[b] == s[b]);
                }
            }
        },
        None => {
            assert(t[s.len() as int] == e);
            if id == e.stream.id {
                lemma_pos_of_unique(t, s.len() as int);
            } else {
                if pos_of(s, id) is Some {
                    let a = pos_of(s, id).unwrap();
                    assert(t[a] == s[a]);
                    lemma_pos_of_unique(t, a);
                }
                if pos_of(t, id) is Some {
                    let b = pos_of(t, id).unwrap();
                    assert(b < s.len() ==> t[b] == s[b]);
                }
            }
        },
    }
}

impl StreamIndex {
    /// Puts `stream` in the index, in place of an entry with the same id.
    pub fn insert(&mut self, stream: Livestream, queued: bool)
        requires
            old(self).wf(),
        ensures
            final(self).wf(),
            final(self)@ == inserted(old(self)@, IndexEntryView { queued, stream: stream@ }),
    {
        let ghost s = self@;
        let ghost e = IndexEntryView { queued, stream: stream@ };
        proof {
            lemma_inserted_distinct(s, e);
            lemma_pos_of(s, e.stream.id);
        }
        match self.find(stream.id.as_str()) {
            Some(p) => {
                let _ = self.entries.remove(p);
                self.entries.insert(p, IndexEntry { queued, stream });
                assert(self@ =~= s.update(p as int, e));
            },
            None => {
                self.entries.push(IndexEntry { queued, stream });
                assert(self@ =~= s.push(e));
            },
        }
    }

    /// The index that the videos found at start-up give at time `now`, and the
    /// timers to start for the upcoming ones.
    pub fn initial(videos: Vec<Video>, talents: &Vec<Talent>, now: i64) -> (r: (
        StreamIndex,
        Vec<QueueAction>,
    ))
        ensures
            r.0.wf(),
            (r.0@, queue_action_views(r.1@)) == initial_fold(
                processed_all(videos@, talent_views(talents@)),
                now,
            ),
    {
        let ghost tv = talent_views(talents@);
        let ghost all = videos@;
        let mut index = StreamIndex::new();
        let mut actions: Vec<QueueAction> = Vec::new();
        let mut rest = videos;
        let n: usize = rest.len();
        assert(all.len() == n);
        let mut k: usize = 0;
        let ghost mut ls: Seq<LivestreamView> = Seq::empty();
        assert(all.take(0) =~= Seq::<Video>::empty());
        assert(initial_fold(ls, now).0 =~= index@);
        assert(initial_fold(ls, now).1 =~= queue_action_views(actions@));
        while rest.len() > 0
            invariant
                k + rest.len() == all.len(),
                all.len() <= usize::MAX,
                rest@ == all.skip(k as int),
                tv == talent_views(talents@),
                ls == processed_all(all.take(k as int), tv),
                index.wf(),
                (index@, queue_action_views(actions@)) == initial_fold(ls, now),
            decreases rest.len(),
        {
            let video = rest.remove(0);
            assert(video == all[k as int]);
            assert(all.take(k + 1).drop_last() =~= all.take(k as int));
            let ghost prev_ls = ls;
            let ghost prev_actions = actions@;
            match process_stream(video, talents) {
                Some(stream) => {
                    let ghost l = stream@;
                    proof {
                        ls = ls.push(l);
                        assert(ls =~= prev_ls + opt_seq(Some(l)));
                        assert(ls.drop_last() =~= prev_ls);
                    }
                    if stream.state != VideoStatus::Upcoming {
                        index.insert(stream, false);
                    } else if stream.start_at >= now {
                        let d = get_duration_until_stream(&stream, now);
                        match d {
                            Some(d) => {
                                let id = stream.id.clone();
                                index.insert(stream, true);
                                actions.push(QueueAction::Insert { id, delay: d });
                                assert(queue_action_views(actions@) =~= queue_action_views(
                                    prev_actions,
                                ).push(QueueActionView::Insert { id: l.id, delay: d }));
                            },
                            None => {},
                        }
                    } else if now as i128 - stream.start_at as i128 > 120_000 {
                    } else {
                        let id = stream.id.clone();
                        index.insert(stream, true);
                        actions.push(QueueAction::Insert { id, delay: 0 });
                        assert(queue_action_views(actions@) =~= queue_action_views(
                            prev_actions,
                        ).push(QueueActionView::Insert { id: l.id, delay: 0 }));
                    }
                },
                None => {
                    assert(ls =~= prev_ls + opt_seq(None::<LivestreamView>));
                },
            }
            k += 1;
        }
        assert(all.take(k as int) =~= all);
        (index, actions)
    }
}


/// Whether a stream in this state is still checked with Holodex.
pub open spec fn tracked_state(st: VideoStatus) -> bool {
    st == VideoStatus::New || st == VideoStatus::Upcoming || st == VideoStatus::Live
}

pub open spec fn id_views(v: Seq<String>) -> Seq<Seq<char>> {
    v.map_values(|s: String| s@)
}

/// The ids of the streams that are still checked with Holodex, in index order.
pub open spec fn ids_to_update(s: Seq<IndexEntryView>) -> Seq<Seq<char>>
    decreases s.len(),
{
    if s.len() == 0 {
        Seq::empty()
    } else {
        ids_to_update(s.drop_last()) + if tracked_state(s.last().stream.state) {
            seq![s.last().stream.id]
        } else {
            Seq::empty()
        }
    }
}

/// The changes that Holodex's reports `videos` make to the index `s`, in the
/// order of the reports; a report of a stream that is not in the index gives
/// none.
pub open spec fn all_updates(videos: Seq<Video>, s: Seq<IndexEntryView>) -> Seq<VideoUpdateView>
    decreases videos.len(),
{
    if videos.len() == 0 {
        Seq::empty()
    } else {
        all_updates(videos.drop_last(), s) + match pos_of(s, videos.last().id@) {
            Some(p) => updates_for(s[p].stream, videos.last()),
            None => Seq::empty(),
        }
    }
}

/// The index, the announcements and the timer changes after applying `us` in
/// order.
pub open spec fn applied_all(s: Seq<IndexEntryView>, us: Seq<VideoUpdateView>, now: i64) -> (
    Seq<IndexEntryView>,
    Seq<StreamUpdateView>,
    Seq<QueueActionView>,
)
    decreases us.len(),
{
    if us.len() == 0 {
        (s, Seq::empty(), Seq::empty())
    } else {
        let prev = applied_all(s, us.drop_last(), now);
        let r = applied(prev.0, us.last(), now);
        (r.0, prev.1 + opt_seq(r.1), prev.2 + opt_seq(r.2))
    }
}

/// The timer of a newly found stream: one for an upcoming stream whose start is
/// still ahead.
pub open spec fn new_plan(l: LivestreamView, now: i64) -> Option<u64> {
    if l.state == VideoStatus::Upcoming && l.start_at > now {
        Some((l.start_at - now) as u64)
    } else {
        None
    }
}

/// The index, the announcements and the timers after adding the newly found
/// streams `ls` in order; each is announced as scheduled.
pub open spec fn added_fold(s: Seq<IndexEntryView>, ls: Seq<LivestreamView>, now: i64) -> (
    Seq<IndexEntryView>,
    Seq<StreamUpdateView>,
    Seq<QueueActionView>,
)
    decreases ls.len(),
{
    if ls.len() == 0 {
        (s, Seq::empty(), Seq::empty())
    } else {
        let prev = added_fold(s, ls.drop_last(), now);
        let l = ls.last();
        match new_plan(l, now) {
            Some(d) => (
                inserted(prev.0, IndexEntryView { queued: true, stream: l }),
                prev.1.push(StreamUpdateView::Scheduled(l)),
                prev.2.push(QueueActionView::Insert { id: l.id, delay: d }),
            ),
            None => (
                inserted(prev.0, IndexEntryView { queued: false, stream: l }),
                prev.1.push(StreamUpdateView::Scheduled(l)),
                prev.2,
            ),
        }
    }
}

/// The index entries of the reported videos that the index `s` does not hold
/// yet and that are kept.
pub open spec fn unknown_processed(s: Seq<IndexEntryView>, videos: Seq<Video>, tv: Seq<TalentView>) -> Seq<
    LivestreamView,
>
    decreases videos.len(),
{
    if videos.len() == 0 {
        Seq::empty()
    } else {
        unknown_processed(s, videos.drop_last(), tv) + if pos_of(s, videos.last().id@) is None {
            opt_seq(processed(videos.last(), tv))
        } else {
            Seq::empty()
        }
    }
}

/// One poll of Holodex: the reports `checked` on the tracked streams are
/// turned into updates against the index and applied, then the streams of
/// `fresh` that the index does not hold yet are added.
pub open spec fn polled(
    s: Seq<IndexEntryView>,
    checked: Seq<Video>,
    fresh: Seq<Video>,
    tv: Seq<TalentView>,
    now: i64,
) -> (Seq<IndexEntryView>, Seq<StreamUpdateView>, Seq<QueueActionView>) {
    let a = applied_all(s, all_updates(checked, s), now);
    let b = added_fold(a.0, unknown_processed(a.0, fresh, tv), now);
    (b.0, a.1 + b.1, a.2 + b.2)
}

impl StreamIndex {
    /// The ids of the streams to check with Holodex: those that are new,
    /// upcoming or live.
    pub fn streams_to_update(&self) -> (r: Vec<String>)
        ensures
            id_views(r@) == ids_to_update(self@),
    {
        let mut r: Vec<String> = Vec::new();
        let mut i: usize = 0;
        assert(id_views(r@) =~= ids_to_update(self@.take(0)));
        while i < self.entries.len()
            invariant
                i <= self.entries.len(),
                self@ == entry_views(self.entries@),
                id_views(r@) == ids_to_update(self@.take(i as int)),
            decreases self.entries.len() - i,
        {
            let ghost prev = id_views(r@);
            let e = &self.entries[i];
            assert(self@.take(i + 1).drop_last() =~= self@.take(i as int));
            assert(self@.take(i + 1).last() == e@);
            if e.stream.state == VideoStatus::New || e.stream.state == VideoStatus::Upcoming
                || e.stream.state == VideoStatus::Live {
                r.push(e.stream.id.clone());
                assert(id_views(r@) =~= prev + seq![e.stream.id@]);
            } else {
                assert(id_views(r@) =~= prev + Seq::<Seq<char>>::empty());
            }
            i += 1;
        }
        assert(self@.take(i as int) =~= self@);
        r
    }

    /// Copies of the streams in the index, in order.
    pub fn snapshot(&self) -> (r: Vec<Livestream>)
        ensures
            r@.len() == self@.len(),
            forall|i: int| 0 <= i < r@.len() ==> #[trigger] r@[i]@ == self@[i].stream,
    {
        let mut r: Vec<Livestream> = Vec::new();
        let mut i: usize = 0;
        while i < self.entries.len()
            invariant
                i <= self.entries.len(),
                self@ == entry_views(self.entries@),
                r@.len() == i,
                forall|j: int| 0 <= j < i ==> #[trigger] r@[j]@ == self@[j].stream,
            decreases self.entries.len() - i,
        {
            r.push(self.entries[i].stream.copy());
            i += 1;
        }
        r
    }
}

/// The changes that Holodex's reports `videos` make to the streams in `index`.
pub fn check_stream_updates(videos: &Vec<Video>, index: &StreamIndex) -> (r: Vec<VideoUpdate>)
    ensures
        video_update_views(r@) == all_updates(videos@, index@),
{
    let mut r: Vec<VideoUpdate> = Vec::new();
    let mut i: usize = 0;
    assert(video_update_views(r@) =~= all_updates(videos@.take(0), index@));
    while i < videos.len()
        invariant
            i <= videos.len(),
            video_update_views(r@) == all_updates(videos@.take(i as int), index@),
        decreases videos.len() - i,
    {
        let ghost prev = video_update_views(r@);
        assert(videos@.take(i + 1).drop_last() =~= videos@.take(i as int));
        assert(videos@.take(i + 1).last() == videos@[i as int]);
        match index.find(videos[i].id.as_str()) {
            Some(p) => {
                proof {
                    lemma_pos_of(index@, videos@[i as int].id@);
                }
                let mut u = updates_for_video(&index.entries[p].stream, &videos[i]);
                assert(index.entries@[p as int]@ == index@[p as int]);
                let ghost uv = video_update_views(u@);
                r.append(&mut u);
                assert(video_update_views(r@) =~= prev + uv);
            },
            None => {
                assert(video_update_views(r@) =~= prev + Seq::<VideoUpdateView>::empty());
            },
        }
        i += 1;
    }
    assert(videos@.take(i as int) =~= videos@);
    r
}


impl StreamIndex {
    /// Applies Holodex's changes in order.
    fn apply_updates(&mut self, updates: Vec<VideoUpdate>, now: i64) -> (r: (
        Vec<StreamUpdate>,
        Vec<QueueAction>,
    ))
        requires
            old(self).wf(),
        ensures
            final(self).wf(),
            (final(self)@, stream_update_views(r.0@), queue_action_views(r.1@)) == applied_all(
                old(self)@,
                video_update_views(updates@),
                now,
            ),
    {
        let ghost s0 = self@;
        let ghost us = video_update_views(updates@);
        let mut out: Vec<StreamUpdate> = Vec::new();
        let mut actions: Vec<QueueAction> = Vec::new();
        let mut rest = updates;
        let n: usize = rest.len();
        assert(us.len() == n);
        let mut k: usize = 0;
        assert(us.take(0) =~= Seq::<VideoUpdateView>::empty());
        assert(stream_update_views(out@) =~= Seq::<StreamUpdateView>::empty());
        assert(queue_action_views(actions@) =~= Seq::<QueueActionView>::empty());
        while rest.len() > 0
            invariant
                k + rest.len() == us.len(),
                us.len() <= usize::MAX,
                video_update_views(rest@) == us.skip(k as int),
                self.wf(),
                (self@, stream_update_views(out@), queue_action_views(actions@)) == applied_all(
                    s0,
                    us.take(k as int),
                    now,
                ),
            decreases rest.len(),
        {
            let ghost rv = rest@;
            let u = rest.remove(0);
            assert(u@ == video_update_views(rv)[0]);
            assert(video_update_views(rest@) =~= video_update_views(rv).skip(1));
            assert(us.take(k + 1).drop_last() =~= us.take(k as int));
            assert(us.take(k + 1).last() == u@);
            let ghost po = stream_update_views(out@);
            let ghost pa = queue_action_views(actions@);
            let (o, a) = self.apply_update(u, now);
            match o {
                Some(o) => {
                    out.push(o);
                },
                None => {},
            }
            match a {
                Some(a) => {
                    actions.push(a);
                },
                None => {},
            }
            assert(stream_update_views(out@) =~= po + opt_seq(opt_update_view(o)));
            assert(queue_action_views(actions@) =~= pa + opt_seq(opt_action_view(a)));
            k += 1;
        }
        assert(us.take(k as int) =~= us);
        (out, actions)
    }
}


impl StreamIndex {
    /// The index entries of the reported videos that the index does not hold
    /// yet and that are kept, in order.
    fn unknown_streams(&self, videos: Vec<Video>, talents: &Vec<Talent>) -> (r: Vec<Livestream>)
        ensures
            r@.len() == unknown_processed(self@, videos@, talent_views(talents@)).len(),
            forall|i: int|
                0 <= i < r@.len() ==> #[trigger] r@[i]@ == unknown_processed(
                    self@,
                    videos@,
                    talent_views(talents@),
                )[i],
    {
        let ghost tv = talent_views(talents@);
        let ghost all = videos@;
        let mut r: Vec<Livestream> = Vec::new();
        let mut rest = videos;
        let n: usize = rest.len();
        assert(all.len() == n);
        let mut k: usize = 0;
        let ghost mut ls: Seq<LivestreamView> = Seq::empty();
        assert(all.take(0) =~= Seq::<Video>::empty());
        while rest.len() > 0
            invariant
                k + rest.len() == all.len(),
                all.len() <= usize::MAX,
                rest@ == all.skip(k as int),
                tv == talent_views(talents@),
                ls == unknown_processed(self@, all.take(k as int), tv),
                r@.len() == ls.len(),
                forall|i: int| 0 <= i < r@.len() ==> #[trigger] r@[i]@ == ls[i],
            decreases rest.len(),
        {
            let video = rest.remove(0);
            assert(video == all[k as int]);
            assert(all.take(k + 1).drop_last() =~= all.take(k as int));
            assert(all.take(k + 1).last() == video);
            let ghost prev = ls;
            if self.find(video.id.as_str()).is_none() {
                match process_stream(video, talents) {
                    Some(stream) => {
                        proof {
                            ls = ls.push(stream@);
                            assert(ls =~= prev + opt_seq(Some(stream@)));
                        }
                        r.push(stream);
                    },
                    None => {
                        assert(ls =~= prev + opt_seq(None::<LivestreamView>));
                    },
                }
            } else {
                assert(ls =~= prev + Seq::<LivestreamView>::empty());
            }
            k += 1;
        }
        assert(all.take(k as int) =~= all);
        r
    }

    /// Adds newly found streams in order: each is announced as scheduled, and
    /// an upcoming one whose start is ahead gets a timer.
    fn add_streams(&mut self, streams: Vec<Livestream>, now: i64) -> (r: (
        Vec<StreamUpdate>,
        Vec<QueueAction>,
    ))
        requires
            old(self).wf(),
        ensures
            final(self).wf(),
            forall|ls: Seq<LivestreamView>|
                ls.len() == streams@.len() && (forall|i: int|
                    0 <= i < ls.len() ==> #[trigger] ls[i] == streams@[i]@) ==> (
                final(self)@,
                stream_update_views(r.0@),
                queue_action_views(r.1@),
            ) == added_fold(old(self)@, ls, now),
    {
        let ghost s0 = self@;
        let ghost all = streams@.map_values(|l: Livestream| l@);
        let mut out: Vec<StreamUpdate> = Vec::new();
        let mut actions: Vec<QueueAction> = Vec::new();
        let mut rest = streams;
        let n: usize = rest.len();
        assert(all.len() == n);
        let mut k: usize = 0;
        assert(all.take(0) =~= Seq::<LivestreamView>::empty());
        assert(stream_update_views(out@) =~= Seq::<StreamUpdateView>::empty());
        assert(queue_action_views(actions@) =~= Seq::<QueueActionView>::empty());
        while rest.len() > 0
            invariant
                k + rest.len() == all.len(),
                all.len() <= usize::MAX,
                rest@.map_values(|l: Livestream| l@) == all.skip(k as int),
                self.wf(),
                (self@, stream_update_views(out@), queue_action_views(actions@)) == added_fold(
                    s0,
                    all.take(k as int),
                    now,
                ),
            decreases rest.len(),
        {
            let ghost rv = rest@;
            let stream = rest.remove(0);
            assert(stream@ == rv.map_values(|l: Livestream| l@)[0]);
            assert(rest@.map_values(|l: Livestream| l@) =~= rv.map_values(|l: Livestream| l@).skip(1));
            assert(all.take(k + 1).drop_last() =~= all.take(k as int));
            assert(all.take(k + 1).last() == stream@);
            let ghost po = stream_update_views(out@);
            let ghost pa = queue_action_views(actions@);
            out.push(StreamUpdate::Scheduled(stream.copy()));
            assert(stream_update_views(out@) =~= po.push(StreamUpdateView::Scheduled(stream@)));
            if stream.state == VideoStatus::Upcoming && stream.start_at > now {
                let d: i128 = stream.start_at as i128 - now as i128;
                let id = stream.id.clone();
                actions.push(QueueAction::Insert { id, delay: d as u64 });
                assert(queue_action_views(actions@) =~= pa.push(
                    QueueActionView::Insert { id: stream@.id, delay: (stream@.start_at - now) as u64 },
                ));
                proof {
                    lemma_inserted_distinct(self@, IndexEntryView { queued: true, stream: stream@ });
                }
                self.insert(stream, true);
            } else {
                proof {
                    lemma_inserted_distinct(self@, IndexEntryView { queued: false, stream: stream@ });
                }
                self.insert(stream, false);
            }
            k += 1;
        }
        assert(all.take(k as int) =~= all);
        assert forall|ls: Seq<LivestreamView>|
            ls.len() == all.len() && (forall|i: int|
                0 <= i < ls.len() ==> #[trigger] ls[i] == all[i]) implies ls == all by {
            assert(ls =~= all);
        }
        (out, actions)
    }

    /// Adds the reported videos that the index does not hold yet: returns the
    /// announcements and the timers to start.
    pub fn add_new_streams(&mut self, videos: Vec<Video>, talents: &Vec<Talent>, now: i64) -> (r: (
        Vec<StreamUpdate>,
        Vec<QueueAction>,
    ))
        requires
            old(self).wf(),
        ensures
            final(self).wf(),
            (final(self)@, stream_update_views(r.0@), queue_action_views(r.1@)) == added_fold(
                old(self)@,
                unknown_processed(old(self)@, videos@, talent_views(talents@)),
                now,
            ),
    {
        let fresh = self.unknown_streams(videos, talents);
        self.add_streams(fresh, now)
    }

    /// One poll of Holodex at time `now`: `checked` are its reports on the
    /// streams that `streams_to_update` named, `fresh` the videos it lists as
    /// new. Returns what to announce, in order, and the timer changes.
    pub fn poll_holodex(
        &mut self,
        checked: &Vec<Video>,
        fresh: Vec<Video>,
        talents: &Vec<Talent>,
        now: i64,
    ) -> (r: (Vec<StreamUpdate>, Vec<QueueAction>))
        requires
            old(self).wf(),
        ensures
            final(self).wf(),
            (final(self)@, stream_update_views(r.0@), queue_action_views(r.1@)) == polled(
                old(self)@,
                checked@,
                fresh@,
                talent_views(talents@),
                now,
            ),
    {
        let updates = check_stream_updates(checked, self);
        let (mut out, mut actions) = self.apply_updates(updates, now);
        let ghost o1 = stream_update_views(out@);
        let ghost a1 = queue_action_views(actions@);
        let (mut out2, mut actions2) = self.add_new_streams(fresh, talents, now);
        let ghost o2 = stream_update_views(out2@);
        let ghost a2 = queue_action_views(actions2@);
        out.append(&mut out2);
        actions.append(&mut actions2);
        assert(stream_update_views(out@) =~= o1 + o2);
        assert(queue_action_views(actions@) =~= a1 + a2);
        (out, actions)
    }
}


/// `s` without the id `id`, order kept.
pub open spec fn without(s: Seq<Seq<char>>, id: Seq<char>) -> Seq<Seq<char>>
    decreases s.len(),
{
    if s.len() == 0 {
        Seq::empty()
    } else {
        without(s.drop_last(), id) + if s.last() == id {
            Seq::empty()
        } else {
            seq![s.last()]
        }
    }
}

/// The remembered ids after `id` is put in a memory of `cap` ids, oldest
/// first: `id` becomes the newest, and the oldest is forgotten when there is
/// no room.
pub open spec fn remembered(s: Seq<Seq<char>>, cap: nat, id: Seq<char>) -> Seq<Seq<char>> {
    let t = without(s, id).push(id);
    if t.len() > cap {
        t.drop_first()
    } else {
        t
    }
}

/// An id just remembered is remembered, and a memory never holds more ids
/// than it has room for.
pub proof fn lemma_remembered_holds_id(s: Seq<Seq<char>>, cap: nat, id: Seq<char>)
    requires
        cap >= 1,
        s.len() <= cap,
    ensures
        remembered(s, cap, id).contains(id),
        remembered(s, cap, id).len() <= cap,
{
    lemma_without(s, id);
    let t = without(s, id).push(id);
    assert(t[t.len() - 1] == id);
    if t.len() > cap {
        assert(t.drop_first()[t.len() - 2] == id);
    }
}

proof fn lemma_without(s: Seq<Seq<char>>, id: Seq<char>)
    ensures
        without(s, id).len() <= s.len(),
        !without(s, id).contains(id),
        forall|x: Seq<char>| x != id && #[trigger] s.contains(x) ==> without(s, id).contains(x),
        forall|x: Seq<char>| #[trigger] without(s, id).contains(x) ==> s.contains(x),
    decreases s.len(),
{
    if s.len() > 0 {
        lemma_without(s.drop_last(), id);
        let w = without(s.drop_last(), id);
        assert forall|x: Seq<char>| x != id && s.contains(x) implies without(s, id).contains(x) by {
            let j = choose|j: int| 0 <= j < s.len() && s[j] == x;
            if j < s.len() - 1 {
                assert(s.drop_last()[j] == x);
                assert(s.drop_last().contains(x));
                let i = choose|i: int| 0 <= i < w.len() && w[i] == x;
                assert(without(s, id)[i] == x);
            } else {
                assert(without(s, id)[w.len() as int] == x);
            }
        }
        assert forall|x: Seq<char>| #[trigger] without(s, id).contains(x) implies s.contains(x) by {
            let i = choose|i: int| 0 <= i < without(s, id).len() && without(s, id)[i] == x;
            if i < w.len() {
                assert(w[i] == x);
                assert(w.contains(x));
                assert(s.drop_last().contains(x));
                let j = choose|j: int| 0 <= j < s.drop_last().len() && s.drop_last()[j] == x;
                assert(s[j] == x);
            } else {
                assert(s[s.len() - 1] == x);
            }
        }
        if without(s, id).contains(id) {
            let i = choose|i: int| 0 <= i < without(s, id).len() && without(s, id)[i] == id;
            if i < w.len() {
                assert(w[i] == id);
            }
        }
    }
}

proof fn lemma_without_absent(s: Seq<Seq<char>>, id: Seq<char>)
    requires
        !s.contains(id),
    ensures
        without(s, id) == s,
    decreases s.len(),
{
    if s.len() > 0 {
        let d = s.drop_last();
        assert(!d.contains(id)) by {
            if d.contains(id) {
                let j = choose|j: int| 0 <= j < d.len() && d[j] == id;
                assert(s[j] == id);
            }
        }
        lemma_without_absent(d, id);
        assert(s[s.len() - 1] == s.last());
        assert(without(s, id) =~= s);
    }
}

proof fn lemma_without_distinct(s: Seq<Seq<char>>, id: Seq<char>)
    requires
        s.no_duplicates(),
    ensures
        without(s, id).no_duplicates(),
    decreases s.len(),
{
    if s.len() > 0 {
        let d = s.drop_last();
        assert(d.no_duplicates()) by {
            assert forall|i: int, j: int| 0 <= i < d.len() && 0 <= j < d.len() && i != j implies d[i]
                != d[j] by {
                assert(s[i] != s[j]);
            }
        }
        lemma_without_distinct(d, id);
        lemma_without(d, id);
        let w = without(d, id);
        if s.last() != id {
            assert(!w.contains(s.last())) by {
                if w.contains(s.last()) {
                    assert(d.contains(s.last()));
                    let j = choose|j: int| 0 <= j < d.len() && d[j] == s.last();
                    assert(s[j] == s[s.len() - 1]);
                }
            }
            let t = w.push(s.last());
            assert(without(s, id) =~= t);
            assert forall|i: int, j: int| 0 <= i < t.len() && 0 <= j < t.len() && i != j implies t[i]
                != t[j] by {
                if i == w.len() as int {
                    assert(w[j] == t[j]);
                } else if j == w.len() as int {
                    assert(w[i] == t[i]);
                } else {
                    assert(w[i] != w[j]);
                }
            }
        } else {
            assert(without(s, id) =~= w);
        }
    }
}

/// Remembering an id keeps every id remembered once.
proof fn lemma_remembered_distinct(s: Seq<Seq<char>>, cap: nat, id: Seq<char>)
    requires
        s.no_duplicates(),
    ensures
        remembered(s, cap, id).no_duplicates(),
{
    lemma_without_distinct(s, id);
    lemma_without(s, id);
    let w = without(s, id);
    let t = w.push(id);
    assert forall|i: int, j: int| 0 <= i < t.len() && 0 <= j < t.len() && i != j implies t[i]
        != t[j] by {
        if i == w.len() as int {
            assert(t[j] == w[j]);
            assert(w.contains(w[j]));
        } else if j == w.len() as int {
            assert(t[i] == w[i]);
            assert(w.contains(w[i]));
        } else {
            assert(w[i] != w[j]);
        }
    }
    if t.len() > cap {
        let u = t.drop_first();
        assert forall|i: int, j: int| 0 <= i < u.len() && 0 <= j < u.len() && i != j implies u[i]
            != u[j] by {
            assert(t[i + 1] != t[j + 1]);
        }
    }
}

/// The memory after the ids of `ids` are remembered in turn, starting from `s`.
pub open spec fn remembered_all(s: Seq<Seq<char>>, cap: nat, ids: Seq<Seq<char>>) -> Seq<Seq<char>>
    decreases ids.len(),
{
    if ids.len() == 0 {
        s
    } else {
        remembered(remembered_all(s, cap, ids.drop_last()), cap, ids.last())
    }
}

/// What is saved of a memory is what loading it gives back: remembering the
/// saved ids (each once, no more than there is room for) in their order, in
/// an empty memory of the same room, gives exactly those ids in that order.
pub proof fn lemma_saved_memory_reloads(saved: Seq<Seq<char>>, cap: nat)
    requires
        saved.no_duplicates(),
        saved.len() <= cap,
    ensures
        remembered_all(Seq::empty(), cap, saved) == saved,
    decreases saved.len(),
{
    if saved.len() > 0 {
        let d = saved.drop_last();
        assert(d.no_duplicates()) by {
            assert forall|i: int, j: int| 0 <= i < d.len() && 0 <= j < d.len() && i != j implies d[i]
                != d[j] by {
                assert(saved[i] != saved[j]);
            }
        }
        lemma_saved_memory_reloads(d, cap);
        assert(!d.contains(saved.last())) by {
            if d.contains(saved.last()) {
                let j = choose|j: int| 0 <= j < d.len() && d[j] == saved.last();
                assert(saved[j] == saved[saved.len() - 1]);
            }
        }
        lemma_without_absent(d, saved.last());
        assert(d.push(saved.last()) =~= saved);
    }
}

/// The ids of the streams whose start was already announced, oldest first,
/// at most `capacity` of them.
pub struct NotifiedStreams {
    ids: Vec<String>,
    capacity: usize,
}

impl View for NotifiedStreams {
    type V = Seq<Seq<char>>;

    closed spec fn view(&self) -> Seq<Seq<char>> {
        id_views(self.ids@)
    }
}

impl NotifiedStreams {
    pub closed spec fn cap(&self) -> nat {
        self.capacity as nat
    }

    pub closed spec fn wf(&self) -> bool {
        self.capacity > 0 && self.ids@.len() <= self.capacity && self@.no_duplicates()
    }

    /// A well-formed memory has room for at least one id, holds no more ids
    /// than it has room for, and holds each id once.
    pub proof fn lemma_wf_bounds(&self)
        requires
            self.wf(),
        ensures
            self.cap() > 0,
            self@.len() <= self.cap(),
            self@.no_duplicates(),
    {
        assert(self@.len() == self.ids@.len());
    }

    /// An empty memory of at most `capacity` ids.
    pub fn new(capacity: usize) -> (r: NotifiedStreams)
        requires
            capacity > 0,
        ensures
            r.wf(),
            r@ == Seq::<Seq<char>>::empty(),
            r.cap() == capacity,
    {
        let r = NotifiedStreams { ids: Vec::new(), capacity };
        assert(r@ =~= Seq::<Seq<char>>::empty());
        r
    }

    /// Whether the start of stream `id` was announced.
    pub fn contains(&self, id: &str) -> (r: bool)
        ensures
            r == self@.contains(id@),
    {
        let mut i: usize = 0;
        while i < self.ids.len()
            invariant
                i <= self.ids.len(),
                self@ == id_views(self.ids@),
                forall|j: int| 0 <= j < i ==> self@[j] != id@,
            decreases self.ids.len() - i,
        {
            if str_eq(self.ids[i].as_str(), id) {
                assert(self@[i as int] == id@);
                return true;
            }
            i += 1;
        }
        false
    }

    /// Remembers that the start of stream `id` was announced.
    pub fn put(&mut self, id: String)
        requires
            old(self).wf(),
        ensures
            final(self).wf(),
            final(self).cap() == old(self).cap(),
            final(self)@ == remembered(old(self)@, old(self).cap(), id@),
    {
        let ghost s = self@;
        proof {
            lemma_remembered_distinct(s, self.cap(), id@);
        }
        let mut kept: Vec<String> = Vec::new();
        let mut i: usize = 0;
        assert(id_views(kept@) =~= without(s.take(0), id@));
        while i < self.ids.len()
            invariant
                i <= self.ids.len(),
                s == id_views(self.ids@),
                id_views(kept@) == without(s.take(i as int), id@),
            decreases self.ids.len() - i,
        {
            let ghost prev = id_views(kept@);
            assert(s.take(i + 1).drop_last() =~= s.take(i as int));
            assert(s.take(i + 1).last() == self.ids@[i as int]@);
            if str_eq(self.ids[i].as_str(), id.as_str()) {
                assert(id_views(kept@) =~= prev + Seq::<Seq<char>>::empty());
            } else {
                kept.push(self.ids[i].clone());
                assert(id_views(kept@) =~= prev + seq![self.ids@[i as int]@]);
            }
            i += 1;
        }
        assert(s.take(i as int) =~= s);
        proof {
            lemma_without(s, id@);
        }
        let ghost w = id_views(kept@);
        kept.push(id);
        assert(id_views(kept@) =~= w.push(id@));
        if kept.len() > self.capacity {
            let _ = kept.remove(0);
            assert(id_views(kept@) =~= w.push(id@).drop_first());
        }
        self.ids = kept;
    }

    /// A memory of at most `capacity` ids that remembers the saved ids in
    /// their order, as the memory saved at the last shutdown is loaded.
    pub fn load(capacity: usize, saved: Vec<String>) -> (r: NotifiedStreams)
        requires
            capacity > 0,
        ensures
            r.wf(),
            r.cap() == capacity,
            r@ == remembered_all(Seq::empty(), capacity as nat, id_views(saved@)),
    {
        let ghost all = id_views(saved@);
        let mut r = NotifiedStreams::new(capacity);
        let n: usize = saved.len();
        assert(all.len() == n);
        let mut rest = saved;
        let mut k: usize = 0;
        assert(all.take(0) =~= Seq::<Seq<char>>::empty());
        while rest.len() > 0
            invariant
                all.len() <= usize::MAX,
                r.wf(),
                r.cap() == capacity,
                k + rest.len() == all.len(),
                id_views(rest@) == all.skip(k as int),
                r@ == remembered_all(Seq::empty(), capacity as nat, all.take(k as int)),
            decreases rest.len(),
        {
            let ghost rv = id_views(rest@);
            let id = rest.remove(0);
            assert(id@ == rv[0]);
            assert(id_views(rest@) =~= rv.drop_first());
            assert(all.take(k + 1).drop_last() =~= all.take(k as int));
            assert(all.take(k + 1).last() == all[k as int]);
            assert(all.skip(k as int)[0] == all[k as int]);
            assert(all.skip(k + 1) =~= all.skip(k as int).drop_first());
            r.put(id);
            k += 1;
        }
        assert(all.take(k as int) =~= all);
        r
    }

    /// The remembered ids, oldest first.
    pub fn ids(&self) -> (r: Vec<String>)
        ensures
            id_views(r@) == self@,
    {
        let mut r: Vec<String> = Vec::new();
        let mut i: usize = 0;
        while i < self.ids.len()
            invariant
                i <= self.ids.len(),
                self@ == id_views(self.ids@),
                id_views(r@) == self@.take(i as int),
            decreases self.ids.len() - i,
        {
            let ghost prev = id_views(r@);
            r.push(self.ids[i].clone());
            assert(id_views(r@) =~= prev.push(self.ids@[i as int]@));
            assert(self@[i as int] == self.ids@[i as int]@);
            assert(id_views(r@) =~= self@.take(i + 1));
            i += 1;
        }
        assert(self@.take(i as int) =~= self@);
        r
    }
}

/// What the firing of the timer of stream `id` does: the stream is marked
/// live and loses its timer; its start is announced unless it was announced
/// before, and is then remembered.
pub open spec fn started(
    s: Seq<IndexEntryView>,
    notified: Seq<Seq<char>>,
    cap: nat,
    id: Seq<char>,
) -> (Seq<IndexEntryView>, Seq<Seq<char>>, Option<LivestreamView>) {
    match pos_of(s, id) {
        None => (s, notified, None),
        Some(p) => {
            let e = IndexEntryView { queued: false, stream: with_state(s[p].stream, VideoStatus::Live) };
            if notified.contains(id) {
                (s.update(p, e), notified, None)
            } else {
                (s.update(p, e), remembered(notified, cap, id), Some(e.stream))
            }
        },
    }
}

impl StreamIndex {
    /// The timer of stream `id` fired: returns the stream to announce as
    /// started, if any.
    pub fn stream_started(&mut self, id: &str, notified: &mut NotifiedStreams) -> (r: Option<
        Livestream,
    >)
        requires
            old(self).wf(),
            old(notified).wf(),
        ensures
            final(self).wf(),
            final(notified).wf(),
            final(notified).cap() == old(notified).cap(),
            started(old(self)@, old(notified)@, old(notified).cap(), id@) == (
                final(self)@,
                final(notified)@,
                opt_stream_view(r),
            ),
    {
        let ghost s = self@;
        let p = match self.find(id) {
            Some(p) => p,
            None => {
                return None;
            },
        };
        proof {
            lemma_pos_of(s, id@);
        }
        let mut e = self.entries.remove(p);
        e.queued = false;
        e.stream.state = VideoStatus::Live;
        let out = e.stream.copy();
        let ghost ev = e@;
        self.entries.insert(p, e);
        assert(self@ =~= s.update(p as int, ev));
        proof {
            assert forall|i: int, j: int|
                0 <= i < self@.len() && 0 <= j < self@.len() && i != j implies
                self@[i].stream.id != self@[j].stream.id by {
                assert(i != p ==> self@[i] == s[i]);
                assert(j != p ==> self@[j] == s[j]);
            }
        }
        if notified.contains(id) {
            None
        } else {
            let owned = out.id.clone();
            notified.put(owned);
            Some(out)
        }
    }
}

/// What the firing of a stream's timer sends: the live message to Discord,
/// and, when stream chats are enabled, the same stream as started to the chat
/// listeners.
#[derive(Debug)]
pub struct StartAnnouncement {
    pub live: Option<Livestream>,
    pub chat: Option<StreamUpdate>,
}

impl StreamIndex {
    /// The timer of stream `id` fired: the index and the memory change as
    /// `started` says; a stream not announced before is sent as live, and to
    /// the chat listeners too when `chat_enabled`.
    pub fn on_start_timer(&mut self, id: &str, notified: &mut NotifiedStreams, chat_enabled: bool) -> (r:
        StartAnnouncement)
        requires
            old(self).wf(),
            old(notified).wf(),
        ensures
            final(self).wf(),
            final(notified).wf(),
            final(notified).cap() == old(notified).cap(),
            started(old(self)@, old(notified)@, old(notified).cap(), id@) == (
                final(self)@,
                final(notified)@,
                opt_stream_view(r.live),
            ),
            match r.chat {
                Some(u) => chat_enabled && (r.live matches Some(l) && u@ == StreamUpdateView::Started(
                    l@,
                )),
                None => !chat_enabled || r.live is None,
            },
    {
        let live = self.stream_started(id, notified);
        let chat = match &live {
            Some(l) => if chat_enabled {
                Some(StreamUpdate::Started(l.copy()))
            } else {
                None
            },
            None => None,
        };
        StartAnnouncement { live, chat }
    }
}

/// What a poll of Holodex sends on: its updates go to the chat listeners,
/// and the index is published anew, only when stream chats are enabled (and,
/// for the index, when there was an update).
#[derive(Debug)]
pub struct PollBroadcast {
    pub updates: Vec<StreamUpdate>,
    pub publish_index: bool,
}

/// The updates of a poll to broadcast, and whether to publish the index.
pub fn poll_broadcast(chat_enabled: bool, updates: Vec<StreamUpdate>) -> (r: PollBroadcast)
    ensures
        chat_enabled ==> r.updates@ == updates@,
        !chat_enabled ==> r.updates@.len() == 0,
        r.publish_index == (chat_enabled && updates@.len() > 0),
{
    if chat_enabled {
        let publish_index = updates.len() > 0;
        PollBroadcast { updates, publish_index }
    } else {
        PollBroadcast { updates: Vec::new(), publish_index: false }
    }
}

/// The start of a stream is announced at most once while it is remembered:
/// when its timer fires a second time, nothing is announced.
pub proof fn lemma_started_announces_once(
    s: Seq<IndexEntryView>,
    notified: Seq<Seq<char>>,
    cap: nat,
    id: Seq<char>,
)
    requires
        cap > 0,
    ensures
        ({
            let first = started(s, notified, cap, id);
            started(first.0, first.1, cap, id).2 is None
        }),
{
    let first = started(s, notified, cap, id);
    lemma_pos_of(s, id);
    match pos_of(s, id) {
        None => {},
        Some(p) => {
            lemma_pos_of(first.0, id);
            if !notified.contains(id) {
                let t = without(notified, id).push(id);
                assert(t[t.len() - 1] == id);
                if t.len() > cap {
                    assert(t.drop_first()[t.len() - 2] == id);
                }
                assert(first.1.contains(id));
            }
        },
    }
}

} // verus!
