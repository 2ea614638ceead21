//! Types of the Twitter API v2 and the filtered stream's rules: the wire names
//! of the request parameters, rule strings and their limits, rate limits and
//! the bookkeeping of the rules that a stream has.

use vstd::prelude::*;
use vstd::string::*;
use vstd::std_specs::cmp::PartialEqSpec;
use crate::config::{Talent, TalentView};
use crate::holo::talent_views;
use crate::text::{
    chars_le, dec, lemma_chars_le_total, lemma_chars_le_trans, push_dec, push_str,
    str_eq, str_le, str_starts_with,
};

verus! {

/// An object that Twitter can include with a tweet.
#[derive(Debug, Clone, Copy, PartialEq, Eq, Structural)]
pub enum RequestedExpansion {
    AuthorId,
    ReferencedTweet,
    ReferencedTweetAuthor,
    InReplyTo,
    AttachedMedia,
    AttachedPoll,
    TaggedLocation,
    MentionedUser,
    PinnedTweet,
}

/// The name by which the API knows each value.
pub open spec fn expansion_name(x: RequestedExpansion) -> Seq<char> {
    match x {
        RequestedExpansion::AuthorId => "author_id"@,
        RequestedExpansion::ReferencedTweet => "referenced_tweets.id"@,
        RequestedExpansion::ReferencedTweetAuthor => "referenced_tweets.id.author_id"@,
        RequestedExpansion::InReplyTo => "in_reply_to_user_id"@,
        RequestedExpansion::AttachedMedia => "attachments.media_keys"@,
        RequestedExpansion::AttachedPoll => "attachments.poll_ids"@,
        RequestedExpansion::TaggedLocation => "geo.place_id"@,
        RequestedExpansion::MentionedUser => "entities.mentions.username"@,
        RequestedExpansion::PinnedTweet => "pinned_tweet_id"@,
    }
}

impl RequestedExpansion {
    /// The name by which the API knows the value.
    pub fn as_str(&self) -> (r: &'static str)
        ensures
            r@ == expansion_name(*self),
    {
        match self {
            RequestedExpansion::AuthorId => "author_id",
            RequestedExpansion::ReferencedTweet => "referenced_tweets.id",
            RequestedExpansion::ReferencedTweetAuthor => "referenced_tweets.id.author_id",
            RequestedExpansion::InReplyTo => "in_reply_to_user_id",
            RequestedExpansion::AttachedMedia => "attachments.media_keys",
            RequestedExpansion::AttachedPoll => "attachments.poll_ids",
            RequestedExpansion::TaggedLocation => "geo.place_id",
            RequestedExpansion::MentionedUser => "entities.mentions.username",
            RequestedExpansion::PinnedTweet => "pinned_tweet_id",
        }
    }
}

/// A field of a tweet that can be requested.
#[derive(Debug, Clone, Copy, PartialEq, Eq, Structural)]
pub enum TweetField {
    Attachments,
    AuthorId,
    ContextAnnotations,
    ConversationId,
    CreatedAt,
    Entities,
    Geo,
    InReplyToUserId,
    Lang,
    NonPublicMetrics,
    OrganicMetrics,
    PossiblySensitive,
    PromotedMetrics,
    ReferencedTweets,
    ReplySettings,
    Source,
    Withheld,
}

/// The name by which the API knows each value.
pub open spec fn tweet_field_name(x: TweetField) -> Seq<char> {
    match x {
        TweetField::Attachments => "attachments"@,
        TweetField::AuthorId => "author_id"@,
        TweetField::ContextAnnotations => "context_annotations"@,
        TweetField::ConversationId => "conversation_id"@,
        TweetField::CreatedAt => "created_at"@,
        TweetField::Entities => "entities"@,
        TweetField::Geo => "geo"@,
        TweetField::InReplyToUserId => "in_reply_to_user_id"@,
        TweetField::Lang => "lang"@,
        TweetField::NonPublicMetrics => "non_public_metrics"@,
        TweetField::OrganicMetrics => "organic_metrics"@,
        TweetField::PossiblySensitive => "possibly_sensitive"@,
        TweetField::PromotedMetrics => "promoted_metrics"@,
        TweetField::ReferencedTweets => "referenced_tweets"@,
        TweetField::ReplySettings => "reply_settings"@,
        TweetField::Source => "source"@,
        TweetField::Withheld => "withheld"@,
    }
}

impl TweetField {
    /// The name by which the API knows the value.
    pub fn as_str(&self) -> (r: &'static str)
        ensures
            r@ == tweet_field_name(*self),
    {
        match self {
            TweetField::Attachments => "attachments",
            TweetField::AuthorId => "author_id",
            TweetField::ContextAnnotations => "context_annotations",
            TweetField::ConversationId => "conversation_id",
            TweetField::CreatedAt => "created_at",
            TweetField::Entities => "entities",
            TweetField::Geo => "geo",
            TweetField::InReplyToUserId => "in_reply_to_user_id",
            TweetField::Lang => "lang",
            TweetField::NonPublicMetrics => "non_public_metrics",
            TweetField::OrganicMetrics => "organic_metrics",
            TweetField::PossiblySensitive => "possibly_sensitive",
            TweetField::PromotedMetrics => "promoted_metrics",
            TweetField::ReferencedTweets => "referenced_tweets",
            TweetField::ReplySettings => "reply_settings",
            TweetField::Source => "source",
            TweetField::Withheld => "withheld",
        }
    }
}

/// A field of a user that can be requested.
#[derive(Debug, Clone, Copy, PartialEq, Eq, Structural)]
pub enum UserField {
    CreatedAt,
    Description,
    Entities,
    Location,
    PinnedTweetId,
    ProfileImageUrl,
    Protected,
    PublicMetrics,
    Url,
    Verified,
    Withheld,
}

/// The name by which the API knows each value.
pub open spec fn user_field_name(x: UserField) -> Seq<char> {
    match x {
        UserField::CreatedAt => "created_at"@,
        UserField::Description => "description"@,
        UserField::Entities => "entities"@,
        UserField::Location => "location"@,
        UserField::PinnedTweetId => "pinned_tweet_id"@,
        UserField::ProfileImageUrl => "profile_image_url"@,
        UserField::Protected => "protected"@,
        UserField::PublicMetrics => "public_metrics"@,
        UserField::Url => "url"@,
        UserField::Verified => "verified"@,
        UserField::Withheld => "withheld"@,
    }
}

impl UserField {
    /// The name by which the API knows the value.
    pub fn as_str(&self) -> (r: &'static str)
        ensures
            r@ == user_field_name(*self),
    {
        match self {
            UserField::CreatedAt => "created_at",
            UserField::Description => "description",
            UserField::Entities => "entities",
            UserField::Location => "location",
            UserField::PinnedTweetId => "pinned_tweet_id",
            UserField::ProfileImageUrl => "profile_image_url",
            UserField::Protected => "protected",
            UserField::PublicMetrics => "public_metrics",
            UserField::Url => "url",
            UserField::Verified => "verified",
            UserField::Withheld => "withheld",
        }
    }
}

/// A field of a media object that can be requested.
#[derive(Debug, Clone, Copy, PartialEq, Eq, Structural)]
pub enum MediaField {
    Duration,
    Height,
    NonPublicMetrics,
    OrganicMetrics,
    PreviewImageUrl,
    PromotedMetrics,
    PublicMetrics,
    Width,
    AltText,
    Url,
}

/// The name by which the API knows each value.
pub open spec fn media_field_name(x: MediaField) -> Seq<char> {
    match x {
        MediaField::Duration => "duration_ms"@,
        MediaField::Height => "height"@,
        MediaField::NonPublicMetrics => "non_public_metrics"@,
        MediaField::OrganicMetrics => "organic_metrics"@,
        MediaField::PreviewImageUrl => "preview_image_url"@,
        MediaField::PromotedMetrics => "promoted_metrics"@,
        MediaField::PublicMetrics => "public_metrics"@,
        MediaField::Width => "width"@,
        MediaField::AltText => "alt_text"@,
        MediaField::Url => "url"@,
    }
}

impl MediaField {
    /// The name by which the API knows the value.
    pub fn as_str(&self) -> (r: &'static str)
        ensures
            r@ == media_field_name(*self),
    {
        match self {
            MediaField::Duration => "duration_ms",
            MediaField::Height => "height",
            MediaField::NonPublicMetrics => "non_public_metrics",
            MediaField::OrganicMetrics => "organic_metrics",
            MediaField::PreviewImageUrl => "preview_image_url",
            MediaField::PromotedMetrics => "promoted_metrics",
            MediaField::PublicMetrics => "public_metrics",
            MediaField::Width => "width",
            MediaField::AltText => "alt_text",
            MediaField::Url => "url",
        }
    }
}

/// A field of a poll that can be requested.
#[derive(Debug, Clone, Copy, PartialEq, Eq, Structural)]
pub enum PollField {
    Duration,
    EndDatetime,
    VotingStatus,
}

/// The name by which the API knows each value.
pub open spec fn poll_field_name(x: PollField) -> Seq<char> {
    match x {
        PollField::Duration => "duration_minutes"@,
        PollField::EndDatetime => "end_datetime"@,
        PollField::VotingStatus => "voting_status"@,
    }
}

impl PollField {
    /// The name by which the API knows the value.
    pub fn as_str(&self) -> (r: &'static str)
        ensures
            r@ == poll_field_name(*self),
    {
        match self {
            PollField::Duration => "duration_minutes",
            PollField::EndDatetime => "end_datetime",
            PollField::VotingStatus => "voting_status",
        }
    }
}

/// A field of a place that can be requested.
#[derive(Debug, Clone, Copy, PartialEq, Eq, Structural)]
pub enum PlaceField {
    ContainedWithin,
    Country,
    CountryCode,
    Geo,
    GeoCoordinates,
    Name,
    PlaceType,
}

/// The name by which the API knows each value.
pub open spec fn place_field_name(x: PlaceField) -> Seq<char> {
    match x {
        PlaceField::ContainedWithin => "contained_within"@,
        PlaceField::Country => "country"@,
        PlaceField::CountryCode => "country_code"@,
        PlaceField::Geo => "geo"@,
        PlaceField::GeoCoordinates => "geo.coordinates"@,
        PlaceField::Name => "name"@,
        PlaceField::PlaceType => "place_type"@,
    }
}

impl PlaceField {
    /// The name by which the API knows the value.
    pub fn as_str(&self) -> (r: &'static str)
        ensures
            r@ == place_field_name(*self),
    {
        match self {
            PlaceField::ContainedWithin => "contained_within",
            PlaceField::Country => "country",
            PlaceField::CountryCode => "country_code",
            PlaceField::Geo => "geo",
            PlaceField::GeoCoordinates => "geo.coordinates",
            PlaceField::Name => "name",
            PlaceField::PlaceType => "place_type",
        }
    }
}

/// The unit of time by which tweet counts are grouped.
#[derive(Debug, Clone, Copy, Eq)]
pub enum TweetCountGranularity {
    Minute,
    Hour,
    Day,
}

impl PartialEq for TweetCountGranularity {
    fn eq(&self, other: &Self) -> (r: bool) {
        match (self, other) {
            (TweetCountGranularity::Minute, TweetCountGranularity::Minute) => true,
            (TweetCountGranularity::Hour, TweetCountGranularity::Hour) => true,
            (TweetCountGranularity::Day, TweetCountGranularity::Day) => true,
            _ => false,
        }
    }
}

impl vstd::std_specs::cmp::PartialEqSpecImpl for TweetCountGranularity {
    open spec fn obeys_eq_spec() -> bool {
        true
    }

    open spec fn eq_spec(&self, other: &Self) -> bool {
        *self == *other
    }
}

/// The name by which the API knows each value.
pub open spec fn granularity_name(x: TweetCountGranularity) -> Seq<char> {
    match x {
        TweetCountGranularity::Minute => "minute"@,
        TweetCountGranularity::Hour => "hour"@,
        TweetCountGranularity::Day => "day"@,
    }
}

impl TweetCountGranularity {
    /// The name by which the API knows the value.
    pub fn as_str(&self) -> (r: &'static str)
        ensures
            r@ == granularity_name(*self),
    {
        match self {
            TweetCountGranularity::Minute => "minute",
            TweetCountGranularity::Hour => "hour",
            TweetCountGranularity::Day => "day",
        }
    }
}

/// How a tweet refers to another.
#[derive(Debug, Clone, Copy, PartialEq, Eq, Structural)]
pub enum TweetReferenceType {
    Retweeted,
    Quoted,
    RepliedTo,
}

/// The name by which the API knows each value.
pub open spec fn reference_type_name(x: TweetReferenceType) -> Seq<char> {
    match x {
        TweetReferenceType::Retweeted => "retweeted"@,
        TweetReferenceType::Quoted => "quoted"@,
        TweetReferenceType::RepliedTo => "replied_to"@,
    }
}

impl TweetReferenceType {
    /// The name by which the API knows the value.
    pub fn as_str(&self) -> (r: &'static str)
        ensures
            r@ == reference_type_name(*self),
    {
        match self {
            TweetReferenceType::Retweeted => "retweeted",
            TweetReferenceType::Quoted => "quoted",
            TweetReferenceType::RepliedTo => "replied_to",
        }
    }
}

/// The kind of coordinates of a tweet.
#[derive(Debug, Clone, Copy, PartialEq, Eq, Structural)]
pub enum GeoCoordinateType {
    Point,
}

/// The name by which the API knows each value.
pub open spec fn coordinate_type_name(x: GeoCoordinateType) -> Seq<char> {
    match x {
        GeoCoordinateType::Point => "Point"@,
    }
}

impl GeoCoordinateType {
    /// The name by which the API knows the value.
    pub fn as_str(&self) -> (r: &'static str)
        ensures
            r@ == coordinate_type_name(*self),
    {
        match self {
            GeoCoordinateType::Point => "Point",
        }
    }
}

/// What is withheld.
#[derive(Debug, Clone, Copy, PartialEq, Eq, Structural)]
pub enum WithheldScope {
    Tweet,
    User,
}

/// The name by which the API knows each value.
pub open spec fn withheld_scope_name(x: WithheldScope) -> Seq<char> {
    match x {
        WithheldScope::Tweet => "tweet"@,
        WithheldScope::User => "user"@,
    }
}

impl WithheldScope {
    /// The name by which the API knows the value.
    pub fn as_str(&self) -> (r: &'static str)
        ensures
            r@ == withheld_scope_name(*self),
    {
        match self {
            WithheldScope::Tweet => "tweet",
            WithheldScope::User => "user",
        }
    }
}

/// Who may reply to a tweet.
#[derive(Debug, Clone, Copy, PartialEq, Eq, Structural)]
pub enum ReplySettings {
    Everyone,
    MentionedUsers,
    Following,
}

/// The name by which the API knows each value.
pub open spec fn reply_settings_name(x: ReplySettings) -> Seq<char> {
    match x {
        ReplySettings::Everyone => "everyone"@,
        ReplySettings::MentionedUsers => "mentionedUsers"@,
        ReplySettings::Following => "following"@,
    }
}

impl ReplySettings {
    /// The name by which the API knows the value.
    pub fn as_str(&self) -> (r: &'static str)
        ensures
            r@ == reply_settings_name(*self),
    {
        match self {
            ReplySettings::Everyone => "everyone",
            ReplySettings::MentionedUsers => "mentionedUsers",
            ReplySettings::Following => "following",
        }
    }
}

/// The kind of a media object.
#[derive(Debug, Clone, Copy, PartialEq, Eq, Structural)]
pub enum MediaType {
    AnimatedGif,
    Photo,
    Video,
}

/// The name by which the API knows each value.
pub open spec fn media_type_name(x: MediaType) -> Seq<char> {
    match x {
        MediaType::AnimatedGif => "animated_gif"@,
        MediaType::Photo => "photo"@,
        MediaType::Video => "video"@,
    }
}

impl MediaType {
    /// The name by which the API knows the value.
    pub fn as_str(&self) -> (r: &'static str)
        ensures
            r@ == media_type_name(*self),
    {
        match self {
            MediaType::AnimatedGif => "animated_gif",
            MediaType::Photo => "photo",
            MediaType::Video => "video",
        }
    }
}

/// Whether a poll is open.
#[derive(Debug, Clone, Copy, PartialEq, Eq, Structural)]
pub enum PollVotingStatus {
    Open,
    Closed,
}

/// The name by which the API knows each value.
pub open spec fn voting_status_name(x: PollVotingStatus) -> Seq<char> {
    match x {
        PollVotingStatus::Open => "open"@,
        PollVotingStatus::Closed => "closed"@,
    }
}

impl PollVotingStatus {
    /// The name by which the API knows the value.
    pub fn as_str(&self) -> (r: &'static str)
        ensures
            r@ == voting_status_name(*self),
    {
        match self {
            PollVotingStatus::Open => "open",
            PollVotingStatus::Closed => "closed",
        }
    }
}

/// The kind of a geographic object.
#[derive(Debug, Clone, Copy, PartialEq, Eq, Structural)]
pub enum GeoType {
    Feature,
    FeatureCollection,
    Point,
    MultiPoint,
    LineString,
    MultiLineString,
    Polygon,
    MultiPolygon,
    GeometryCollection,
}

/// The name by which the API knows each value.
pub open spec fn geo_type_name(x: GeoType) -> Seq<char> {
    match x {
        GeoType::Feature => "Feature"@,
        GeoType::FeatureCollection => "FeatureCollection"@,
        GeoType::Point => "Point"@,
        GeoType::MultiPoint => "MultiPoint"@,
        GeoType::LineString => "LineString"@,
        GeoType::MultiLineString => "MultiLineString"@,
        GeoType::Polygon => "Polygon"@,
        GeoType::MultiPolygon => "MultiPolygon"@,
        GeoType::GeometryCollection => "GeometryCollection"@,
    }
}

impl GeoType {
    /// The name by which the API knows the value.
    pub fn as_str(&self) -> (r: &'static str)
        ensures
            r@ == geo_type_name(*self),
    {
        match self {
            GeoType::Feature => "Feature",
            GeoType::FeatureCollection => "FeatureCollection",
            GeoType::Point => "Point",
            GeoType::MultiPoint => "MultiPoint",
            GeoType::LineString => "LineString",
            GeoType::MultiLineString => "MultiLineString",
            GeoType::Polygon => "Polygon",
            GeoType::MultiPolygon => "MultiPolygon",
            GeoType::GeometryCollection => "GeometryCollection",
        }
    }
}

impl Default for TweetCountGranularity {
    fn default() -> (r: TweetCountGranularity)
        ensures
            r == TweetCountGranularity::Hour,
    {
        TweetCountGranularity::Hour
    }
}

/// Whether a granularity is left out of a request as the default: exactly
/// when it is `Hour`.
pub fn granularity_is_default(g: &TweetCountGranularity) -> (r: bool)
    ensures
        r == (*g == TweetCountGranularity::Hour),
{
    is_default(g)
}

/// The API product that an account has access to.
#[derive(Debug, Clone, Copy, PartialEq, Eq, Structural)]
pub enum ProductTrack {
    Standard,
    AcademicResearch,
}

impl Default for ProductTrack {
    fn default() -> (r: ProductTrack)
        ensures
            r == ProductTrack::Standard,
    {
        ProductTrack::Standard
    }
}

/// The domain of a context annotation.
#[derive(Debug)]
pub struct ContextAnnotationDomain {
    pub id: u64,
    pub name: String,
    pub description: String,
}

/// The entity of a context annotation.
#[derive(Debug)]
pub struct ContextAnnotationEntity {
    pub id: u64,
    pub name: String,
    pub description: Option<String>,
}

/// What Twitter inferred a tweet to be about.
#[derive(Debug)]
pub struct ContextAnnotation {
    pub domain: ContextAnnotationDomain,
    pub entity: Option<ContextAnnotationEntity>,
}

/// Engagement counts of a tweet.
#[derive(Debug, Clone, Copy, PartialEq, Eq, Structural)]
pub struct TweetMetrics {
    pub retweet_count: u64,
    pub reply_count: u64,
    pub like_count: u64,
}

/// Public engagement counts of a tweet.
#[derive(Debug, Clone, Copy, PartialEq, Eq, Structural)]
pub struct PublicMetrics {
    pub metrics: TweetMetrics,
    pub quote_count: u64,
}

/// Playback counts of a video.
#[derive(Debug, Clone, Copy, PartialEq, Eq, Structural)]
pub struct MediaMetrics {
    pub playback_0_count: u64,
    pub playback_25_count: u64,
    pub playback_50_count: u64,
    pub playback_75_count: u64,
    pub playback_100_count: u64,
}

/// Playback and view counts of a video.
#[derive(Debug, Clone, Copy, PartialEq, Eq, Structural)]
pub struct MediaEngagementMetrics {
    pub metrics: MediaMetrics,
    pub view_count: u64,
}

/// Public view count of a media object.
#[derive(Debug, Clone, Copy, PartialEq, Eq, Structural)]
pub struct ViewCount {
    pub view_count: u64,
}

/// One option of a poll.
#[derive(Debug)]
pub struct PollOption {
    pub position: u8,
    pub label: String,
    pub votes: u64,
}

/// Public counts of a user.
#[derive(Debug, Clone, Copy, PartialEq, Eq, Structural)]
pub struct UserMetrics {
    pub followers_count: u64,
    pub following_count: u64,
    pub tweet_count: u64,
    pub listed_count: u64,
}

/// The total of a tweet count.
#[derive(Debug, Clone, Copy, PartialEq, Eq, Structural)]
pub struct TweetCountMeta {
    pub total_tweet_count: u64,
}

/// A language tag as Twitter sends it.
#[derive(Debug)]
pub struct TwitterLanguage(pub String);

/// A duration in minutes, as the API sends poll durations.
#[derive(Debug, Clone, Copy, PartialEq, Eq, Structural)]
pub struct DurationMinutes(pub i64);

/// The longest rule that the standard product track accepts, in bytes.
pub const RULE_LIMIT: usize = 512;

/// The length of a string in bytes, as UTF-8 (as `str::len` gives it).
pub open spec fn byte_len(s: Seq<char>) -> usize {
    vstd::utf8::encode_utf8(s).len() as usize
}

/// What went wrong with a request to the API or with a rule.
#[derive(Debug)]
pub enum Error {
    /// Too many requests were made within the time window.
    RateLimitReached { requests_made: i32, request_limit: i32, resets_at: i64 },
    /// More rules than the product track allows.
    RuleLimitExceeded { count: usize, limit: usize },
    /// A rule was longer than the limit, in bytes.
    RuleLengthExceeded { rule: String, length: usize, limit: usize },
    /// The API found invalid rules among those sent.
    InvalidRules { count: usize, rules: Vec<Rule> },
    /// Not all the rules could be deleted.
    RuleDeletionFailed { failed_deletion_count: usize, rules_to_be_deleted: Vec<u64> },
    /// A response header was missing.
    MissingResponseHeader(String),
    /// A response header could not be read.
    InvalidResponseHeader(String),
}

/// A rule of a filtered stream, at most `RULE_LIMIT` bytes long.
#[derive(Debug)]
pub struct RuleString(pub String);

impl RuleString {
    /// Checks that `s` is short enough to be a rule.
    pub fn try_from(s: String) -> (r: Result<RuleString, Error>)
        ensures
            match r {
                Ok(rs) => byte_len(s@) <= 512 && rs.0@ == s@,
                Err(Error::RuleLengthExceeded { rule, length, limit }) => byte_len(s@) > 512
                    && rule@ == s@ && length == byte_len(s@) && limit == 512,
                Err(_) => false,
            },
    {
        let length = s.as_str().len();
        if length > RULE_LIMIT {
            return Err(Error::RuleLengthExceeded { rule: s, length, limit: RULE_LIMIT });
        }
        Ok(RuleString(s))
    }
}

/// A rule to add to a filtered stream: its value and tag.
#[derive(Debug)]
pub struct Rule {
    pub value: RuleString,
    pub tag: String,
}

/// A rule that a filtered stream has, with the id the API gave it.
#[derive(Debug)]
pub struct ActiveRule {
    pub id: u64,
    pub value: RuleString,
    pub tag: String,
}

impl ActiveRule {
    /// A copy of the rule.
    pub fn copy(&self) -> (r: ActiveRule)
        ensures
            r@ == self@,
    {
        ActiveRule { id: self.id, value: RuleString(self.value.0.clone()), tag: self.tag.clone() }
    }

    /// The rule without its id.
    pub fn to_rule(&self) -> (r: Rule)
        ensures
            r.value.0@ == self.value.0@,
            r.tag@ == self.tag@,
    {
        Rule { value: RuleString(self.value.0.clone()), tag: self.tag.clone() }
    }
}

/// A rule and an active rule are the same when their values and tags are.
pub open spec fn same_rule(a: Rule, b: ActiveRule) -> bool {
    a.value.0@ == b.value.0@ && a.tag@ == b.tag@
}

/// Whether `rule` is the rule that `active` is.
pub fn rule_eq(rule: &Rule, active: &ActiveRule) -> (r: bool)
    ensures
        r == same_rule(*rule, *active),
{
    rule.value.0 == active.value.0 && rule.tag == active.tag
}

/// Whether the wanted rules are, in order, the rules the stream has.
pub open spec fn same_rules(wanted: Seq<Rule>, active: Seq<ActiveRule>) -> bool {
    wanted.len() == active.len() && forall|i: int|
        0 <= i < wanted.len() ==> #[trigger] same_rule(wanted[i], active[i])
}

/// Whether setting `wanted` on a stream that has `active` changes nothing.
pub fn rules_unchanged(wanted: &Vec<Rule>, active: &Vec<ActiveRule>) -> (r: bool)
    ensures
        r == same_rules(wanted@, active@),
{
    if wanted.len() != active.len() {
        return false;
    }
    let mut i: usize = 0;
    while i < wanted.len()
        invariant
            i <= wanted.len(),
            wanted.len() == active.len(),
            forall|j: int| 0 <= j < i ==> #[trigger] same_rule(wanted@[j], active@[j]),
        decreases wanted.len() - i,
    {
        if !rule_eq(&wanted[i], &active[i]) {
            return false;
        }
        i += 1;
    }
    true
}

/// A change to the rules of a stream: rules to add, ids of rules to delete.
#[derive(Debug)]
pub struct RuleUpdate {
    pub add: Vec<Rule>,
    pub delete: Vec<u64>,
}

impl RuleUpdate {
    /// The change that adds `rules`.
    pub fn add(rules: Vec<Rule>) -> (r: RuleUpdate)
        ensures
            r.add@ == rules@,
            r.delete@.len() == 0,
    {
        RuleUpdate { add: rules, delete: Vec::new() }
    }

    /// The change that deletes the rules `ids`.
    pub fn remove(ids: Vec<u64>) -> (r: RuleUpdate)
        ensures
            r.add@.len() == 0,
            r.delete@ == ids@,
    {
        RuleUpdate { add: Vec::new(), delete: ids }
    }
}

/// The authorization header value: the token, with "Bearer " put in front
/// unless it is there already.
pub open spec fn bearer(token: Seq<char>) -> Seq<char> {
    if crate::text::starts_with(token, "Bearer "@) {
        token
    } else {
        "Bearer "@ + token
    }
}

/// The value of the authorization header for `token`.
pub fn bearer_token(token: &str) -> (r: String)
    ensures
        r@ == bearer(token@),
{
    if str_starts_with(token, "Bearer ") {
        String::from_str(token)
    } else {
        let mut r = String::new();
        push_str(&mut r, "Bearer ");
        push_str(&mut r, token);
        proof {
            reveal_strlit("Bearer ");
        }
        r
    }
}

/// A response header as it came: missing, unreadable, or read.
#[derive(Debug)]
pub enum Header<T> {
    Missing,
    Invalid,
    Value(T),
}

/// The value of a header, or the error that its absence or its form gives.
pub fn get_response_header<T>(name: &str, header: Header<T>) -> (r: Result<T, Error>)
    ensures
        match header {
            Header::Missing => r matches Err(Error::MissingResponseHeader(n)) && n@ == name@,
            Header::Invalid => r matches Err(Error::InvalidResponseHeader(n)) && n@ == name@,
            Header::Value(v) => r == Ok::<T, Error>(v),
        },
{
    match header {
        Header::Missing => Err(Error::MissingResponseHeader(String::from_str(name))),
        Header::Invalid => Err(Error::InvalidResponseHeader(String::from_str(name))),
        Header::Value(v) => Ok(v),
    }
}

/// Checks the rate-limit headers of a response: the limit is reached when no
/// request remains. `reset` is when the window resets, in seconds since the
/// Unix epoch.
pub fn check_rate_limit(remaining: Header<i32>, limit: Header<i32>, reset: Header<i64>) -> (r:
    Result<(), Error>)
    requires
        remaining matches Header::Value(rem) ==> (limit matches Header::Value(lim) ==> i32::MIN
            <= lim - rem <= i32::MAX),
    ensures
        match (remaining, limit, reset) {
            (Header::Value(rem), Header::Value(lim), Header::Value(at)) => if rem <= 0 {
                r matches Err(Error::RateLimitReached { requests_made, request_limit, resets_at })
                    && requests_made == lim - rem && request_limit == lim && resets_at == at
            } else {
                r is Ok
            },
            (Header::Missing, _, _) => r matches Err(Error::MissingResponseHeader(n)) && n@
                == "x-rate-limit-remaining"@,
            (Header::Invalid, _, _) => r matches Err(Error::InvalidResponseHeader(n)) && n@
                == "x-rate-limit-remaining"@,
            (_, Header::Missing, _) => r matches Err(Error::MissingResponseHeader(n)) && n@
                == "x-rate-limit-limit"@,
            (_, Header::Invalid, _) => r matches Err(Error::InvalidResponseHeader(n)) && n@
                == "x-rate-limit-limit"@,
            (_, _, Header::Missing) => r matches Err(Error::MissingResponseHeader(n)) && n@
                == "x-rate-limit-reset"@,
            (_, _, Header::Invalid) => r matches Err(Error::InvalidResponseHeader(n)) && n@
                == "x-rate-limit-reset"@,
        },
{
    let remaining = match get_response_header("x-rate-limit-remaining", remaining) {
        Ok(v) => v,
        Err(e) => {
            return Err(e);
        },
    };
    let limit = match get_response_header("x-rate-limit-limit", limit) {
        Ok(v) => v,
        Err(e) => {
            return Err(e);
        },
    };
    let reset = match get_response_header("x-rate-limit-reset", reset) {
        Ok(v) => v,
        Err(e) => {
            return Err(e);
        },
    };
    if remaining <= 0 {
        Err(Error::RateLimitReached {
            requests_made: limit - remaining,
            request_limit: limit,
            resets_at: reset,
        })
    } else {
        Ok(())
    }
}


/// What adding rules gave: the API's count of invalid rules, if it sent one,
/// is an error carrying the rules that were sent.
pub fn check_added_rules(invalid: Option<usize>, update: RuleUpdate) -> (r: Result<(), Error>)
    ensures
        match invalid {
            Some(n) if n > 0 => r matches Err(Error::InvalidRules { count, rules }) && count == n
                && rules@ == update.add@,
            _ => r is Ok,
        },
{
    match invalid {
        Some(n) => {
            if n > 0 {
                return Err(Error::InvalidRules { count: n, rules: update.add });
            }
            Ok(())
        },
        None => Ok(()),
    }
}

/// What deleting `rule_count` rules gave: when the API's summary (deleted,
/// not deleted) does not account for all of them, the number that failed is
/// the larger of the shortfall and the API's count of rules not deleted.
pub fn check_deleted_rules(rule_count: usize, summary: Option<(usize, usize)>, ids: Vec<u64>) -> (r:
    Result<(), Error>)
    requires
        summary matches Some((deleted, _)) ==> deleted <= rule_count,
    ensures
        match summary {
            Some((deleted, not_deleted)) if deleted != rule_count || not_deleted > 0 => r matches Err(
                Error::RuleDeletionFailed { failed_deletion_count, rules_to_be_deleted },
            ) && failed_deletion_count == (if rule_count - deleted >= not_deleted {
                rule_count - deleted
            } else {
                not_deleted as int
            }) && rules_to_be_deleted@ == ids@,
            _ => r is Ok,
        },
{
    match summary {
        Some((deleted, not_deleted)) => {
            if deleted != rule_count || not_deleted > 0 {
                let short = rule_count - deleted;
                let failed = if short >= not_deleted {
                    short
                } else {
                    not_deleted
                };
                return Err(Error::RuleDeletionFailed {
                    failed_deletion_count: failed,
                    rules_to_be_deleted: ids,
                });
            }
            Ok(())
        },
        None => Ok(()),
    }
}

pub struct ActiveRuleView {
    pub id: u64,
    pub value: Seq<char>,
    pub tag: Seq<char>,
}

impl View for ActiveRule {
    type V = ActiveRuleView;

    open spec fn view(&self) -> ActiveRuleView {
        ActiveRuleView { id: self.id, value: self.value.0@, tag: self.tag@ }
    }
}

pub open spec fn rule_id_pos(s: Seq<ActiveRuleView>, id: u64) -> Option<int>
    decreases s.len(),
{
    if s.len() == 0 {
        None
    } else if s.last().id == id {
        Some(s.len() - 1)
    } else {
        rule_id_pos(s.drop_last(), id)
    }
}

proof fn lemma_rule_id_pos(s: Seq<ActiveRuleView>, id: u64)
    ensures
        match rule_id_pos(s, id) {
            Some(p) => 0 <= p < s.len() && s[p].id == id,
            None => forall|j: int| 0 <= j < s.len() ==> s[j].id != id,
        },
    decreases s.len(),
{
    if s.len() > 0 && s.last().id != id {
        lemma_rule_id_pos(s.drop_last(), id);
        if rule_id_pos(s, id) is None {
            assert forall|j: int| 0 <= j < s.len() implies s[j].id != id by {
                if j < s.len() - 1 {
                    assert(s.drop_last()[j] == s[j]);
                }
            }
        }
    }
}

/// The rules after `r` is put among them: in place of the rule with its id,
/// else at the end.
pub open spec fn with_rule(s: Seq<ActiveRuleView>, r: ActiveRuleView) -> Seq<ActiveRuleView> {
    match rule_id_pos(s, r.id) {
        Some(p) => s.update(p, r),
        None => s.push(r),
    }
}

pub open spec fn with_rules(s: Seq<ActiveRuleView>, rs: Seq<ActiveRuleView>) -> Seq<ActiveRuleView>
    decreases rs.len(),
{
    if rs.len() == 0 {
        s
    } else {
        with_rule(with_rules(s, rs.drop_last()), rs.last())
    }
}

/// The rules whose ids are not among `ids`, order kept.
pub open spec fn without_ids(s: Seq<ActiveRuleView>, ids: Seq<u64>) -> Seq<ActiveRuleView>
    decreases s.len(),
{
    if s.len() == 0 {
        Seq::empty()
    } else {
        without_ids(s.drop_last(), ids) + if ids.contains(s.last().id) {
            Seq::empty()
        } else {
            seq![s.last()]
        }
    }
}

proof fn lemma_without_ids(s: Seq<ActiveRuleView>, ids: Seq<u64>)
    requires
        distinct_rule_ids(s),
    ensures
        distinct_rule_ids(without_ids(s, ids)),
        forall|j: int|
            0 <= j < without_ids(s, ids).len() ==> exists|i: int|
                0 <= i < s.len() && s[i] == #[trigger] without_ids(s, ids)[j],
    decreases s.len(),
{
    if s.len() > 0 {
        let t = s.drop_last();
        assert(distinct_rule_ids(t)) by {
            assert forall|a: int, b: int|
                0 <= a < t.len() && 0 <= b < t.len() && a != b implies t[a].id != t[b].id by {
                assert(t[a] == s[a] && t[b] == s[b]);
            }
        }
        lemma_without_ids(t, ids);
        let w = without_ids(t, ids);
        let v = without_ids(s, ids);
        assert forall|j: int| 0 <= j < v.len() implies exists|i: int|
            0 <= i < s.len() && s[i] == #[trigger] v[j] by {
            if j < w.len() {
                assert(v[j] == w[j]);
                let i = choose|i: int| 0 <= i < t.len() && t[i] == #[trigger] w[j];
                assert(s[i] == v[j]);
            } else {
                assert(s[s.len() - 1] == v[j]);
            }
        }
        assert forall|a: int, b: int|
            0 <= a < v.len() && 0 <= b < v.len() && a != b implies v[a].id != v[b].id by {
            if a < w.len() && b < w.len() {
                assert(v[a] == w[a] && v[b] == w[b]);
            } else if a < w.len() {
                assert(v[a] == w[a]);
                let i = choose|i: int| 0 <= i < t.len() && t[i] == #[trigger] w[a];
                assert(s[i] == v[a]);
                assert(v[b] == s[s.len() - 1]);
            } else if b < w.len() {
                assert(v[b] == w[b]);
                let i = choose|i: int| 0 <= i < t.len() && t[i] == #[trigger] w[b];
                assert(s[i] == v[b]);
                assert(v[a] == s[s.len() - 1]);
            }
        }
    }
}

proof fn lemma_without_absent_ids(s: Seq<ActiveRuleView>, ids: Seq<u64>)
    requires
        forall|j: int| 0 <= j < s.len() ==> !ids.contains(#[trigger] s[j].id),
    ensures
        without_ids(s, ids) == s,
    decreases s.len(),
{
    if s.len() > 0 {
        let t = s.drop_last();
        assert forall|j: int| 0 <= j < t.len() implies !ids.contains(#[trigger] t[j].id) by {
            assert(t[j] == s[j]);
        }
        lemma_without_absent_ids(t, ids);
        assert(!ids.contains(s[s.len() - 1].id));
        assert(without_ids(s, ids) =~= t + seq![s.last()]);
        assert(t + seq![s.last()] =~= s);
    }
}

/// Removing a rule that was just added, by its id, gives back the rules as
/// they were.
pub proof fn lemma_remove_undoes_add(s: Seq<ActiveRuleView>, r: ActiveRuleView)
    requires
        rule_id_pos(s, r.id) is None,
    ensures
        without_ids(with_rule(s, r), seq![r.id]) == s,
{
    lemma_rule_id_pos(s, r.id);
    let ids = seq![r.id];
    assert forall|j: int| 0 <= j < s.len() implies !ids.contains(#[trigger] s[j].id) by {
        if ids.contains(s[j].id) {
            assert(ids[0] == s[j].id);
        }
    }
    lemma_without_absent_ids(s, ids);
    let t = s.push(r);
    assert(t.drop_last() =~= s);
    assert(ids.contains(r.id)) by {
        assert(ids[0] == r.id);
    }
    assert(without_ids(t, ids) =~= s);
}

pub open spec fn distinct_rule_ids(s: Seq<ActiveRuleView>) -> bool {
    forall|i: int, j: int| 0 <= i < s.len() && 0 <= j < s.len() && i != j ==> s[i].id != s[j].id
}

pub open spec fn active_views(v: Seq<ActiveRule>) -> Seq<ActiveRuleView> {
    v.map_values(|r: ActiveRule| r@)
}

/// Whether `id` is among `ids`.
fn contains_id(ids: &Vec<u64>, id: u64) -> (r: bool)
    ensures
        r == ids@.contains(id),
{
    let mut j: usize = 0;
    while j < ids.len()
        invariant
            j <= ids.len(),
            forall|k: int| 0 <= k < j ==> ids@[k] != id,
        decreases ids.len() - j,
    {
        if ids[j] == id {
            assert(ids@[j as int] == id);
            return true;
        }
        j += 1;
    }
    false
}

/// The rules that a filtered stream has, each id once.
pub struct StreamRules {
    rules: Vec<ActiveRule>,
}

impl View for StreamRules {
    type V = Seq<ActiveRuleView>;

    closed spec fn view(&self) -> Seq<ActiveRuleView> {
        active_views(self.rules@)
    }
}

impl StreamRules {
    pub closed spec fn wf(&self) -> bool {
        distinct_rule_ids(self@)
    }

    /// No rules.
    pub fn new() -> (r: StreamRules)
        ensures
            r.wf(),
            r@ == Seq::<ActiveRuleView>::empty(),
    {
        let r = StreamRules { rules: Vec::new() };
        assert(r@ =~= Seq::<ActiveRuleView>::empty());
        r
    }

    /// The rules, in order.
    pub fn rules(&self) -> (r: &Vec<ActiveRule>)
        ensures
            active_views(r@) == self@,
    {
        &self.rules
    }

    /// The ids of the rules, in order.
    pub fn ids(&self) -> (r: Vec<u64>)
        ensures
            r@ == self@.map_values(|a: ActiveRuleView| a.id),
    {
        let mut r: Vec<u64> = Vec::new();
        let mut i: usize = 0;
        while i < self.rules.len()
            invariant
                i <= self.rules.len(),
                self@ == active_views(self.rules@),
                r@ == self@.take(i as int).map_values(|a: ActiveRuleView| a.id),
            decreases self.rules.len() - i,
        {
            r.push(self.rules[i].id);
            assert(self@.take(i + 1).map_values(|a: ActiveRuleView| a.id) =~= self@.take(
                i as int,
            ).map_values(|a: ActiveRuleView| a.id).push(self@[i as int].id));
            i += 1;
        }
        assert(self@.take(i as int) =~= self@);
        r
    }

    /// Where the rule `id` stands.
    fn position(&self, id: u64) -> (r: Option<usize>)
        ensures
            match r {
                Some(i) => rule_id_pos(self@, id) == Some(i as int),
                None => rule_id_pos(self@, id) is None,
            },
    {
        let ghost s = self@;
        let mut i: usize = self.rules.len();
        assert(s.take(i as int) =~= s);
        while i > 0
            invariant
                i <= self.rules.len(),
                s == active_views(self.rules@),
                rule_id_pos(s, id) == rule_id_pos(s.take(i as int), id),
            decreases i,
        {
            assert(s.take(i as int).drop_last() =~= s.take(i - 1));
            assert(s.take(i as int).last() == self.rules@[i - 1]@);
            if self.rules[i - 1].id == id {
                return Some(i - 1);
            }
            i -= 1;
        }
        None
    }

    /// Puts rule `r` among the rules, in place of one with the same id.
    pub fn insert(&mut self, r: ActiveRule)
        requires
            old(self).wf(),
        ensures
            final(self).wf(),
            final(self)@ == with_rule(old(self)@, r@),
    {
        let ghost s = self@;
        let ghost rv = r@;
        proof {
            lemma_rule_id_pos(s, rv.id);
        }
        match self.position(r.id) {
            Some(p) => {
                let _ = self.rules.remove(p);
                self.rules.insert(p, r);
                assert(self@ =~= s.update(p as int, rv));
                assert forall|a: int, b: int|
                    0 <= a < self@.len() && 0 <= b < self@.len() && a != b implies self@[a].id
                    != self@[b].id by {
                    assert(a != p ==> self@[a] == s[a]);
                    assert(b != p ==> self@[b] == s[b]);
                }
            },
            None => {
                self.rules.push(r);
                assert(self@ =~= s.push(rv));
                assert forall|a: int, b: int|
                    0 <= a < self@.len() && 0 <= b < self@.len() && a != b implies self@[a].id
                    != self@[b].id by {
                    assert(a < s.len() ==> self@[a] == s[a]);
                    assert(b < s.len() ==> self@[b] == s[b]);
                }
            },
        }
    }

    /// Puts the rules `rs` among the rules, in order.
    pub fn extend(&mut self, rs: Vec<ActiveRule>)
        requires
            old(self).wf(),
        ensures
            final(self).wf(),
            final(self)@ == with_rules(old(self)@, active_views(rs@)),
    {
        let ghost s = self@;
        let ghost all = active_views(rs@);
        let mut rest = rs;
        let n: usize = rest.len();
        assert(all.len() == n);
        let mut k: usize = 0;
        assert(all.take(0) =~= Seq::<ActiveRuleView>::empty());
        while rest.len() > 0
            invariant
                k + rest.len() == all.len(),
                all.len() <= usize::MAX,
                active_views(rest@) == all.skip(k as int),
                self.wf(),
                self@ == with_rules(s, all.take(k as int)),
            decreases rest.len(),
        {
            let ghost rv = rest@;
            let r = rest.remove(0);
            assert(r@ == active_views(rv)[0]);
            assert(active_views(rest@) =~= active_views(rv).skip(1));
            assert(all.take(k + 1).drop_last() =~= all.take(k as int));
            assert(all.take(k + 1).last() == r@);
            self.insert(r);
            k += 1;
        }
        assert(all.take(k as int) =~= all);
    }

    /// Drops the rules whose ids are among `ids`.
    pub fn retain_not(&mut self, ids: &Vec<u64>)
        requires
            old(self).wf(),
        ensures
            final(self).wf(),
            final(self)@ == without_ids(old(self)@, ids@),
    {
        let ghost s = self@;
        let mut kept: Vec<ActiveRule> = Vec::new();
        let mut i: usize = 0;
        assert(active_views(kept@) =~= without_ids(s.take(0), ids@));
        while i < self.rules.len()
            invariant
                i <= self.rules.len(),
                s == active_views(self.rules@),
                active_views(kept@) == without_ids(s.take(i as int), ids@),
            decreases self.rules.len() - i,
        {
            assert(s.take(i + 1).drop_last() =~= s.take(i as int));
            assert(s.take(i + 1).last() == self.rules@[i as int]@);
            let ghost prev = active_views(kept@);
            let id = self.rules[i].id;
            let found = contains_id(ids, id);
            if !found {
                let r = self.rules[i].copy();
                kept.push(r);
                assert(active_views(kept@) =~= prev + seq![s[i as int]]);
            } else {
                assert(active_views(kept@) =~= prev + Seq::<ActiveRuleView>::empty());
            }
            i += 1;
        }
        assert(s.take(i as int) =~= s);
        proof {
            lemma_without_ids(s, ids@);
        }
        self.rules = kept;
    }
}


/// "from:" and the user id: the rule term that matches a user's tweets.
pub open spec fn from_term(id: u64) -> Seq<char> {
    "from:"@ + dec(id as nat)
}

/// The terms of `ids` joined by " OR ".
pub open spec fn or_join(ids: Seq<u64>) -> Seq<char>
    decreases ids.len(),
{
    if ids.len() == 0 {
        Seq::empty()
    } else if ids.len() == 1 {
        from_term(ids[0])
    } else {
        or_join(ids.drop_last()) + " OR "@ + from_term(ids.last())
    }
}

/// The rule that matches the tweets, not retweets, of the users `chunk`.
pub open spec fn rule_value(chunk: Seq<u64>) -> Seq<char> {
    if chunk.len() == 1 {
        from_term(chunk[0]) + " -is:retweet"@
    } else {
        "("@ + or_join(chunk) + ") -is:retweet"@
    }
}

/// How many user ids one rule takes: as many terms of the longest id (20
/// digits) as fit, with their separators, into a rule of 512 bytes besides
/// the brackets and the suffix.
pub const MAX_IDS_PER_RULE: usize = 17;

/// The ids that the rule `k` takes.
pub open spec fn chunk_of(ids: Seq<u64>, k: int) -> Seq<u64> {
    ids.subrange(17 * k, if 17 * k + 17 <= ids.len() { 17 * k + 17 } else { ids.len() as int })
}

pub open spec fn rule_count(n: nat) -> nat {
    (n + 16) / 17
}

pub open spec fn rule_tag(k: nat) -> Seq<char> {
    "Hololive Talents #"@ + dec(k + 1)
}

/// The rules `0..k` fit the limit, and `rules` are them, tagged.
pub open spec fn rules_made(rules: Seq<Rule>, ids: Seq<u64>, k: int) -> bool {
    rules.len() == k && forall|j: int|
        #![trigger chunk_of(ids, j)]
        0 <= j < k ==> byte_len(rule_value(chunk_of(ids, j))) <= 512 && rules[j].value.0@
            == rule_value(chunk_of(ids, j)) && rules[j].tag@ == rule_tag(j as nat)
}

proof fn lemma_rules_made_push(prev: Seq<Rule>, r: Rule, ids: Seq<u64>, k: int)
    requires
        rules_made(prev, ids, k),
        byte_len(rule_value(chunk_of(ids, k))) <= 512,
        r.value.0@ == rule_value(chunk_of(ids, k)),
        r.tag@ == rule_tag(k as nat),
    ensures
        rules_made(prev.push(r), ids, k + 1),
{
    let t = prev.push(r);
    assert forall|j: int| #![trigger chunk_of(ids, j)]
        0 <= j < k + 1 implies byte_len(rule_value(chunk_of(ids, j))) <= 512 && t[j].value.0@
        == rule_value(chunk_of(ids, j)) && t[j].tag@ == rule_tag(j as nat) by {
        if j < k {
            assert(t[j] == prev[j]);
            assert(prev[j].value.0@ == rule_value(chunk_of(ids, j)));
            assert(byte_len(rule_value(chunk_of(ids, j))) <= 512);
            assert(prev[j].tag@ == rule_tag(j as nat));
        } else {
            assert(t[j] == r);
        }
    }
}

/// The rules `0..k` fit the limit and rule `k` does not.
pub open spec fn first_too_long(ids: Seq<u64>, k: int) -> bool {
    (forall|j: int| 0 <= j < k ==> byte_len(#[trigger] rule_value(chunk_of(ids, j))) <= 512)
        && byte_len(rule_value(chunk_of(ids, k))) > 512
}

proof fn lemma_rule_count(n: nat, k: nat)
    ensures
        17 * k < n ==> k < rule_count(n),
        17 * k < n <= 17 * k + 17 ==> rule_count(n) == k + 1,
        n == 0 ==> rule_count(n) == 0,
{
    assert(17 * k < n ==> k < (n + 16) / 17) by (nonlinear_arith);
    assert(17 * k < n <= 17 * k + 17 ==> (n + 16) / 17 == k + 1) by (nonlinear_arith);
}

/// The Twitter ids of the talents that have one, in order.
pub open spec fn talent_twitter_ids(tv: Seq<TalentView>) -> Seq<u64>
    decreases tv.len(),
{
    if tv.len() == 0 {
        Seq::empty()
    } else {
        talent_twitter_ids(tv.drop_last()) + match tv.last().twitter_id {
            Some(id) => seq![id],
            None => Seq::empty(),
        }
    }
}

/// The Twitter ids of the talents that have one, in order.
pub fn twitter_ids(talents: &Vec<Talent>) -> (r: Vec<u64>)
    ensures
        r@ == talent_twitter_ids(talent_views(talents@)),
{
    let ghost tv = talent_views(talents@);
    let mut r: Vec<u64> = Vec::new();
    let mut i: usize = 0;
    assert(r@ =~= talent_twitter_ids(tv.take(0)));
    while i < talents.len()
        invariant
            i <= talents.len(),
            tv == talent_views(talents@),
            r@ == talent_twitter_ids(tv.take(i as int)),
        decreases talents.len() - i,
    {
        assert(tv.take(i + 1).drop_last() =~= tv.take(i as int));
        assert(tv.take(i + 1).last() == talents@[i as int]@);
        let ghost prev = r@;
        match talents[i].twitter_id {
            Some(id) => {
                r.push(id);
                assert(r@ =~= prev + seq![id]);
            },
            None => {
                assert(r@ =~= prev + Seq::<u64>::empty());
            },
        }
        i += 1;
    }
    assert(tv.take(i as int) =~= tv);
    r
}

/// The value of the rule for the ids `ids[start..end]`.
fn rule_value_of(ids: &Vec<u64>, start: usize, end: usize) -> (r: String)
    requires
        start < end <= ids.len(),
    ensures
        r@ == rule_value(ids@.subrange(start as int, end as int)),
{
    let ghost c = ids@.subrange(start as int, end as int);
    let mut v = String::new();
    proof {
        reveal_strlit("from:");
        reveal_strlit(" -is:retweet");
        reveal_strlit("(");
        reveal_strlit(" OR ");
        reveal_strlit(") -is:retweet");
    }
    if end - start == 1 {
        push_str(&mut v, "from:");
        push_dec(&mut v, ids[start]);
        push_str(&mut v, " -is:retweet");
        assert(c[0] == ids@[start as int]);
        assert(v@ =~= rule_value(c));
        return v;
    }
    push_str(&mut v, "(");
    let mut j: usize = start;
    assert(c.take(0) =~= Seq::<u64>::empty());
    assert(v@ =~= "("@ + or_join(c.take(0)));
    while j < end
        invariant
            start <= j <= end,
            end <= ids.len(),
            c == ids@.subrange(start as int, end as int),
            v@ == "("@ + or_join(c.take(j - start)),
        decreases end - j,
    {
        let ghost prev = v@;
        let ghost m = (j - start) as int;
        assert(c.take(m + 1).drop_last() =~= c.take(m));
        assert(c.take(m + 1).last() == ids@[j as int]);
        if j > start {
            push_str(&mut v, " OR ");
        }
        push_str(&mut v, "from:");
        push_dec(&mut v, ids[j]);
        if j == start {
            assert(c.take(1)[0] == ids@[j as int]);
            assert(v@ =~= "("@ + or_join(c.take(m + 1)));
        } else {
            assert(v@ =~= "("@ + or_join(c.take(m + 1)));
        }
        j += 1;
    }
    assert(c.take(end - start) =~= c);
    push_str(&mut v, ") -is:retweet");
    assert(v@ =~= rule_value(c));
    v
}

/// The rules that match the tweets, not retweets, of the talents with a
/// Twitter id: their "from:" terms in rules of `MAX_IDS_PER_RULE`, tagged
/// "Hololive Talents #" and the rule's number. A rule longer than the limit
/// is an error (the first one).
pub fn create_talent_rules(talents: &Vec<Talent>) -> (r: Result<Vec<Rule>, Error>)
    ensures
        ({
            let ids = talent_twitter_ids(talent_views(talents@));
            let n = rule_count(ids.len());
            match r {
                Ok(rules) => rules_made(rules@, ids, n as int),
                Err(Error::RuleLengthExceeded { rule, length, limit }) => exists|k: int|
                    0 <= k < n && #[trigger] first_too_long(ids, k) && rule@ == rule_value(
                        chunk_of(ids, k),
                    ) && length == byte_len(rule@) && limit == 512,
                Err(_) => false,
            }
        }),
{
    let ids = twitter_ids(talents);
    let ghost s = ids@;
    let mut rules: Vec<Rule> = Vec::new();
    let mut start: usize = 0;
    let mut k: usize = 0;
    proof {
        lemma_rule_count(s.len(), 0);
    }
    while start < ids.len()
        invariant
            s == ids@,
            s == talent_twitter_ids(talent_views(talents@)),
            start <= s.len(),
            start < s.len() ==> start == 17 * k && k < rule_count(s.len()),
            start == s.len() ==> k == rule_count(s.len()),
            rules_made(rules@, s, k as int),
        decreases ids.len() - start,
    {
        let end = if ids.len() - start >= 17 {
            start + 17
        } else {
            ids.len()
        };
        let value = rule_value_of(&ids, start, end);
        assert(value@ == rule_value(chunk_of(s, k as int)));
        let ghost vv = value@;
        let value = match RuleString::try_from(value) {
            Ok(v) => v,
            Err(e) => {
                assert forall|j: int| 0 <= j < k implies byte_len(
                    #[trigger] rule_value(chunk_of(s, j)),
                ) <= 512 by {
                    assert(rules@[j].value.0@ == rule_value(chunk_of(s, j)));
                }
                assert(rule_value(chunk_of(s, k as int)) == vv);
                assert(first_too_long(s, k as int));
                assert(0 <= k < rule_count(s.len()));
                proof {
                    if let Error::RuleLengthExceeded { rule, length, limit } = &e {
                        assert(rule@ == rule_value(chunk_of(s, k as int)));
                        assert(length == byte_len(rule@) && limit == 512);
                    }
                }
                return Err(e);
            },
        };
        assert(value.0@ == vv);
        let mut tag = String::new();
        push_str(&mut tag, "Hololive Talents #");
        push_dec(&mut tag, (k + 1) as u64);
        proof {
            reveal_strlit("Hololive Talents #");
        }
        let ghost prev = rules@;
        let ghost tv = tag@;
        rules.push(Rule { value, tag });
        assert(rules@[k as int].value.0@ == vv && rules@[k as int].tag@ == tv);
        assert(byte_len(vv) <= 512);
        assert(tv == rule_tag(k as nat));
        assert(vv == rule_value(chunk_of(s, k as int)));
        proof {
            lemma_rules_made_push(prev, rules@[k as int], s, k as int);
            assert(prev.push(rules@[k as int]) =~= rules@);
        }
        proof {
            lemma_rule_count(s.len(), k as nat);
            if end < s.len() {
                lemma_rule_count(s.len(), (k + 1) as nat);
            }
        }
        start = end;
        k += 1;
    }
    Ok(rules)
}

/// Whether `t` equals its type's default value (fields equal to their
/// default are left out when a request is written).
pub fn is_default<T: Default + PartialEq>(t: &T) -> (r: bool)
    ensures
        exists|d: T|
            #![trigger call_ensures(T::default, (), d)]
            call_ensures(T::default, (), d) && (T::obeys_eq_spec() ==> r == t.eq_spec(&d)),
{
    let d = T::default();
    let r = t.eq(&d);
    assert(call_ensures(T::default, (), d) && (T::obeys_eq_spec() ==> r == t.eq_spec(&d)));
    r
}

/// Whether the rules come in the order of their tags.
pub open spec fn sorted_by_tag(s: Seq<ActiveRule>) -> bool {
    forall|a: int, b: int| 0 <= a < b < s.len() ==> chars_le(s[a].tag@, s[b].tag@)
}

/// The rules in the order of their tags; the order of rules with equal tags
/// is left open.
pub fn sort_rules_by_tag(rules: Vec<ActiveRule>) -> (r: Vec<ActiveRule>)
    ensures
        r@.to_multiset() == rules@.to_multiset(),
        sorted_by_tag(r@),
{
    let ghost all = rules@;
    let mut rest = rules;
    let mut out: Vec<ActiveRule> = Vec::new();
    proof {
        vstd::seq_lib::to_multiset_len(out@);
        vstd::multiset::lemma_multiset_empty_len(out@.to_multiset());
        assert(out@.to_multiset().add(rest@.to_multiset()) =~= all.to_multiset());
    }
    while rest.len() > 0
        invariant
            out@.to_multiset().add(rest@.to_multiset()) == all.to_multiset(),
            sorted_by_tag(out@),
        decreases rest@.len(),
    {
        let ghost before = rest@;
        let x = match rest.pop() {
            Some(x) => x,
            None => {
                return out;
            },
        };
        let mut p: usize = 0;
        while p < out.len() && str_le(out[p].tag.as_str(), x.tag.as_str())
            invariant
                p <= out@.len(),
                forall|a: int| 0 <= a < p ==> chars_le(#[trigger] out@[a].tag@, x.tag@),
            decreases out@.len() - p,
        {
            p += 1;
        }
        let ghost old_out = out@;
        out.insert(p, x);
        proof {
            assert(before =~= rest@.push(x));
            vstd::seq_lib::to_multiset_build(rest@, x);
            vstd::seq_lib::to_multiset_insert(old_out, p as int, x);
            assert(out@ == old_out.insert(p as int, x));
            assert(out@.to_multiset().add(rest@.to_multiset()) =~= old_out.to_multiset().add(
                before.to_multiset(),
            ));
            assert forall|a: int, b: int| 0 <= a < b < out@.len() implies chars_le(
                out@[a].tag@,
                out@[b].tag@,
            ) by {
                if b < p {
                    assert(out@[a] == old_out[a] && out@[b] == old_out[b]);
                } else if b == p {
                    assert(out@[a] == old_out[a] && out@[b] == x);
                } else if a < p {
                    assert(out@[a] == old_out[a] && out@[b] == old_out[b - 1]);
                } else if a == p {
                    assert(out@[a] == x && out@[b] == old_out[b - 1]);
                    lemma_chars_le_total(old_out[p as int].tag@, x.tag@);
                    if b - 1 > p {
                        assert(chars_le(old_out[p as int].tag@, old_out[b - 1].tag@));
                        lemma_chars_le_trans(x.tag@, old_out[p as int].tag@, old_out[b - 1].tag@);
                    }
                } else {
                    assert(out@[a] == old_out[a - 1] && out@[b] == old_out[b - 1]);
                }
            }
        }
    }
    proof {
        vstd::seq_lib::to_multiset_len(rest@);
        vstd::multiset::lemma_multiset_empty_len(rest@.to_multiset());
        assert(out@.to_multiset() =~= out@.to_multiset().add(rest@.to_multiset()));
    }
    out
}

/// The order of rules: by tag, then by value.
pub open spec fn rule_le(a: (Seq<char>, Seq<char>), b: (Seq<char>, Seq<char>)) -> bool {
    if a.0 != b.0 {
        chars_le(a.0, b.0)
    } else {
        chars_le(a.1, b.1)
    }
}

/// The order of active rules: by tag, then by value, then by id.
pub open spec fn active_rule_le(a: ActiveRuleView, b: ActiveRuleView) -> bool {
    if a.tag != b.tag {
        chars_le(a.tag, b.tag)
    } else if a.value != b.value {
        chars_le(a.value, b.value)
    } else {
        a.id <= b.id
    }
}

impl Rule {
    /// The rule of `value` tagged `tag`, when `value` is short enough to be
    /// a rule.
    pub fn try_from(value: String, tag: String) -> (r: Result<Rule, Error>)
        ensures
            match r {
                Ok(rule) => byte_len(value@) <= 512 && rule.value.0@ == value@ && rule.tag@ == tag@,
                Err(Error::RuleLengthExceeded { rule, length, limit }) => byte_len(value@) > 512
                    && rule@ == value@ && length == byte_len(value@) && limit == 512,
                Err(_) => false,
            },
    {
        match RuleString::try_from(value) {
            Ok(v) => Ok(Rule { value: v, tag }),
            Err(e) => Err(e),
        }
    }
}

impl Rule {
    /// Whether the rule comes before `other`, or is equal to it, in the
    /// order of rules.
    pub fn order_le(&self, other: &Rule) -> (r: bool)
        ensures
            r == rule_le((self.tag@, self.value.0@), (other.tag@, other.value.0@)),
    {
        if !str_eq(self.tag.as_str(), other.tag.as_str()) {
            str_le(self.tag.as_str(), other.tag.as_str())
        } else {
            str_le(self.value.0.as_str(), other.value.0.as_str())
        }
    }
}

impl ActiveRule {
    /// Whether the rule comes before `other`, or is equal to it, in the
    /// order of active rules.
    pub fn order_le(&self, other: &ActiveRule) -> (r: bool)
        ensures
            r == active_rule_le(self@, other@),
    {
        if !str_eq(self.tag.as_str(), other.tag.as_str()) {
            str_le(self.tag.as_str(), other.tag.as_str())
        } else if !str_eq(self.value.0.as_str(), other.value.0.as_str()) {
            str_le(self.value.0.as_str(), other.value.0.as_str())
        } else {
            self.id <= other.id
        }
    }
}

/// How many rules a product track allows, and how long each may be.
pub open spec fn track_limits(track: ProductTrack) -> (usize, usize) {
    match track {
        ProductTrack::Standard => (25, 512),
        ProductTrack::AcademicResearch => (1000, 1024),
    }
}

/// The first rule longer than `limit` bytes.
pub open spec fn first_too_long_rule(rules: Seq<Rule>, limit: usize) -> Option<int>
    decreases rules.len(),
{
    if rules.len() == 0 {
        None
    } else if byte_len(rules[0].value.0@) > limit {
        Some(0)
    } else {
        match first_too_long_rule(rules.drop_first(), limit) {
            Some(i) => Some(i + 1),
            None => None,
        }
    }
}

proof fn lemma_first_too_long_rule(rules: Seq<Rule>, limit: usize, i: int)
    requires
        0 <= i <= rules.len(),
        forall|j: int| 0 <= j < i ==> byte_len(#[trigger] rules[j].value.0@) <= limit,
    ensures
        first_too_long_rule(rules, limit) == (match first_too_long_rule(rules.skip(i), limit) {
            Some(k) => Some(k + i),
            None => None::<int>,
        }),
    decreases i,
{
    if i == 0 {
        assert(rules.skip(0) =~= rules);
        match first_too_long_rule(rules, limit) {
            Some(k) => {},
            None => {},
        }
    } else {
        assert(rules.drop_first().skip(i - 1) =~= rules.skip(i));
        assert forall|j: int| 0 <= j < i - 1 implies byte_len(
            #[trigger] rules.drop_first()[j].value.0@,
        ) <= limit by {
            assert(rules.drop_first()[j] == rules[j + 1]);
        }
        lemma_first_too_long_rule(rules.drop_first(), limit, i - 1);
        assert(byte_len(rules[0].value.0@) <= limit);
    }
}

/// Collects the rules of a filtered stream and checks them against the
/// limits of the product track.
#[derive(Debug)]
pub struct RuleBuilder {
    rules: Vec<Rule>,
    track: ProductTrack,
}

impl RuleBuilder {
    pub closed spec fn rules(&self) -> Seq<Rule> {
        self.rules@
    }

    pub closed spec fn track(&self) -> ProductTrack {
        self.track
    }

    /// No rules, for the standard track.
    pub fn new() -> (r: RuleBuilder)
        ensures
            r.rules().len() == 0,
            r.track() == ProductTrack::Standard,
    {
        RuleBuilder { rules: Vec::new(), track: ProductTrack::Standard }
    }

    /// No rules, for `track`.
    pub fn with_track(track: ProductTrack) -> (r: RuleBuilder)
        ensures
            r.rules().len() == 0,
            r.track() == track,
    {
        RuleBuilder { rules: Vec::new(), track }
    }

    /// Adds a rule.
    pub fn add_rule(&mut self, rule: Rule)
        ensures
            final(self).rules() == old(self).rules().push(rule),
            final(self).track() == old(self).track(),
    {
        self.rules.push(rule);
    }

    /// Adds rules, in order.
    pub fn add_rules(&mut self, rules: Vec<Rule>)
        ensures
            final(self).rules() == old(self).rules() + rules@,
            final(self).track() == old(self).track(),
    {
        let mut rules = rules;
        self.rules.append(&mut rules);
    }

    /// The rules, unless there are more than the track allows or one is
    /// longer than it allows (the first such one is reported).
    pub fn build(self) -> (r: Result<Vec<Rule>, Error>)
        ensures
            ({
                let (max_count, max_len) = track_limits(self.track());
                if self.rules().len() > max_count {
                    r matches Err(Error::RuleLimitExceeded { count, limit }) && count
                        == self.rules().len() && limit == max_count
                } else {
                    match first_too_long_rule(self.rules(), max_len) {
                        Some(i) => r matches Err(Error::RuleLengthExceeded { rule, length, limit })
                            && rule@ == self.rules()[i].value.0@ && length == byte_len(
                            self.rules()[i].value.0@,
                        ) && limit == max_len,
                        None => r matches Ok(v) && v@ == self.rules(),
                    }
                }
            }),
    {
        let (max_count, max_len): (usize, usize) = match self.track {
            ProductTrack::Standard => (25, 512),
            ProductTrack::AcademicResearch => (1000, 1024),
        };
        if self.rules.len() > max_count {
            return Err(Error::RuleLimitExceeded { count: self.rules.len(), limit: max_count });
        }
        let mut i: usize = 0;
        while i < self.rules.len()
            invariant
                i <= self.rules@.len(),
                self.rules@.len() <= max_count,
                (max_count, max_len) == track_limits(self.track),
                forall|j: int| 0 <= j < i ==> byte_len(#[trigger] self.rules@[j].value.0@) <= max_len,
            decreases self.rules@.len() - i,
        {
            let length = self.rules[i].value.0.as_str().len();
            if length > max_len {
                proof {
                    lemma_first_too_long_rule(self.rules@, max_len, i as int);
                    assert(self.rules@.skip(i as int)[0] == self.rules@[i as int]);
                }
                return Err(
                    Error::RuleLengthExceeded {
                        rule: self.rules[i].value.0.clone(),
                        length,
                        limit: max_len,
                    },
                );
            }
            i += 1;
        }
        proof {
            lemma_first_too_long_rule(self.rules@, max_len, i as int);
        }
        Ok(self.rules)
    }
}

} // verus!
