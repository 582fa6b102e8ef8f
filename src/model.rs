//! The records the engine keeps and the events it serves.
//!
//! Times are held as milliseconds since the Unix epoch.

use crate::clock::{parse_rfc3339_millis, rfc3339_millis};
use crate::find::{first_match, is_first_match, lemma_first_match_at, lemma_first_match_none};
use crate::text::{concat_text, text_is};
use vstd::prelude::*;
use vstd::string::*;

verus! {

/// A thumbnail image of a channel or a video.
pub struct Thumbnail {
    pub url: String,
    pub width: u32,
    pub height: u32,
}

/// The live-stream timing of a video, as the metadata API reports it.
pub struct LiveStreamingDetails {
    pub actual_start_time: Option<String>,
    pub scheduled_start_time: Option<String>,
}

/// The descriptive part of a video's metadata.
pub struct VideoSnippet {
    pub channel_id: String,
    pub title: String,
    pub description: String,
    /// `"none"`, `"live"` or `"upcoming"`.
    pub live_broadcast_content: String,
    /// Thumbnails by size name (`"default"`, `"medium"`, ...).
    pub thumbnails: Vec<(String, Thumbnail)>,
}

/// The metadata of one video, as fetched from platform A.
pub struct VideoRecord {
    pub id: String,
    pub snippet: Option<VideoSnippet>,
    pub live_streaming_details: Option<LiveStreamingDetails>,
}

/// The descriptive part of a channel's metadata.
pub struct ChannelSnippet {
    pub title: String,
    pub custom_url: String,
    pub thumbnails: Vec<(String, Thumbnail)>,
}

/// The metadata of one platform-A channel.
pub struct ChannelRecord {
    pub id: String,
    pub snippet: Option<ChannelSnippet>,
    /// The id of the channel's uploads playlist.
    pub uploads_playlist: Option<String>,
}

/// One item of a playlist.
pub struct PlaylistItemRecord {
    pub id: String,
    pub video_id: Option<String>,
}

/// A stream that is live on platform B.
pub struct StreamInformation {
    pub id: String,
    pub user_id: String,
    pub user_login: String,
    pub user_name: String,
    pub game_name: String,
    pub title: String,
    pub started_at_millis: i64,
    /// Contains the placeholders `{width}` and `{height}`.
    pub thumbnail_url: String,
}

/// A user of platform B.
pub struct UserInformation {
    pub id: String,
    pub login: String,
    pub display_name: String,
    pub profile_image_url: String,
}

/// A tracked channel of platform A.
pub struct YtChannelSave {
    pub custom_url: String,
    pub id: String,
    pub title: String,
    pub thumbnail: String,
    pub upload_playlist: String,
    pub last_time_used: i64,
    /// The watermark: the newest ordinary upload already resolved; empty when unset.
    pub first_video_after_all_stream: String,
}

/// A tracked channel of platform B.
pub struct TwChannelSave {
    pub id: String,
    pub login: String,
    pub profile_img: String,
    pub name: String,
    pub last_time_used: i64,
}

/// The channel an event comes from, platform A.
pub struct YtChannelBrief {
    pub id: String,
    pub thumbnail_url: String,
    pub title: String,
    pub custom_url: String,
}

/// The channel an event comes from, platform B.
pub struct TwChannelBrief {
    pub id: String,
    pub thumbnail_url: String,
    pub title: String,
    pub login: String,
}

pub enum EventSource {
    YoutubeChannel(YtChannelBrief),
    TwitchChannel(TwChannelBrief),
}

/// A scheduled or live stream. Events are identified by `uid`.
pub struct UpcomingEvent {
    pub start_timestamp_millis: i64,
    pub thumbnail_url: Option<String>,
    pub title: String,
    pub description: String,
    pub target_url: String,
    pub ongoing: bool,
    pub source: EventSource,
    pub uid: String,
}

/// Why a platform-A call failed.
#[derive(Debug)]
pub enum YtApiError {
    /// Upstream unreachable or a non-success status, when one was given.
    RequestFailed(Option<u16>),
    /// The response did not have the expected shape.
    DeserializeFailed(String),
    /// The caller supplied no input.
    InvalidParameter,
    /// No channel id could be found.
    NotFound,
}

/// Why a fetched video did not become an event.
pub enum ConvertToUpcomingEventError {
    /// The video is no longer live or upcoming; carries the video id.
    AlreadyDone(String),
    /// A required field is absent; carries the field's name.
    MissingInformation(String),
    /// A start time could not be parsed; carries the text.
    DecodeError(String),
    /// The video's channel is not tracked; carries the channel id.
    EventSourceNotFound(String),
    /// The live state is not recognised; carries the video id.
    Unknown(String),
}

pub enum SourceView {
    Youtube { id: Seq<char>, thumbnail_url: Seq<char>, title: Seq<char>, custom_url: Seq<char> },
    Twitch { id: Seq<char>, thumbnail_url: Seq<char>, title: Seq<char>, login: Seq<char> },
}

pub struct EventView {
    pub start_millis: i64,
    pub thumbnail_url: Option<Seq<char>>,
    pub title: Seq<char>,
    pub description: Seq<char>,
    pub target_url: Seq<char>,
    pub ongoing: bool,
    pub source: SourceView,
    pub uid: Seq<char>,
}

pub enum ConvertErrorView {
    AlreadyDone(Seq<char>),
    MissingInformation(Seq<char>),
    DecodeError(Seq<char>),
    EventSourceNotFound(Seq<char>),
    Unknown(Seq<char>),
}

pub open spec fn opt_text(o: Option<String>) -> Option<Seq<char>> {
    match o {
        Some(s) => Some(s@),
        None => None,
    }
}

impl View for EventSource {
    type V = SourceView;

    open spec fn view(&self) -> SourceView {
        match self {
            EventSource::YoutubeChannel(c) => SourceView::Youtube {
                id: c.id@,
                thumbnail_url: c.thumbnail_url@,
                title: c.title@,
                custom_url: c.custom_url@,
            },
            EventSource::TwitchChannel(c) => SourceView::Twitch {
                id: c.id@,
                thumbnail_url: c.thumbnail_url@,
                title: c.title@,
                login: c.login@,
            },
        }
    }
}

impl View for UpcomingEvent {
    type V = EventView;

    open spec fn view(&self) -> EventView {
        EventView {
            start_millis: self.start_timestamp_millis,
            thumbnail_url: opt_text(self.thumbnail_url),
            title: self.title@,
            description: self.description@,
            target_url: self.target_url@,
            ongoing: self.ongoing,
            source: self.source@,
            uid: self.uid@,
        }
    }
}

impl View for ConvertToUpcomingEventError {
    type V = ConvertErrorView;

    open spec fn view(&self) -> ConvertErrorView {
        match self {
            ConvertToUpcomingEventError::AlreadyDone(s) => ConvertErrorView::AlreadyDone(s@),
            ConvertToUpcomingEventError::MissingInformation(s) => ConvertErrorView::MissingInformation(s@),
            ConvertToUpcomingEventError::DecodeError(s) => ConvertErrorView::DecodeError(s@),
            ConvertToUpcomingEventError::EventSourceNotFound(s) => ConvertErrorView::EventSourceNotFound(s@),
            ConvertToUpcomingEventError::Unknown(s) => ConvertErrorView::Unknown(s@),
        }
    }
}

pub open spec fn conversion_view(r: Result<UpcomingEvent, ConvertToUpcomingEventError>) -> Result<EventView, ConvertErrorView> {
    match r {
        Ok(e) => Ok(e@),
        Err(e) => Err(e@),
    }
}

/// The video has metadata and the platform reports it neither live nor upcoming.
pub open spec fn is_finished(v: VideoRecord) -> bool {
    v.snippet is Some && v.snippet->Some_0.live_broadcast_content@ == "none"@
}

/// The video has metadata and the platform reports it live or upcoming.
pub open spec fn is_live_or_upcoming(v: VideoRecord) -> bool {
    v.snippet is Some && (v.snippet->Some_0.live_broadcast_content@ == "live"@
        || v.snippet->Some_0.live_broadcast_content@ == "upcoming"@)
}

/// The channel a video belongs to, when its metadata says.
pub open spec fn video_channel(v: VideoRecord) -> Option<Seq<char>> {
    match v.snippet {
        Some(sn) => Some(sn.channel_id@),
        None => None,
    }
}

pub open spec fn medium_pred() -> spec_fn((String, Thumbnail)) -> bool {
    |t: (String, Thumbnail)| t.0@ == "medium"@
}

/// The position of the `"medium"` thumbnail.
pub open spec fn medium_pos(ts: Seq<(String, Thumbnail)>) -> Option<int> {
    first_match(ts, medium_pred())
}

pub open spec fn yt_id_pred(id: Seq<char>) -> spec_fn(YtChannelSave) -> bool {
    |c: YtChannelSave| c.id@ == id
}

/// The position of the tracked platform-A channel with this id.
pub open spec fn yt_channel_pos(chans: Seq<YtChannelSave>, id: Seq<char>) -> Option<int> {
    first_match(chans, yt_id_pred(id))
}

pub open spec fn yt_source_view(c: YtChannelSave) -> SourceView {
    SourceView::Youtube {
        id: c.id@,
        thumbnail_url: c.thumbnail@,
        title: c.title@,
        custom_url: c.custom_url@,
    }
}

/// The start-time text of a video: the actual start, else the scheduled one.
pub open spec fn start_text_of(v: VideoRecord) -> Result<Seq<char>, ConvertErrorView> {
    match v.live_streaming_details {
        None => Err(ConvertErrorView::MissingInformation("liveStreamingDetails"@)),
        Some(l) => match l.actual_start_time {
            Some(t) => Ok(t@),
            None => match l.scheduled_start_time {
                Some(t) => Ok(t@),
                None => Err(ConvertErrorView::MissingInformation("start time"@)),
            },
        },
    }
}

/// The event a fetched video becomes, or why it becomes none.
pub open spec fn convert_spec(v: VideoRecord, chans: Seq<YtChannelSave>) -> Result<EventView, ConvertErrorView> {
    match start_text_of(v) {
        Err(e) => Err(e),
        Ok(t) => match rfc3339_millis(t) {
            None => Err(ConvertErrorView::DecodeError(t)),
            Some(ms) => match v.snippet {
                None => Err(ConvertErrorView::MissingInformation("snippet"@)),
                Some(sn) => if sn.live_broadcast_content@ == "none"@ {
                    Err(ConvertErrorView::AlreadyDone(v.id@))
                } else if sn.live_broadcast_content@ != "live"@ && sn.live_broadcast_content@ != "upcoming"@ {
                    Err(ConvertErrorView::Unknown(v.id@))
                } else {
                    match medium_pos(sn.thumbnails@) {
                        None => Err(ConvertErrorView::MissingInformation("Default thumbnail"@)),
                        Some(ti) => match yt_channel_pos(chans, sn.channel_id@) {
                            None => Err(ConvertErrorView::EventSourceNotFound(sn.channel_id@)),
                            Some(ci) => Ok(EventView {
                                start_millis: ms,
                                thumbnail_url: Some(sn.thumbnails@[ti].1.url@),
                                title: sn.title@,
                                description: sn.description@,
                                target_url: "https://www.youtube.com/watch?v="@ + v.id@,
                                ongoing: sn.live_broadcast_content@ == "live"@,
                                source: yt_source_view(chans[ci]),
                                uid: v.id@ + "@yt@yt-watcher"@,
                            }),
                        },
                    }
                },
            },
        },
    }
}

/// The event a live platform-B stream becomes.
pub open spec fn stream_event_spec(s: StreamInformation, profile_img: Seq<char>) -> EventView {
    EventView {
        start_millis: s.started_at_millis,
        thumbnail_url: Some(crate::text::thumbnail_text(s.thumbnail_url@)),
        title: s.title@,
        description: s.game_name@,
        target_url: "https://www.twitch.tv/"@ + s.user_login@,
        ongoing: true,
        source: SourceView::Twitch {
            id: s.user_id@,
            thumbnail_url: profile_img,
            title: s.user_name@,
            login: s.user_login@,
        },
        uid: s.user_login@ + "@twitch@yt-watcher"@,
    }
}

/// The position of the `"medium"` thumbnail.
pub fn find_medium_thumbnail(ts: &Vec<(String, Thumbnail)>) -> (r: Option<usize>)
    ensures
        match r {
            Some(i) => medium_pos(ts@) == Some(i as int),
            None => medium_pos(ts@) is None,
        },
{
    let mut i: usize = 0;
    while i < ts.len()
        invariant
            i <= ts.len(),
            forall|j: int| 0 <= j < i ==> !(medium_pred())(#[trigger] ts@[j]),
        decreases ts.len() - i,
    {
        if text_is(&ts[i].0, "medium") {
            proof {
                assert(is_first_match(ts@, medium_pred(), i as int));
                lemma_first_match_at(ts@, medium_pred(), i as int);
            }
            return Some(i);
        }
        i = i + 1;
    }
    proof {
        lemma_first_match_none(ts@, medium_pred());
    }
    None
}

/// The position of the tracked platform-A channel with this id.
pub fn find_yt_channel(chans: &Vec<YtChannelSave>, id: &String) -> (r: Option<usize>)
    ensures
        match r {
            Some(i) => yt_channel_pos(chans@, id@) == Some(i as int),
            None => yt_channel_pos(chans@, id@) is None,
        },
{
    let mut i: usize = 0;
    while i < chans.len()
        invariant
            i <= chans.len(),
            forall|j: int| 0 <= j < i ==> !(yt_id_pred(id@))(#[trigger] chans@[j]),
        decreases chans.len() - i,
    {
        if chans[i].id.eq(id) {
            proof {
                assert(is_first_match(chans@, yt_id_pred(id@), i as int));
                lemma_first_match_at(chans@, yt_id_pred(id@), i as int);
            }
            return Some(i);
        }
        i = i + 1;
    }
    proof {
        lemma_first_match_none(chans@, yt_id_pred(id@));
    }
    None
}

fn missing(field: &str) -> (r: ConvertToUpcomingEventError)
    ensures
        r@ == ConvertErrorView::MissingInformation(field@),
{
    ConvertToUpcomingEventError::MissingInformation(String::from_str(field))
}

impl YtChannelSave {
    /// The brief descriptor of this channel that events carry.
    pub fn brief(&self) -> (r: YtChannelBrief)
        ensures
            EventSource::YoutubeChannel(r)@ == yt_source_view(*self),
    {
        YtChannelBrief {
            id: self.id.clone(),
            thumbnail_url: self.thumbnail.clone(),
            title: self.title.clone(),
            custom_url: self.custom_url.clone(),
        }
    }
}

impl UpcomingEvent {
    /// Converts a fetched platform-A video into an event.
    pub fn from_video(v: &VideoRecord, channels: &Vec<YtChannelSave>) -> (r: Result<UpcomingEvent, ConvertToUpcomingEventError>)
        ensures
            conversion_view(r) == convert_spec(*v, channels@),
    {
        let start_text: &String = match &v.live_streaming_details {
            None => {
                return Err(missing("liveStreamingDetails"));
            },
            Some(l) => match &l.actual_start_time {
                Some(t) => t,
                None => match &l.scheduled_start_time {
                    Some(t) => t,
                    None => {
                        return Err(missing("start time"));
                    },
                },
            },
        };
        let start = match parse_rfc3339_millis(start_text.as_str()) {
            Some(ms) => ms,
            None => {
                return Err(ConvertToUpcomingEventError::DecodeError(start_text.clone()));
            },
        };
        let sn = match &v.snippet {
            None => {
                return Err(missing("snippet"));
            },
            Some(sn) => sn,
        };
        if text_is(&sn.live_broadcast_content, "none") {
            return Err(ConvertToUpcomingEventError::AlreadyDone(v.id.clone()));
        }
        let ongoing = text_is(&sn.live_broadcast_content, "live");
        if !ongoing && !text_is(&sn.live_broadcast_content, "upcoming") {
            return Err(ConvertToUpcomingEventError::Unknown(v.id.clone()));
        }
        let ti = match find_medium_thumbnail(&sn.thumbnails) {
            None => {
                return Err(missing("Default thumbnail"));
            },
            Some(ti) => ti,
        };
        let ci = match find_yt_channel(channels, &sn.channel_id) {
            None => {
                return Err(ConvertToUpcomingEventError::EventSourceNotFound(sn.channel_id.clone()));
            },
            Some(ci) => ci,
        };
        let e = UpcomingEvent {
            start_timestamp_millis: start,
            thumbnail_url: Some(sn.thumbnails[ti].1.url.clone()),
            title: sn.title.clone(),
            description: sn.description.clone(),
            target_url: concat_text("https://www.youtube.com/watch?v=", v.id.as_str()),
            ongoing,
            source: EventSource::YoutubeChannel(channels[ci].brief()),
            uid: concat_text(v.id.as_str(), "@yt@yt-watcher"),
        };
        Ok(e)
    }

    /// The event of a live platform-B stream; `profile_img` is its channel's picture.
    pub fn from_stream(s: &StreamInformation, profile_img: &String) -> (r: UpcomingEvent)
        ensures
            r@ == stream_event_spec(*s, profile_img@),
    {
        UpcomingEvent {
            start_timestamp_millis: s.started_at_millis,
            thumbnail_url: Some(crate::text::process_thumbnail_url(s.thumbnail_url.as_str(), 320, 180)),
            title: s.title.clone(),
            description: s.game_name.clone(),
            target_url: concat_text("https://www.twitch.tv/", s.user_login.as_str()),
            ongoing: true,
            source: EventSource::TwitchChannel(TwChannelBrief {
                id: s.user_id.clone(),
                thumbnail_url: profile_img.clone(),
                title: s.user_name.clone(),
                login: s.user_login.clone(),
            }),
            uid: concat_text(s.user_login.as_str(), "@twitch@yt-watcher"),
        }
    }
}

} // verus!
