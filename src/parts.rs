//! Field-selection sets ("parts") for the metered metadata API.
//!
//! Each set is a fixed collection of recognised options; `build` renders the
//! selected ones, in the API's order, as the comma-separated `part` value.

use crate::text::{join_comma, push_joined};
use vstd::prelude::*;

verus! {

/// The names whose flag is set, in order.
pub open spec fn selected_names(opts: Seq<(bool, Seq<char>)>) -> Seq<Seq<char>>
    decreases opts.len(),
{
    if opts.len() == 0 {
        Seq::empty()
    } else if opts.last().0 {
        selected_names(opts.drop_last()).push(opts.last().1)
    } else {
        selected_names(opts.drop_last())
    }
}

/// The flags and names of a list of options, as plain values.
pub open spec fn options_view(opts: Seq<(bool, &str)>) -> Seq<(bool, Seq<char>)> {
    opts.map_values(|o: (bool, &str)| (o.0, o.1@))
}

/// Joins by commas the names of the options whose flag is set.
pub fn join_selected(opts: &Vec<(bool, &str)>) -> (r: String)
    ensures
        r@ == join_comma(selected_names(options_view(opts@))),
{
    let mut out = String::new();
    let mut any = false;
    let mut i: usize = 0;
    proof {
        reveal(join_comma);
        assert(options_view(opts@).take(0) =~= Seq::empty());
    }
    while i < opts.len()
        invariant
            i <= opts.len(),
            out@ == join_comma(selected_names(options_view(opts@).take(i as int))),
            any == (selected_names(options_view(opts@).take(i as int)).len() > 0),
        decreases opts.len() - i,
    {
        let ghost before = options_view(opts@).take(i as int);
        let (selected, name) = opts[i];
        assert(options_view(opts@).take(i + 1).drop_last() =~= before);
        if selected {
            push_joined(&mut out, any, Ghost(selected_names(before)), name);
            any = true;
        }
        i = i + 1;
    }
    assert(options_view(opts@).take(opts.len() as int) =~= options_view(opts@));
    out
}

/// The options of a request for channel resources.
pub struct GetChannelParts {
    pub _audit_details: bool,
    pub _branding_settings: bool,
    pub _content_details: bool,
    pub _content_owner_details: bool,
    pub _id: bool,
    pub _localizations: bool,
    pub _snippet: bool,
    pub _statistics: bool,
    pub _status: bool,
    pub _topic_details: bool,
}

/// The options of `p` with their API names, in the API's order.
pub open spec fn channel_part_options(p: GetChannelParts) -> Seq<(bool, Seq<char>)> {
    seq![
        (p._audit_details, "auditDetails"@),
        (p._branding_settings, "brandingSettings"@),
        (p._content_details, "contentDetails"@),
        (p._content_owner_details, "contentOwnerDetails"@),
        (p._id, "id"@),
        (p._localizations, "localizations"@),
        (p._snippet, "snippet"@),
        (p._statistics, "statistics"@),
        (p._status, "status"@),
        (p._topic_details, "topicDetails"@),
    ]
}

/// The API names of the options selected in `p`, in the API's order.
pub open spec fn channel_part_names(p: GetChannelParts) -> Seq<Seq<char>> {
    selected_names(channel_part_options(p))
}

impl Default for GetChannelParts {
    fn default() -> (r: Self)
        ensures
            !r._audit_details,
            !r._branding_settings,
            !r._content_details,
            !r._content_owner_details,
            !r._id,
            !r._localizations,
            !r._snippet,
            !r._statistics,
            !r._status,
            !r._topic_details,
    {
        GetChannelParts {
            _audit_details: false,
            _branding_settings: false,
            _content_details: false,
            _content_owner_details: false,
            _id: false,
            _localizations: false,
            _snippet: false,
            _statistics: false,
            _status: false,
            _topic_details: false,
        }
    }
}

impl GetChannelParts {
    /// The `part` parameter: the selected names joined by commas.
    pub fn build(&self) -> (r: String)
        ensures
            r@ == join_comma(channel_part_names(*self)),
    {
        let opts = vec![
            (self._audit_details, "auditDetails"),
            (self._branding_settings, "brandingSettings"),
            (self._content_details, "contentDetails"),
            (self._content_owner_details, "contentOwnerDetails"),
            (self._id, "id"),
            (self._localizations, "localizations"),
            (self._snippet, "snippet"),
            (self._statistics, "statistics"),
            (self._status, "status"),
            (self._topic_details, "topicDetails"),
        ];
        let r = join_selected(&opts);
        assert(options_view(opts@) =~= channel_part_options(*self));
        r
    }

    /// Selects `auditDetails`.
    pub fn audit_details(self) -> (r: Self)
        ensures
            r == (GetChannelParts { _audit_details: true, ..self }),
    {
        GetChannelParts { _audit_details: true, ..self }
    }

    /// Selects `brandingSettings`.
    pub fn branding_settings(self) -> (r: Self)
        ensures
            r == (GetChannelParts { _branding_settings: true, ..self }),
    {
        GetChannelParts { _branding_settings: true, ..self }
    }

    /// Selects `contentDetails`.
    pub fn content_details(self) -> (r: Self)
        ensures
            r == (GetChannelParts { _content_details: true, ..self }),
    {
        GetChannelParts { _content_details: true, ..self }
    }

    /// Selects `contentOwnerDetails`.
    pub fn content_owner_details(self) -> (r: Self)
        ensures
            r == (GetChannelParts { _content_owner_details: true, ..self }),
    {
        GetChannelParts { _content_owner_details: true, ..self }
    }

    /// Selects `id`.
    pub fn id(self) -> (r: Self)
        ensures
            r == (GetChannelParts { _id: true, ..self }),
    {
        GetChannelParts { _id: true, ..self }
    }

    /// Selects `localizations`.
    pub fn localizations(self) -> (r: Self)
        ensures
            r == (GetChannelParts { _localizations: true, ..self }),
    {
        GetChannelParts { _localizations: true, ..self }
    }

    /// Selects `snippet`.
    pub fn snippet(self) -> (r: Self)
        ensures
            r == (GetChannelParts { _snippet: true, ..self }),
    {
        GetChannelParts { _snippet: true, ..self }
    }

    /// Selects `statistics`.
    pub fn statistics(self) -> (r: Self)
        ensures
            r == (GetChannelParts { _statistics: true, ..self }),
    {
        GetChannelParts { _statistics: true, ..self }
    }

    /// Selects `status`.
    pub fn status(self) -> (r: Self)
        ensures
            r == (GetChannelParts { _status: true, ..self }),
    {
        GetChannelParts { _status: true, ..self }
    }

    /// Selects `topicDetails`.
    pub fn topic_details(self) -> (r: Self)
        ensures
            r == (GetChannelParts { _topic_details: true, ..self }),
    {
        GetChannelParts { _topic_details: true, ..self }
    }

    /// Whether no option is selected.
    pub fn is_none(&self) -> (r: bool)
        ensures
            r == (!self._audit_details
            && !self._branding_settings
            && !self._content_details
            && !self._content_owner_details
            && !self._id
            && !self._localizations
            && !self._snippet
            && !self._statistics
            && !self._status
            && !self._topic_details),
    {
        !self._audit_details
            && !self._branding_settings
            && !self._content_details
            && !self._content_owner_details
            && !self._id
            && !self._localizations
            && !self._snippet
            && !self._statistics
            && !self._status
            && !self._topic_details
    }
}

/// The options of a request for playlist-item resources.
pub struct GetPlaylistItemParts {
    pub _content_details: bool,
    pub _id: bool,
    pub _snippet: bool,
    pub _status: bool,
}

/// The options of `p` with their API names, in the API's order.
pub open spec fn playlist_item_part_options(p: GetPlaylistItemParts) -> Seq<(bool, Seq<char>)> {
    seq![
        (p._content_details, "contentDetails"@),
        (p._id, "id"@),
        (p._snippet, "snippet"@),
        (p._status, "status"@),
    ]
}

/// The API names of the options selected in `p`, in the API's order.
pub open spec fn playlist_item_part_names(p: GetPlaylistItemParts) -> Seq<Seq<char>> {
    selected_names(playlist_item_part_options(p))
}

impl Default for GetPlaylistItemParts {
    fn default() -> (r: Self)
        ensures
            !r._content_details,
            !r._id,
            !r._snippet,
            !r._status,
    {
        GetPlaylistItemParts {
            _content_details: false,
            _id: false,
            _snippet: false,
            _status: false,
        }
    }
}

impl GetPlaylistItemParts {
    /// The `part` parameter: the selected names joined by commas.
    pub fn build(&self) -> (r: String)
        ensures
            r@ == join_comma(playlist_item_part_names(*self)),
    {
        let opts = vec![
            (self._content_details, "contentDetails"),
            (self._id, "id"),
            (self._snippet, "snippet"),
            (self._status, "status"),
        ];
        let r = join_selected(&opts);
        assert(options_view(opts@) =~= playlist_item_part_options(*self));
        r
    }

    /// Selects `contentDetails`.
    pub fn content_details(self) -> (r: Self)
        ensures
            r == (GetPlaylistItemParts { _content_details: true, ..self }),
    {
        GetPlaylistItemParts { _content_details: true, ..self }
    }

    /// Selects `id`.
    pub fn id(self) -> (r: Self)
        ensures
            r == (GetPlaylistItemParts { _id: true, ..self }),
    {
        GetPlaylistItemParts { _id: true, ..self }
    }

    /// Selects `snippet`.
    pub fn snippet(self) -> (r: Self)
        ensures
            r == (GetPlaylistItemParts { _snippet: true, ..self }),
    {
        GetPlaylistItemParts { _snippet: true, ..self }
    }

    /// Selects `status`.
    pub fn status(self) -> (r: Self)
        ensures
            r == (GetPlaylistItemParts { _status: true, ..self }),
    {
        GetPlaylistItemParts { _status: true, ..self }
    }

    /// Whether no option is selected.
    pub fn is_none(&self) -> (r: bool)
        ensures
            r == (!self._content_details
            && !self._id
            && !self._snippet
            && !self._status),
    {
        !self._content_details
            && !self._id
            && !self._snippet
            && !self._status
    }
}

/// The options of a request for video resources.
pub struct GetVideoParts {
    pub _content_details: bool,
    pub _file_details: bool,
    pub _id: bool,
    pub _live_streaming_details: bool,
    pub _localizations: bool,
    pub _player: bool,
    pub _processing_details: bool,
    pub _recording_details: bool,
    pub _snippet: bool,
    pub _statistics: bool,
    pub _status: bool,
    pub _suggestions: bool,
    pub _topic_details: bool,
}

/// The options of `p` with their API names, in the API's order.
pub open spec fn video_part_options(p: GetVideoParts) -> Seq<(bool, Seq<char>)> {
    seq![
        (p._content_details, "contentDetails"@),
        (p._file_details, "fileDetails"@),
        (p._id, "id"@),
        (p._live_streaming_details, "liveStreamingDetails"@),
        (p._localizations, "localizations"@),
        (p._player, "player"@),
        (p._processing_details, "processingDetails"@),
        (p._recording_details, "recordingDetails"@),
        (p._snippet, "snippet"@),
        (p._statistics, "statistics"@),
        (p._status, "status"@),
        (p._suggestions, "suggestions"@),
        (p._topic_details, "topicDetails"@),
    ]
}

/// The API names of the options selected in `p`, in the API's order.
pub open spec fn video_part_names(p: GetVideoParts) -> Seq<Seq<char>> {
    selected_names(video_part_options(p))
}

impl Default for GetVideoParts {
    fn default() -> (r: Self)
        ensures
            !r._content_details,
            !r._file_details,
            !r._id,
            !r._live_streaming_details,
            !r._localizations,
            !r._player,
            !r._processing_details,
            !r._recording_details,
            !r._snippet,
            !r._statistics,
            !r._status,
            !r._suggestions,
            !r._topic_details,
    {
        GetVideoParts {
            _content_details: false,
            _file_details: false,
            _id: false,
            _live_streaming_details: false,
            _localizations: false,
            _player: false,
            _processing_details: false,
            _recording_details: false,
            _snippet: false,
            _statistics: false,
            _status: false,
            _suggestions: false,
            _topic_details: false,
        }
    }
}

impl GetVideoParts {
    /// The `part` parameter: the selected names joined by commas.
    pub fn build(&self) -> (r: String)
        ensures
            r@ == join_comma(video_part_names(*self)),
    {
        let opts = vec![
            (self._content_details, "contentDetails"),
            (self._file_details, "fileDetails"),
            (self._id, "id"),
            (self._live_streaming_details, "liveStreamingDetails"),
            (self._localizations, "localizations"),
            (self._player, "player"),
            (self._processing_details, "processingDetails"),
            (self._recording_details, "recordingDetails"),
            (self._snippet, "snippet"),
            (self._statistics, "statistics"),
            (self._status, "status"),
            (self._suggestions, "suggestions"),
            (self._topic_details, "topicDetails"),
        ];
        let r = join_selected(&opts);
        assert(options_view(opts@) =~= video_part_options(*self));
        r
    }

    /// Selects `contentDetails`.
    pub fn content_details(self) -> (r: Self)
        ensures
            r == (GetVideoParts { _content_details: true, ..self }),
    {
        GetVideoParts { _content_details: true, ..self }
    }

    /// Selects `fileDetails`.
    pub fn file_details(self) -> (r: Self)
        ensures
            r == (GetVideoParts { _file_details: true, ..self }),
    {
        GetVideoParts { _file_details: true, ..self }
    }

    /// Selects `id`.
    pub fn id(self) -> (r: Self)
        ensures
            r == (GetVideoParts { _id: true, ..self }),
    {
        GetVideoParts { _id: true, ..self }
    }

    /// Selects `liveStreamingDetails`.
    pub fn live_streaming_details(self) -> (r: Self)
        ensures
            r == (GetVideoParts { _live_streaming_details: true, ..self }),
    {
        GetVideoParts { _live_streaming_details: true, ..self }
    }

    /// Selects `localizations`.
    pub fn localizations(self) -> (r: Self)
        ensures
            r == (GetVideoParts { _localizations: true, ..self }),
    {
        GetVideoParts { _localizations: true, ..self }
    }

    /// Selects `player`.
    pub fn player(self) -> (r: Self)
        ensures
            r == (GetVideoParts { _player: true, ..self }),
    {
        GetVideoParts { _player: true, ..self }
    }

    /// Selects `processingDetails`.
    pub fn processing_details(self) -> (r: Self)
        ensures
            r == (GetVideoParts { _processing_details: true, ..self }),
    {
        GetVideoParts { _processing_details: true, ..self }
    }

    /// Selects `recordingDetails`.
    pub fn recording_details(self) -> (r: Self)
        ensures
            r == (GetVideoParts { _recording_details: true, ..self }),
    {
        GetVideoParts { _recording_details: true, ..self }
    }

    /// Selects `snippet`.
    pub fn snippet(self) -> (r: Self)
        ensures
            r == (GetVideoParts { _snippet: true, ..self }),
    {
        GetVideoParts { _snippet: true, ..self }
    }

    /// Selects `statistics`.
    pub fn statistics(self) -> (r: Self)
        ensures
            r == (GetVideoParts { _statistics: true, ..self }),
    {
        GetVideoParts { _statistics: true, ..self }
    }

    /// Selects `status`.
    pub fn status(self) -> (r: Self)
        ensures
            r == (GetVideoParts { _status: true, ..self }),
    {
        GetVideoParts { _status: true, ..self }
    }

    /// Selects `suggestions`.
    pub fn suggestions(self) -> (r: Self)
        ensures
            r == (GetVideoParts { _suggestions: true, ..self }),
    {
        GetVideoParts { _suggestions: true, ..self }
    }

    /// Selects `topicDetails`.
    pub fn topic_details(self) -> (r: Self)
        ensures
            r == (GetVideoParts { _topic_details: true, ..self }),
    {
        GetVideoParts { _topic_details: true, ..self }
    }

    /// Whether no option is selected.
    pub fn is_none(&self) -> (r: bool)
        ensures
            r == (!self._content_details
            && !self._file_details
            && !self._id
            && !self._live_streaming_details
            && !self._localizations
            && !self._player
            && !self._processing_details
            && !self._recording_details
            && !self._snippet
            && !self._statistics
            && !self._status
            && !self._suggestions
            && !self._topic_details),
    {
        !self._content_details
            && !self._file_details
            && !self._id
            && !self._live_streaming_details
            && !self._localizations
            && !self._player
            && !self._processing_details
            && !self._recording_details
            && !self._snippet
            && !self._statistics
            && !self._status
            && !self._suggestions
            && !self._topic_details
    }
}

} // verus!
