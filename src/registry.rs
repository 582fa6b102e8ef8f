//! The registry of tracked channels and the refresh-cycle engine.
//!
//! Upstream fetches happen outside; the functions here take what came back
//! and decide what is tracked, what is still pending, where each channel's
//! watermark stands and which events the snapshot holds.

use crate::events::{
    distinct_uids, evs, find_tw_channel, lemma_upsert, lemma_upsert_all, stream_events,
    tw_channel_pos, upsert_all, upsert_event, upsert_stream_events, video_events,
};
use crate::model::{
    find_yt_channel, is_live_or_upcoming, is_finished, video_channel, yt_channel_pos,
    StreamInformation, TwChannelSave, UpcomingEvent, VideoRecord, YtChannelSave, ChannelRecord,
    Thumbnail, UserInformation, PlaylistItemRecord, medium_pos, find_medium_thumbnail,
};
use crate::pending::{contains_text, dedup, distinct, lemma_dedup, lemma_with_text_distinct, push_text, texts, with_text, YtVideosSave};
use crate::find::{keep, first_match, is_first_match, lemma_first_match_at, lemma_first_match_none};
use crate::model::{convert_spec, EventSource, EventView, SourceView, yt_id_pred};
use crate::text::text_is;
use vstd::prelude::*;

verus! {

/// The ids of a list of platform-A channels.
pub open spec fn yt_ids(chans: Seq<YtChannelSave>) -> Seq<Seq<char>> {
    chans.map_values(|c: YtChannelSave| c.id@)
}

/// The logins of a list of platform-B channels.
pub open spec fn tw_logins(tws: Seq<TwChannelSave>) -> Seq<Seq<char>> {
    tws.map_values(|c: TwChannelSave| c.login@)
}

/// The video belongs to a tracked channel.
pub open spec fn tracked_video(v: VideoRecord, chans: Seq<YtChannelSave>) -> bool {
    match video_channel(v) {
        Some(c) => yt_channel_pos(chans, c) is Some,
        None => false,
    }
}

/// `base` followed by the ids, not yet in it, of the fetched videos of
/// tracked channels that are still live or upcoming.
pub open spec fn add_live(base: Seq<Seq<char>>, vs: Seq<VideoRecord>, chans: Seq<YtChannelSave>) -> Seq<Seq<char>>
    decreases vs.len(),
{
    if vs.len() == 0 {
        base
    } else if is_live_or_upcoming(vs.last()) && tracked_video(vs.last(), chans) {
        with_text(add_live(base, vs.drop_last(), chans), vs.last().id@)
    } else {
        add_live(base, vs.drop_last(), chans)
    }
}

/// The ids, without repeats, of the fetched videos of tracked channels that
/// are live or upcoming; finished videos and those in an unrecognised state
/// are left out.
pub open spec fn live_ids(vs: Seq<VideoRecord>, chans: Seq<YtChannelSave>) -> Seq<Seq<char>> {
    add_live(Seq::empty(), vs, chans)
}

/// The watermark proposed for channel `ch` by a fetch, scanned in order: the
/// first finished video of the channel seen since its last live or upcoming
/// one. Videos in an unrecognised state change nothing.
pub open spec fn proposal(vs: Seq<VideoRecord>, ch: Seq<char>) -> Option<Seq<char>>
    decreases vs.len(),
{
    if vs.len() == 0 {
        None
    } else {
        let prev = proposal(vs.drop_last(), ch);
        let v = vs.last();
        if video_channel(v) == Some(ch) {
            if is_finished(v) {
                if prev is Some {
                    prev
                } else {
                    Some(v.id@)
                }
            } else if is_live_or_upcoming(v) {
                None
            } else {
                prev
            }
        } else {
            prev
        }
    }
}

/// The watermark a channel has after a fetch.
pub open spec fn next_watermark(vs: Seq<VideoRecord>, c: YtChannelSave) -> Seq<char> {
    match proposal(vs, c.id@) {
        Some(w) => w,
        None => c.first_video_after_all_stream@,
    }
}

/// `b` is `a` with at most its watermark changed.
pub open spec fn same_but_watermark(a: YtChannelSave, b: YtChannelSave) -> bool {
    &&& a.custom_url == b.custom_url
    &&& a.id == b.id
    &&& a.title == b.title
    &&& a.thumbnail == b.thumbnail
    &&& a.upload_playlist == b.upload_playlist
    &&& a.last_time_used == b.last_time_used
}

/// The watermark never skips a live or upcoming video: a proposed watermark
/// is a finished video of the channel, and no video of the channel after it
/// in the same fetch is live or upcoming.
pub proof fn lemma_watermark_not_past_live(vs: Seq<VideoRecord>, ch: Seq<char>)
    ensures
        proposal(vs, ch) is Some ==> exists|i: int|
            0 <= i < vs.len() && vs[i].id@ == proposal(vs, ch)->Some_0 && video_channel(vs[i]) == Some(ch)
                && is_finished(vs[i]) && forall|j: int|
                i < j < vs.len() && video_channel(#[trigger] vs[j]) == Some(ch) ==> !is_live_or_upcoming(vs[j]),
    decreases vs.len(),
{
    if vs.len() > 0 {
        reveal_strlit("none");
        reveal_strlit("live");
        reveal_strlit("upcoming");
        assert("none"@[0] != "live"@[0]);
        assert("none"@ != "live"@);
        assert("none"@.len() != "upcoming"@.len());
        let pre = vs.drop_last();
        lemma_watermark_not_past_live(pre, ch);
        let v = vs.last();
        if proposal(vs, ch) is Some {
            if video_channel(v) == Some(ch) && proposal(pre, ch) is None {
                let i = vs.len() - 1;
                assert(vs[i].id@ == proposal(vs, ch)->Some_0);
            } else {
                let i = choose|i: int|
                    0 <= i < pre.len() && pre[i].id@ == proposal(pre, ch)->Some_0 && video_channel(pre[i]) == Some(ch)
                        && is_finished(pre[i]) && forall|j: int|
                        i < j < pre.len() && video_channel(#[trigger] pre[j]) == Some(ch) ==> !is_live_or_upcoming(pre[j]);
                assert(vs[i] == pre[i]);
                assert forall|j: int| i < j < vs.len() && video_channel(#[trigger] vs[j]) == Some(ch) implies !is_live_or_upcoming(vs[j]) by {
                    if j < pre.len() {
                        assert(vs[j] == pre[j]);
                    } else {
                        assert(vs[j] == v);
                        if is_live_or_upcoming(v) {
                            assert(!is_finished(v));
                            assert(proposal(vs, ch) is None);
                        }
                    }
                }
            }
        }
    }
}

/// Pending after a cycle: an id is pending exactly when a fetched video with
/// that id, of a tracked channel, is live or upcoming.
pub proof fn lemma_live_ids(vs: Seq<VideoRecord>, chans: Seq<YtChannelSave>)
    ensures
        distinct(live_ids(vs, chans)),
        forall|id: Seq<char>| #[trigger] live_ids(vs, chans).contains(id) <==> exists|i: int|
            0 <= i < vs.len() && #[trigger] vs[i].id@ == id && is_live_or_upcoming(vs[i]) && tracked_video(vs[i], chans),
    decreases vs.len(),
{
    if vs.len() > 0 {
        let pre = vs.drop_last();
        lemma_live_ids(pre, chans);
        lemma_with_text_distinct(live_ids(pre, chans), vs.last().id@);
        let last = vs.last();
        let i0 = vs.len() - 1;
        assert(vs[i0] == last);
        let keep = is_live_or_upcoming(last) && tracked_video(last, chans);
        assert forall|id: Seq<char>| live_ids(vs, chans).contains(id) <==> exists|i: int|
            0 <= i < vs.len() && #[trigger] vs[i].id@ == id && is_live_or_upcoming(vs[i]) && tracked_video(vs[i], chans) by {
            let in_pre = exists|i: int| 0 <= i < pre.len() && #[trigger] pre[i].id@ == id && is_live_or_upcoming(pre[i]) && tracked_video(pre[i], chans);
            let in_all = exists|i: int| 0 <= i < vs.len() && #[trigger] vs[i].id@ == id && is_live_or_upcoming(vs[i]) && tracked_video(vs[i], chans);
            if in_pre {
                let i = choose|i: int| 0 <= i < pre.len() && #[trigger] pre[i].id@ == id && is_live_or_upcoming(pre[i]) && tracked_video(pre[i], chans);
                assert(vs[i] == pre[i]);
                assert(in_all);
            }
            if in_all {
                let i = choose|i: int| 0 <= i < vs.len() && #[trigger] vs[i].id@ == id && is_live_or_upcoming(vs[i]) && tracked_video(vs[i], chans);
                if i < pre.len() {
                    assert(pre[i] == vs[i]);
                    assert(in_pre);
                } else {
                    assert(i == i0);
                    assert(keep && id == last.id@);
                }
            }
            if keep && id == last.id@ {
                assert(vs[i0].id@ == id);
                assert(in_all);
            }
            assert(in_all == (in_pre || (keep && id == last.id@)));
            assert(live_ids(pre, chans).contains(id) == in_pre);
            if keep {
                assert(live_ids(vs, chans) == with_text(live_ids(pre, chans), last.id@));
            } else {
                assert(live_ids(vs, chans) == live_ids(pre, chans));
            }
        }
    }
}

/// Whether the video has metadata marking it finished.
pub fn video_is_finished(v: &VideoRecord) -> (r: bool)
    ensures
        r == is_finished(*v),
{
    match &v.snippet {
        Some(sn) => text_is(&sn.live_broadcast_content, "none"),
        None => false,
    }
}

/// Whether the video has metadata marking it live or upcoming.
pub fn video_is_live_or_upcoming(v: &VideoRecord) -> (r: bool)
    ensures
        r == is_live_or_upcoming(*v),
{
    match &v.snippet {
        Some(sn) => text_is(&sn.live_broadcast_content, "live") || text_is(&sn.live_broadcast_content, "upcoming"),
        None => false,
    }
}

/// Whether the video belongs to channel `ch`.
fn video_in_channel(v: &VideoRecord, ch: &String) -> (r: bool)
    ensures
        r == (video_channel(*v) == Some(ch@)),
{
    match &v.snippet {
        Some(sn) => sn.channel_id.eq(ch),
        None => false,
    }
}

/// The watermark a fetch proposes for channel `ch`.
pub fn proposal_for(vs: &Vec<VideoRecord>, ch: &String) -> (r: Option<String>)
    ensures
        crate::model::opt_text(r) == proposal(vs@, ch@),
{
    let mut cur: Option<String> = None;
    let mut i: usize = 0;
    assert(vs@.take(0) =~= Seq::<VideoRecord>::empty());
    while i < vs.len()
        invariant
            i <= vs.len(),
            crate::model::opt_text(cur) == proposal(vs@.take(i as int), ch@),
        decreases vs.len() - i,
    {
        assert(vs@.take(i + 1).drop_last() =~= vs@.take(i as int));
        assert(vs@.take(i + 1).last() == vs@[i as int]);
        let v = &vs[i];
        if video_in_channel(v, ch) {
            if video_is_finished(v) {
                if cur.is_none() {
                    cur = Some(v.id.clone());
                }
            } else if video_is_live_or_upcoming(v) {
                cur = None;
            }
        }
        i = i + 1;
    }
    assert(vs@.take(vs.len() as int) =~= vs@);
    cur
}

/// The engine's state: tracked channels, pending videos and the event snapshot.
pub struct ServerData {
    pub yt_channels: Vec<YtChannelSave>,
    pub yt_videos: YtVideosSave,
    pub tw_channels: Vec<TwChannelSave>,
    pub events: Vec<UpcomingEvent>,
    /// Channels unused for longer than this many minutes are dropped.
    pub channel_expire_min: i64,
}

impl ServerData {
    pub open spec fn wf(&self) -> bool {
        &&& distinct(yt_ids(self.yt_channels@))
        &&& distinct(tw_logins(self.tw_channels@))
        &&& self.yt_videos.wf()
        &&& distinct_uids(evs(self.events@))
        &&& events_tracked(evs(self.events@), self.yt_channels@, self.tw_channels@)
    }

    /// An engine tracking nothing.
    pub fn new(channel_expire_min: i64) -> (r: ServerData)
        ensures
            r.wf(),
            r.yt_channels@.len() == 0,
            r.tw_channels@.len() == 0,
            r.yt_videos.id_texts().len() == 0,
            r.events@.len() == 0,
            r.channel_expire_min == channel_expire_min,
    {
        ServerData {
            yt_channels: Vec::new(),
            yt_videos: YtVideosSave::new(),
            tw_channels: Vec::new(),
            events: Vec::new(),
            channel_expire_min,
        }
    }

    /// Whether the video is live or upcoming and belongs to a tracked channel.
    fn is_tracked_live(&self, v: &VideoRecord) -> (r: bool)
        ensures
            r == (is_live_or_upcoming(*v) && tracked_video(*v, self.yt_channels@)),
    {
        match &v.snippet {
            Some(sn) => video_is_live_or_upcoming(v) && find_yt_channel(&self.yt_channels, &sn.channel_id).is_some(),
            None => false,
        }
    }

    /// Finishes a refresh cycle with what the upstream calls returned.
    ///
    /// `fetched` is the metadata of the cycle's candidate videos (`None` when
    /// that fetch failed); `streams` the live streams of platform B (`None`
    /// when that fetch failed). The snapshot is replaced by the events of the
    /// fetched videos and of the streams; the pending set becomes the fetched
    /// ids still live or upcoming; each channel's watermark moves to its
    /// proposal.
    pub fn apply_upcoming_check(&mut self, fetched: &Option<Vec<VideoRecord>>, streams: &Option<Vec<StreamInformation>>)
        requires
            old(self).wf(),
        ensures
            final(self).wf(),
            final(self).tw_channels == old(self).tw_channels,
            final(self).channel_expire_min == old(self).channel_expire_min,
            final(self).yt_channels@.len() == old(self).yt_channels@.len(),
            forall|k: int| 0 <= k < old(self).yt_channels@.len() ==> same_but_watermark(
                #[trigger] old(self).yt_channels@[k], final(self).yt_channels@[k]),
            forall|k: int| 0 <= k < old(self).yt_channels@.len() ==>
                (#[trigger] final(self).yt_channels@[k]).first_video_after_all_stream@ == match fetched {
                    Some(vs) => next_watermark(vs@, old(self).yt_channels@[k]),
                    None => old(self).yt_channels@[k].first_video_after_all_stream@,
                },
            final(self).yt_videos.id_texts() == match fetched {
                Some(vs) => live_ids(vs@, old(self).yt_channels@),
                None => old(self).yt_videos.id_texts(),
            },
            evs(final(self).events@) == upsert_all(
                upsert_all(
                    Seq::empty(),
                    match fetched {
                        Some(vs) => video_events(vs@, old(self).yt_channels@),
                        None => Seq::empty(),
                    },
                ),
                match streams {
                    Some(ss) => stream_events(ss@, old(self).tw_channels@),
                    None => Seq::empty(),
                },
            ),
    {
        let mut events: Vec<UpcomingEvent> = Vec::new();
        proof {
            assert(evs(events@) =~= Seq::<crate::model::EventView>::empty());
        }
        match fetched {
            Some(vs) => {
                let mut pending: Vec<String> = Vec::new();
                let mut i: usize = 0;
                assert(vs@.take(0) =~= Seq::<VideoRecord>::empty());
                assert(texts(pending@) =~= Seq::<Seq<char>>::empty());
                while i < vs.len()
                    invariant
                        i <= vs.len(),
                        self == old(self),
                        evs(events@) == upsert_all(Seq::empty(), video_events(vs@.take(i as int), self.yt_channels@)),
                        texts(pending@) == live_ids(vs@.take(i as int), self.yt_channels@),
                        distinct(texts(pending@)),
                    decreases vs.len() - i,
                {
                    assert(vs@.take(i + 1).drop_last() =~= vs@.take(i as int));
                    assert(vs@.take(i + 1).last() == vs@[i as int]);
                    let v = &vs[i];
                    match UpcomingEvent::from_video(v, &self.yt_channels) {
                        Ok(e) => {
                            proof {
                                let ve = video_events(vs@.take(i as int), self.yt_channels@);
                                assert(ve.push(e@).drop_last() =~= ve);
                            }
                            upsert_event(&mut events, e);
                        },
                        Err(_) => {},
                    }
                    if self.is_tracked_live(v) {
                        proof {
                            lemma_with_text_distinct(texts(pending@), v.id@);
                        }
                        push_text(&mut pending, v.id.clone());
                    }
                    i = i + 1;
                }
                assert(vs@.take(vs.len() as int) =~= vs@);
                let mut chans: Vec<YtChannelSave> = Vec::new();
                let mut k: usize = 0;
                while k < self.yt_channels.len()
                    invariant
                        k <= self.yt_channels.len(),
                        self == old(self),
                        chans@.len() == k,
                        forall|j: int| 0 <= j < k ==> same_but_watermark(#[trigger] self.yt_channels@[j], chans@[j]),
                        forall|j: int| 0 <= j < k ==> (#[trigger] chans@[j]).first_video_after_all_stream@
                            == next_watermark(vs@, self.yt_channels@[j]),
                    decreases self.yt_channels.len() - k,
                {
                    let c = &self.yt_channels[k];
                    let w = match proposal_for(vs, &c.id) {
                        Some(w) => w,
                        None => c.first_video_after_all_stream.clone(),
                    };
                    chans.push(YtChannelSave {
                        custom_url: c.custom_url.clone(),
                        id: c.id.clone(),
                        title: c.title.clone(),
                        thumbnail: c.thumbnail.clone(),
                        upload_playlist: c.upload_playlist.clone(),
                        last_time_used: c.last_time_used,
                        first_video_after_all_stream: w,
                    });
                    k = k + 1;
                }
                assert(yt_ids(chans@) =~= yt_ids(self.yt_channels@));
                self.yt_videos.set(pending);
                self.yt_channels = chans;
            },
            None => {},
        }
        proof {
            lemma_upsert_all(Seq::empty(), match fetched {
                Some(vs) => video_events(vs@, old(self).yt_channels@),
                None => Seq::empty(),
            });
        }
        match streams {
            Some(ss) => {
                upsert_stream_events(&mut events, ss, &self.tw_channels);
            },
            None => {},
        }
        self.events = events;
        proof {
            lemma_upsert_all(
                upsert_all(
                    Seq::empty(),
                    match fetched {
                        Some(vs) => video_events(vs@, old(self).yt_channels@),
                        None => Seq::empty(),
                    },
                ),
                match streams {
                    Some(ss) => stream_events(ss@, old(self).tw_channels@),
                    None => Seq::empty(),
                },
            );
            let c0 = old(self).yt_channels@;
            let t0 = old(self).tw_channels@;
            let pred = tracked_pred(c0, t0);
            let va = match fetched {
                Some(vs) => video_events(vs@, c0),
                None => Seq::empty(),
            };
            let sb = match streams {
                Some(ss) => stream_events(ss@, t0),
                None => Seq::empty(),
            };
            match fetched {
                Some(vs) => lemma_video_events_tracked(vs@, c0, t0),
                None => {},
            }
            match streams {
                Some(ss) => lemma_stream_events_tracked(ss@, c0, t0),
                None => {},
            }
            assert forall|i: int| 0 <= i < va.len() implies pred(#[trigger] va[i]) by {}
            assert forall|i: int| 0 <= i < sb.len() implies pred(#[trigger] sb[i]) by {}
            lemma_upsert_all_within(Seq::empty(), va, pred);
            lemma_upsert_all(Seq::empty(), va);
            lemma_upsert_all_within(upsert_all(Seq::empty(), va), sb, pred);
            let fin = evs(self.events@);
            assert(yt_ids(self.yt_channels@) == yt_ids(c0));
            assert(events_tracked(fin, c0, t0)) by {
                assert forall|i: int| 0 <= i < fin.len() implies source_tracked(#[trigger] fin[i], c0, t0) by {
                    assert(pred(fin[i]));
                }
            }
            lemma_events_tracked_grow(fin, c0, t0, self.yt_channels@, self.tw_channels@);
        }
    }
}

pub open spec fn mark_pred(mark: Seq<char>) -> spec_fn(Seq<char>) -> bool {
    |x: Seq<char>| x == mark
}

/// The ids of a recent-uploads list before the channel's watermark.
pub open spec fn before_mark(feed: Seq<Seq<char>>, mark: Seq<char>) -> Seq<Seq<char>> {
    match first_match(feed, mark_pred(mark)) {
        Some(p) => feed.take(p),
        None => feed,
    }
}

/// What one channel's poll contributes: nothing when the poll failed.
pub open spec fn feed_part(feed: Option<Vec<String>>, mark: Seq<char>) -> Seq<Seq<char>> {
    match feed {
        Some(f) => before_mark(texts(f@), mark),
        None => Seq::empty(),
    }
}

/// The new ids of the first `k` channels' polls, channel by channel.
pub open spec fn feed_concat(chans: Seq<YtChannelSave>, feeds: Seq<Option<Vec<String>>>, k: int) -> Seq<Seq<char>>
    decreases k,
{
    if k <= 0 {
        Seq::empty()
    } else {
        feed_concat(chans, feeds, k - 1) + feed_part(feeds[k - 1], chans[k - 1].first_video_after_all_stream@)
    }
}

/// The candidate ids of a refresh cycle: each channel's new uploads, then
/// the pending ids, without repeats.
pub open spec fn candidate_ids(chans: Seq<YtChannelSave>, feeds: Seq<Option<Vec<String>>>, pending: Seq<Seq<char>>) -> Seq<Seq<char>> {
    dedup(feed_concat(chans, feeds, chans.len() as int) + pending)
}

/// The event comes from one of the requested channels.
pub open spec fn requested(e: EventView, yt: Seq<Seq<char>>, tw: Seq<Seq<char>>) -> bool {
    match e.source {
        SourceView::Youtube { id, .. } => yt.contains(id),
        SourceView::Twitch { login, .. } => tw.contains(login),
    }
}

/// Ascending by start time.
pub open spec fn sorted_by_start(s: Seq<EventView>) -> bool {
    forall|i: int, j: int| 0 <= i < j < s.len() ==> s[i].start_millis <= s[j].start_millis
}

/// Unused for longer than the expiry window.
pub open spec fn expired(last_used: i64, now: i64, expire_min: i64) -> bool {
    now - last_used > expire_min * 60000
}

pub open spec fn yt_live(now: i64, expire_min: i64) -> spec_fn(YtChannelSave) -> bool {
    |c: YtChannelSave| !expired(c.last_time_used, now, expire_min)
}

pub open spec fn tw_live(now: i64, expire_min: i64) -> spec_fn(TwChannelSave) -> bool {
    |c: TwChannelSave| !expired(c.last_time_used, now, expire_min)
}

/// The event's channel is tracked.
pub open spec fn source_tracked(e: EventView, chans: Seq<YtChannelSave>, tws: Seq<TwChannelSave>) -> bool {
    match e.source {
        SourceView::Youtube { id, .. } => yt_ids(chans).contains(id),
        SourceView::Twitch { login, .. } => tw_logins(tws).contains(login),
    }
}

/// Every event comes from a tracked channel.
pub open spec fn events_tracked(s: Seq<EventView>, chans: Seq<YtChannelSave>, tws: Seq<TwChannelSave>) -> bool {
    forall|i: int| 0 <= i < s.len() ==> source_tracked(#[trigger] s[i], chans, tws)
}

/// Merging events that satisfy `p` into events that satisfy `p` gives
/// events that satisfy `p`.
pub proof fn lemma_upsert_all_within(base: Seq<EventView>, more: Seq<EventView>, p: spec_fn(EventView) -> bool)
    requires
        distinct_uids(base),
        forall|i: int| 0 <= i < base.len() ==> p(#[trigger] base[i]),
        forall|i: int| 0 <= i < more.len() ==> p(#[trigger] more[i]),
    ensures
        forall|i: int| 0 <= i < upsert_all(base, more).len() ==> p(#[trigger] upsert_all(base, more)[i]),
    decreases more.len(),
{
    if more.len() > 0 {
        let dl = more.drop_last();
        assert forall|i: int| 0 <= i < dl.len() implies p(#[trigger] dl[i]) by {
            assert(dl[i] == more[i]);
        }
        lemma_upsert_all_within(base, dl, p);
        lemma_upsert_all(base, dl);
        let prev = upsert_all(base, dl);
        lemma_upsert(prev, more.last());
        let now = upsert_all(base, more);
        assert forall|i: int| 0 <= i < now.len() implies p(#[trigger] now[i]) by {
            assert(now.contains(now[i]));
            if now[i] != more.last() {
                let k = choose|k: int| 0 <= k < prev.len() && prev[k] == now[i];
                assert(p(prev[k]));
            } else {
                assert(p(more[more.len() - 1]));
            }
        }
    }
}

/// The events of fetched videos come from tracked channels.
pub proof fn lemma_video_events_tracked(vs: Seq<VideoRecord>, chans: Seq<YtChannelSave>, tws: Seq<TwChannelSave>)
    ensures
        events_tracked(video_events(vs, chans), chans, tws),
    decreases vs.len(),
{
    if vs.len() > 0 {
        lemma_video_events_tracked(vs.drop_last(), chans, tws);
        let prev = video_events(vs.drop_last(), chans);
        match convert_spec(vs.last(), chans) {
            Ok(e) => {
                let sn = vs.last().snippet->Some_0;
                let ci = yt_channel_pos(chans, sn.channel_id@)->Some_0;
                assert(crate::find::is_first_match(chans, crate::model::yt_id_pred(sn.channel_id@), ci)) by {
                    assert(exists|q: int| crate::find::is_first_match(chans, crate::model::yt_id_pred(sn.channel_id@), q));
                }
                assert(yt_ids(chans)[ci] == chans[ci].id@);
                assert(source_tracked(e, chans, tws));
                let now = video_events(vs, chans);
                assert(now == prev.push(e));
                assert forall|i: int| 0 <= i < now.len() implies source_tracked(#[trigger] now[i], chans, tws) by {
                    if i < prev.len() {
                        assert(now[i] == prev[i]);
                    }
                }
            },
            Err(_) => {},
        }
    }
}

/// The events of live streams come from tracked platform-B channels.
pub proof fn lemma_stream_events_tracked(ss: Seq<StreamInformation>, chans: Seq<YtChannelSave>, tws: Seq<TwChannelSave>)
    ensures
        events_tracked(stream_events(ss, tws), chans, tws),
    decreases ss.len(),
{
    if ss.len() > 0 {
        lemma_stream_events_tracked(ss.drop_last(), chans, tws);
        let prev = stream_events(ss.drop_last(), tws);
        match tw_channel_pos(tws, ss.last().user_login@) {
            Some(k) => {
                assert(crate::find::is_first_match(tws, crate::events::tw_login_pred(ss.last().user_login@), k)) by {
                    assert(exists|q: int| crate::find::is_first_match(tws, crate::events::tw_login_pred(ss.last().user_login@), q));
                }
                assert(tw_logins(tws)[k] == tws[k].login@);
                let e = crate::model::stream_event_spec(ss.last(), tws[k].profile_img@);
                assert(source_tracked(e, chans, tws));
                let now = stream_events(ss, tws);
                assert(now == prev.push(e));
                assert forall|i: int| 0 <= i < now.len() implies source_tracked(#[trigger] now[i], chans, tws) by {
                    if i < prev.len() {
                        assert(now[i] == prev[i]);
                    }
                }
            },
            None => {},
        }
    }
}

/// Events tracked by some channels stay tracked by channels that keep all
/// their ids and logins.
pub proof fn lemma_events_tracked_grow(
    s: Seq<EventView>,
    chans: Seq<YtChannelSave>,
    tws: Seq<TwChannelSave>,
    chans2: Seq<YtChannelSave>,
    tws2: Seq<TwChannelSave>,
)
    requires
        events_tracked(s, chans, tws),
        forall|x: Seq<char>| yt_ids(chans).contains(x) ==> #[trigger] yt_ids(chans2).contains(x),
        forall|x: Seq<char>| tw_logins(tws).contains(x) ==> #[trigger] tw_logins(tws2).contains(x),
    ensures
        events_tracked(s, chans2, tws2),
{
    assert forall|i: int| 0 <= i < s.len() implies source_tracked(#[trigger] s[i], chans2, tws2) by {
        assert(source_tracked(s[i], chans, tws));
        match s[i].source {
            SourceView::Youtube { id, .. } => {
                assert(yt_ids(chans2).contains(id));
            },
            SourceView::Twitch { login, .. } => {
                assert(tw_logins(tws2).contains(login));
            },
        }
    }
}

/// Merging the events of live streams into tracked events keeps them tracked.
pub proof fn merged_tracked(base: Seq<EventView>, ss: Seq<StreamInformation>, chans: Seq<YtChannelSave>, tws: Seq<TwChannelSave>)
    requires
        distinct_uids(base),
        events_tracked(base, chans, tws),
    ensures
        events_tracked(upsert_all(base, stream_events(ss, tws)), chans, tws),
{
    lemma_stream_events_tracked(ss, chans, tws);
    let sb = stream_events(ss, tws);
    let pred = tracked_pred(chans, tws);
    assert forall|j: int| 0 <= j < sb.len() implies pred(#[trigger] sb[j]) by {}
    assert forall|j: int| 0 <= j < base.len() implies pred(#[trigger] base[j]) by {}
    lemma_upsert_all_within(base, sb, pred);
    let fin = upsert_all(base, sb);
    assert forall|j: int| 0 <= j < fin.len() implies source_tracked(#[trigger] fin[j], chans, tws) by {
        assert(pred(fin[j]));
    }
}

pub open spec fn tracked_pred(chans: Seq<YtChannelSave>, tws: Seq<TwChannelSave>) -> spec_fn(EventView) -> bool {
    |e: EventView| source_tracked(e, chans, tws)
}

pub open spec fn yt_unknown(chans: Seq<YtChannelSave>) -> spec_fn(Seq<char>) -> bool {
    |id: Seq<char>| !yt_ids(chans).contains(id)
}

pub open spec fn tw_unknown(tws: Seq<TwChannelSave>) -> spec_fn(Seq<char>) -> bool {
    |login: Seq<char>| !tw_logins(tws).contains(login)
}

pub proof fn lemma_filter_sub<A>(s: Seq<A>, p: spec_fn(A) -> bool)
    ensures
        forall|x: A| #[trigger] keep(s, p).contains(x) <==> (s.contains(x) && p(x)),
    decreases s.len(),
{
    if s.len() > 0 {
        lemma_filter_sub(s.drop_last(), p);
        assert forall|x: A| keep(s, p).contains(x) <==> (s.contains(x) && p(x)) by {
            if keep(s, p).contains(x) {
                let i = choose|i: int| 0 <= i < keep(s, p).len() && keep(s, p)[i] == x;
                if i < keep(s.drop_last(), p).len() {
                    if p(s.last()) {
                        assert(keep(s, p) == keep(s.drop_last(), p).push(s.last()));
                    }
                    assert(keep(s.drop_last(), p)[i] == x);
                    assert(keep(s.drop_last(), p).contains(x));
                    let k = choose|k: int| 0 <= k < s.drop_last().len() && s.drop_last()[k] == x;
                    assert(s[k] == x);
                } else {
                    assert(p(s.last()));
                    assert(keep(s, p) == keep(s.drop_last(), p).push(s.last()));
                    assert(x == s.last());
                    assert(s[s.len() - 1] == x);
                }
            }
            if s.contains(x) && p(x) {
                let k = choose|k: int| 0 <= k < s.len() && s[k] == x;
                if k < s.len() - 1 {
                    assert(s.drop_last()[k] == x);
                    assert(keep(s.drop_last(), p).contains(x));
                    let i = choose|i: int| 0 <= i < keep(s.drop_last(), p).len() && keep(s.drop_last(), p)[i] == x;
                    if p(s.last()) {
                        assert(keep(s, p) == keep(s.drop_last(), p).push(s.last()));
                    }
                    assert(keep(s, p)[i] == x);
                } else {
                    assert(keep(s, p) == keep(s.drop_last(), p).push(s.last()));
                    assert(keep(s, p)[keep(s, p).len() - 1] == x);
                }
            }
        }
    }
}

/// A filtered list of distinct uids has distinct uids.
pub proof fn lemma_filter_distinct_uids(s: Seq<EventView>, p: spec_fn(EventView) -> bool)
    requires
        distinct_uids(s),
    ensures
        distinct_uids(keep(s, p)),
    decreases s.len(),
{
    if s.len() > 0 {
        lemma_filter_distinct_uids(s.drop_last(), p);
        lemma_filter_sub(s.drop_last(), p);
        let f = keep(s, p);
        let g = keep(s.drop_last(), p);
        if p(s.last()) {
            assert forall|i: int, j: int| 0 <= i < j < f.len() implies f[i].uid != f[j].uid by {
                assert(f == g.push(s.last()));
                if j == g.len() {
                    assert(f[i] == g[i]);
                    assert(g.contains(f[i]));
                    let k = choose|k: int| 0 <= k < s.drop_last().len() && s.drop_last()[k] == f[i];
                    assert(s[k] == f[i]);
                    assert(s[s.len() - 1] == f[j]);
                } else {
                    assert(f[i] == g[i] && f[j] == g[j]);
                }
            }
        }
    }
}

/// Filtering keeps keys distinct.
pub proof fn lemma_filter_distinct<A, K>(s: Seq<A>, key: spec_fn(A) -> K, p: spec_fn(A) -> bool)
    requires
        forall|i: int, j: int| 0 <= i < j < s.len() ==> key(s[i]) != key(s[j]),
    ensures
        forall|i: int, j: int| 0 <= i < j < keep(s, p).len() ==> key(keep(s, p)[i]) != key(keep(s, p)[j]),
    decreases s.len(),
{
    if s.len() > 0 {
        lemma_filter_distinct(s.drop_last(), key, p);
        lemma_filter_sub(s.drop_last(), p);
        let f = keep(s, p);
        let g = keep(s.drop_last(), p);
        if p(s.last()) {
            assert forall|i: int, j: int| 0 <= i < j < f.len() implies key(f[i]) != key(f[j]) by {
                assert(f == g.push(s.last()));
                if j == g.len() {
                    assert(f[i] == g[i]);
                    assert(g.contains(f[i]));
                    let k = choose|k: int| 0 <= k < s.drop_last().len() && s.drop_last()[k] == f[i];
                    assert(s[k] == f[i]);
                    assert(s[s.len() - 1] == f[j]);
                } else {
                    assert(f[i] == g[i] && f[j] == g[j]);
                }
            }
        }
    }
}

/// Whether the event comes from one of the requested channels.
fn is_requested(e: &UpcomingEvent, yt: &Vec<String>, tw: &Vec<String>) -> (r: bool)
    ensures
        r == requested(e@, texts(yt@), texts(tw@)),
{
    match &e.source {
        EventSource::YoutubeChannel(c) => contains_text(yt, &c.id),
        EventSource::TwitchChannel(c) => contains_text(tw, &c.login),
    }
}

/// Whether the id belongs to a tracked platform-A channel.
pub fn yt_tracked(chans: &Vec<YtChannelSave>, id: &String) -> (r: bool)
    ensures
        r == yt_ids(chans@).contains(id@),
{
    let mut i: usize = 0;
    while i < chans.len()
        invariant
            i <= chans.len(),
            forall|j: int| 0 <= j < i ==> chans@[j].id@ != id@,
        decreases chans.len() - i,
    {
        if chans[i].id.eq(id) {
            assert(yt_ids(chans@)[i as int] == id@);
            return true;
        }
        i = i + 1;
    }
    assert(!yt_ids(chans@).contains(id@)) by {
        if yt_ids(chans@).contains(id@) {
            let j = choose|j: int| 0 <= j < yt_ids(chans@).len() && yt_ids(chans@)[j] == id@;
            assert(chans@[j].id@ == id@);
        }
    }
    false
}

/// Whether the login belongs to a tracked platform-B channel.
pub fn tw_tracked(tws: &Vec<TwChannelSave>, login: &String) -> (r: bool)
    ensures
        r == tw_logins(tws@).contains(login@),
{
    let mut i: usize = 0;
    while i < tws.len()
        invariant
            i <= tws.len(),
            forall|j: int| 0 <= j < i ==> tws@[j].login@ != login@,
        decreases tws.len() - i,
    {
        if tws[i].login.eq(login) {
            assert(tw_logins(tws@)[i as int] == login@);
            return true;
        }
        i = i + 1;
    }
    assert(!tw_logins(tws@).contains(login@)) by {
        if tw_logins(tws@).contains(login@) {
            let j = choose|j: int| 0 <= j < tw_logins(tws@).len() && tw_logins(tws@)[j] == login@;
            assert(tws@[j].login@ == login@);
        }
    }
    false
}

fn is_expired(last_used: i64, now: i64, expire_min: i64) -> (r: bool)
    ensures
        r == expired(last_used, now, expire_min),
{
    (now as i128) - (last_used as i128) > (expire_min as i128) * 60000
}

impl ServerData {
    /// The candidate video ids of a refresh cycle.
    ///
    /// `feeds[k]` is the recent-upload list of the `k`-th tracked channel,
    /// newest first, or `None` when its poll failed this cycle. Each list is
    /// read up to the channel's watermark.
    pub fn collect_candidate_ids(&self, feeds: &Vec<Option<Vec<String>>>) -> (r: Vec<String>)
        requires
            feeds@.len() == self.yt_channels@.len(),
        ensures
            texts(r@) == candidate_ids(self.yt_channels@, feeds@, self.yt_videos.id_texts()),
            distinct(texts(r@)),
    {
        let mut out: Vec<String> = Vec::new();
        let ghost mut src: Seq<Seq<char>> = Seq::empty();
        assert(texts(out@) =~= dedup(src));
        let mut k: usize = 0;
        while k < feeds.len()
            invariant
                k <= feeds.len(),
                feeds@.len() == self.yt_channels@.len(),
                src == feed_concat(self.yt_channels@, feeds@, k as int),
                texts(out@) == dedup(src),
            decreases feeds.len() - k,
        {
            let ghost start = src;
            match &feeds[k] {
                Some(feed) => {
                    let mark = &self.yt_channels[k].first_video_after_all_stream;
                    let mut i: usize = 0;
                    let ghost ft = texts(feed@);
                    assert(ft.take(0) =~= Seq::<Seq<char>>::empty());
                    assert(src =~= start + ft.take(0));
                    while i < feed.len() && !feed[i].eq(mark)
                        invariant
                            i <= feed.len(),
                            ft == texts(feed@),
                            src == start + ft.take(i as int),
                            texts(out@) == dedup(src),
                            forall|j: int| 0 <= j < i ==> !(mark_pred(mark@))(#[trigger] ft[j]),
                        decreases feed.len() - i,
                    {
                        proof {
                            assert(src.push(ft[i as int]).drop_last() =~= src);
                            src = src.push(ft[i as int]);
                            assert(src =~= start + ft.take(i + 1));
                        }
                        push_text(&mut out, feed[i].clone());
                        i = i + 1;
                    }
                    proof {
                        if i < feed.len() {
                            assert(is_first_match(ft, mark_pred(mark@), i as int));
                            lemma_first_match_at(ft, mark_pred(mark@), i as int);
                        } else {
                            lemma_first_match_none(ft, mark_pred(mark@));
                            assert(ft.take(i as int) =~= ft);
                        }
                    }
                },
                None => {
                    assert(src =~= start + Seq::<Seq<char>>::empty());
                },
            }
            k = k + 1;
        }
        let ghost feeds_all = src;
        let mut i: usize = 0;
        let ghost pend = self.yt_videos.id_texts();
        assert(src =~= feeds_all + pend.take(0));
        while i < self.yt_videos.ids.len()
            invariant
                i <= self.yt_videos.ids.len(),
                pend == self.yt_videos.id_texts(),
                src == feeds_all + pend.take(i as int),
                texts(out@) == dedup(src),
            decreases self.yt_videos.ids.len() - i,
        {
            proof {
                assert(src.push(pend[i as int]).drop_last() =~= src);
                src = src.push(pend[i as int]);
                assert(src =~= feeds_all + pend.take(i + 1));
            }
            push_text(&mut out, self.yt_videos.ids[i].clone());
            i = i + 1;
        }
        assert(pend.take(pend.len() as int) =~= pend);
        proof {
            lemma_dedup(src);
        }
        out
    }

    /// The cached events of the requested channels, ascending by start time.
    pub fn query_events(&self, yt_channel_ids: &Vec<String>, tw_channel_logins: &Vec<String>) -> (r: Vec<UpcomingEvent>)
        requires
            self.wf(),
        ensures
            sorted_by_start(evs(r@)),
            distinct_uids(evs(r@)),
            forall|x: EventView| evs(r@).contains(x) <==> (evs(self.events@).contains(x)
                && requested(x, texts(yt_channel_ids@), texts(tw_channel_logins@))),
    {
        let mut out: Vec<UpcomingEvent> = Vec::new();
        let ghost all = evs(self.events@);
        let mut i: usize = 0;
        while i < self.events.len()
            invariant
                i <= self.events.len(),
                all == evs(self.events@),
                distinct_uids(all),
                sorted_by_start(evs(out@)),
                distinct_uids(evs(out@)),
                forall|x: EventView| evs(out@).contains(x) <==> (exists|j: int| 0 <= j < i && all[j] == x
                    && requested(x, texts(yt_channel_ids@), texts(tw_channel_logins@))),
            decreases self.events.len() - i,
        {
            let e = &self.events[i];
            if is_requested(e, yt_channel_ids, tw_channel_logins) {
                let mut p: usize = 0;
                while p < out.len() && out[p].start_timestamp_millis <= e.start_timestamp_millis
                    invariant
                        p <= out.len(),
                        forall|j: int| 0 <= j < p ==> (#[trigger] evs(out@)[j]).start_millis <= e.start_timestamp_millis,
                    decreases out.len() - p,
                {
                    p = p + 1;
                }
                let ghost before = evs(out@);
                let c = e.copy();
                out.insert(p, c);
                proof {
                    let after = evs(out@);
                    assert(after =~= before.insert(p as int, all[i as int]));
                    assert forall|a: int, b: int| 0 <= a < b < after.len() implies after[a].start_millis <= after[b].start_millis by {
                        if b < p {
                        } else if b == p {
                        } else if a < p {
                            assert(after[b] == before[b - 1]);
                        } else if a == p {
                            assert(after[b] == before[b - 1]);
                            assert(before[p as int].start_millis > all[i as int].start_millis);
                            if b - 1 > p {
                                assert(before[p as int].start_millis <= before[b - 1].start_millis);
                            }
                        } else {
                            assert(after[a] == before[a - 1] && after[b] == before[b - 1]);
                        }
                    }
                    assert forall|x: EventView| after.contains(x) <==> (exists|j: int| 0 <= j < i + 1 && all[j] == x
                        && requested(x, texts(yt_channel_ids@), texts(tw_channel_logins@))) by {
                        if after.contains(x) {
                            let q = choose|q: int| 0 <= q < after.len() && after[q] == x;
                            if q < p {
                                assert(before[q] == x);
                                assert(before.contains(x));
                            } else if q > p {
                                assert(before[q - 1] == x);
                                assert(before.contains(x));
                            }
                        }
                        if exists|j: int| 0 <= j < i + 1 && all[j] == x && requested(x, texts(yt_channel_ids@), texts(tw_channel_logins@)) {
                            let j = choose|j: int| 0 <= j < i + 1 && all[j] == x && requested(x, texts(yt_channel_ids@), texts(tw_channel_logins@));
                            if j < i {
                                assert(before.contains(x));
                                let q = choose|q: int| 0 <= q < before.len() && before[q] == x;
                                if q < p {
                                    assert(after[q] == x);
                                } else {
                                    assert(after[q + 1] == x);
                                }
                            } else {
                                assert(after[p as int] == x);
                            }
                        }
                    }
                    assert forall|a: int, b: int| 0 <= a < b < after.len() implies after[a].uid != after[b].uid by {
                        if a == p || b == p {
                            let o = if a == p { b } else { a };
                            let ox = after[o];
                            assert(before.contains(ox)) by {
                                if o < p {
                                    assert(before[o] == ox);
                                } else {
                                    assert(before[o - 1] == ox);
                                }
                            }
                            let j = choose|j: int| 0 <= j < i && all[j] == ox
                                && requested(ox, texts(yt_channel_ids@), texts(tw_channel_logins@));
                            assert(all[j].uid != all[i as int].uid);
                        } else {
                            let a2 = if a < p { a } else { a - 1 };
                            let b2 = if b < p { b } else { b - 1 };
                            assert(after[a] == before[a2] && after[b] == before[b2]);
                        }
                    }
                }
            } else {
                proof {
                    assert forall|x: EventView| evs(out@).contains(x) <==> (exists|j: int| 0 <= j < i + 1 && all[j] == x
                        && requested(x, texts(yt_channel_ids@), texts(tw_channel_logins@))) by {
                        if exists|j: int| 0 <= j < i + 1 && all[j] == x && requested(x, texts(yt_channel_ids@), texts(tw_channel_logins@)) {
                            let j = choose|j: int| 0 <= j < i + 1 && all[j] == x && requested(x, texts(yt_channel_ids@), texts(tw_channel_logins@));
                            assert(j < i);
                        }
                    }
                }
            }
            i = i + 1;
        }
        assert forall|x: EventView| evs(out@).contains(x) <==> (all.contains(x)
            && requested(x, texts(yt_channel_ids@), texts(tw_channel_logins@))) by {
            if all.contains(x) && requested(x, texts(yt_channel_ids@), texts(tw_channel_logins@)) {
                let j = choose|j: int| 0 <= j < all.len() && all[j] == x;
                assert(exists|j: int| 0 <= j < i && all[j] == x && requested(x, texts(yt_channel_ids@), texts(tw_channel_logins@)));
            }
        }
        out
    }
}

pub open spec fn yt_key() -> spec_fn(YtChannelSave) -> Seq<char> {
    |c: YtChannelSave| c.id@
}

pub open spec fn tw_key() -> spec_fn(TwChannelSave) -> Seq<char> {
    |c: TwChannelSave| c.login@
}

/// The event comes from the platform-A channel `id`.
pub open spec fn from_yt_channel(e: EventView, id: Seq<char>) -> bool {
    match e.source {
        SourceView::Youtube { id: c, .. } => c == id,
        _ => false,
    }
}

/// The event comes from the platform-B channel `login`.
pub open spec fn from_tw_channel(e: EventView, login: Seq<char>) -> bool {
    match e.source {
        SourceView::Twitch { login: c, .. } => c == login,
        _ => false,
    }
}

/// A channel of platform A with its last use moved to `now`.
pub open spec fn touched_yt(c: YtChannelSave, now: i64) -> YtChannelSave {
    YtChannelSave { last_time_used: now, ..c }
}

/// A channel of platform B with its last use moved to `now`.
pub open spec fn touched_tw(c: TwChannelSave, now: i64) -> TwChannelSave {
    TwChannelSave { last_time_used: now, ..c }
}

/// The platform-A channels after `id` is marked used at `now`.
pub open spec fn yt_after_touch(chans: Seq<YtChannelSave>, id: Seq<char>, now: i64) -> Seq<YtChannelSave> {
    match yt_channel_pos(chans, id) {
        Some(k) => chans.update(k, touched_yt(chans[k], now)),
        None => chans,
    }
}

/// The platform-B channels after `login` is marked used at `now`.
pub open spec fn tw_after_touch(tws: Seq<TwChannelSave>, login: Seq<char>, now: i64) -> Seq<TwChannelSave> {
    match tw_channel_pos(tws, login) {
        Some(k) => tws.update(k, touched_tw(tws[k], now)),
        None => tws,
    }
}

/// A copy of a platform-A channel record.
pub fn copy_yt(c: &YtChannelSave) -> (r: YtChannelSave)
    ensures
        r == *c,
{
    YtChannelSave {
        custom_url: c.custom_url.clone(),
        id: c.id.clone(),
        title: c.title.clone(),
        thumbnail: c.thumbnail.clone(),
        upload_playlist: c.upload_playlist.clone(),
        last_time_used: c.last_time_used,
        first_video_after_all_stream: c.first_video_after_all_stream.clone(),
    }
}

/// A copy of a platform-B channel record.
pub fn copy_tw(c: &TwChannelSave) -> (r: TwChannelSave)
    ensures
        r == *c,
{
    TwChannelSave {
        id: c.id.clone(),
        login: c.login.clone(),
        profile_img: c.profile_img.clone(),
        name: c.name.clone(),
        last_time_used: c.last_time_used,
    }
}

/// Expiry leaves no trace of a dropped channel: its id is no longer tracked
/// and no event of the kept snapshot comes from it.
pub proof fn lemma_expired_channel_gone(
    chans: Seq<YtChannelSave>,
    tws: Seq<TwChannelSave>,
    events: Seq<EventView>,
    now: i64,
    expire_min: i64,
    k: int,
)
    requires
        distinct(yt_ids(chans)),
        0 <= k < chans.len(),
        expired(chans[k].last_time_used, now, expire_min),
    ensures
        !yt_ids(keep(chans, yt_live(now, expire_min))).contains(chans[k].id@),
        forall|x: EventView| #[trigger] keep(events, tracked_pred(keep(chans, yt_live(now, expire_min)), keep(tws, tw_live(now, expire_min)))).contains(x)
            ==> !from_yt_channel(x, chans[k].id@),
{
    let kept = keep(chans, yt_live(now, expire_min));
    let kt = keep(tws, tw_live(now, expire_min));
    lemma_filter_sub(chans, yt_live(now, expire_min));
    if yt_ids(kept).contains(chans[k].id@) {
        let q = choose|q: int| 0 <= q < yt_ids(kept).len() && yt_ids(kept)[q] == chans[k].id@;
        assert(kept.contains(kept[q]));
        let m = choose|m: int| 0 <= m < chans.len() && chans[m] == kept[q];
        assert(yt_ids(chans)[m] == yt_ids(chans)[k]);
        if m != k {
            if m < k {
                assert(yt_ids(chans)[m] != yt_ids(chans)[k]);
            } else {
                assert(yt_ids(chans)[k] != yt_ids(chans)[m]);
            }
        }
        assert((yt_live(now, expire_min))(chans[m]));
    }
    lemma_filter_sub(events, tracked_pred(kept, kt));
}

impl ServerData {
    /// Drops the channels unused for longer than the expiry window, and the
    /// events of the snapshot whose channel is no longer tracked.
    pub fn expire_channels(&mut self, now: i64)
        requires
            old(self).wf(),
        ensures
            final(self).wf(),
            final(self).yt_channels@ == keep(old(self).yt_channels@, yt_live(now, old(self).channel_expire_min)),
            final(self).tw_channels@ == keep(old(self).tw_channels@, tw_live(now, old(self).channel_expire_min)),
            evs(final(self).events@) == keep(evs(old(self).events@), tracked_pred(final(self).yt_channels@, final(self).tw_channels@)),
            final(self).yt_videos == old(self).yt_videos,
            final(self).channel_expire_min == old(self).channel_expire_min,
            forall|k: int| 0 <= k < old(self).yt_channels@.len() && expired(
                #[trigger] old(self).yt_channels@[k].last_time_used, now, old(self).channel_expire_min)
                ==> !yt_ids(final(self).yt_channels@).contains(old(self).yt_channels@[k].id@)
                && forall|x: EventView| evs(final(self).events@).contains(x) ==> !from_yt_channel(x, old(self).yt_channels@[k].id@),
    {
        let exp = self.channel_expire_min;
        let mut yt: Vec<YtChannelSave> = Vec::new();
        let mut i: usize = 0;
        while i < self.yt_channels.len()
            invariant
                i <= self.yt_channels.len(),
                self == old(self),
                exp == self.channel_expire_min,
                yt@ == keep(self.yt_channels@.take(i as int), yt_live(now, exp)),
            decreases self.yt_channels.len() - i,
        {
            assert(self.yt_channels@.take(i + 1).drop_last() =~= self.yt_channels@.take(i as int));
            if !is_expired(self.yt_channels[i].last_time_used, now, exp) {
                yt.push(copy_yt(&self.yt_channels[i]));
            }
            i = i + 1;
        }
        assert(self.yt_channels@.take(i as int) =~= self.yt_channels@);
        let mut tw: Vec<TwChannelSave> = Vec::new();
        let mut i: usize = 0;
        while i < self.tw_channels.len()
            invariant
                i <= self.tw_channels.len(),
                self == old(self),
                exp == self.channel_expire_min,
                tw@ == keep(self.tw_channels@.take(i as int), tw_live(now, exp)),
            decreases self.tw_channels.len() - i,
        {
            assert(self.tw_channels@.take(i + 1).drop_last() =~= self.tw_channels@.take(i as int));
            if !is_expired(self.tw_channels[i].last_time_used, now, exp) {
                tw.push(copy_tw(&self.tw_channels[i]));
            }
            i = i + 1;
        }
        assert(self.tw_channels@.take(i as int) =~= self.tw_channels@);
        let mut events: Vec<UpcomingEvent> = Vec::new();
        let ghost all = evs(self.events@);
        let mut i: usize = 0;
        while i < self.events.len()
            invariant
                i <= self.events.len(),
                self == old(self),
                all == evs(self.events@),
                evs(events@) == keep(all.take(i as int), tracked_pred(yt@, tw@)),
            decreases self.events.len() - i,
        {
            assert(all.take(i + 1).drop_last() =~= all.take(i as int));
            let e = &self.events[i];
            let still_known = match &e.source {
                EventSource::YoutubeChannel(c) => yt_tracked(&yt, &c.id),
                EventSource::TwitchChannel(c) => tw_tracked(&tw, &c.login),
            };
            if still_known {
                events.push(e.copy());
                assert(evs(events@) =~= keep(all.take(i as int), tracked_pred(yt@, tw@)).push(all[i as int]));
            }
            i = i + 1;
        }
        assert(all.take(i as int) =~= all);
        proof {
            assert forall|a: int, b: int| 0 <= a < b < old(self).yt_channels@.len() implies
                yt_key()(old(self).yt_channels@[a]) != yt_key()(old(self).yt_channels@[b]) by {
                assert(yt_ids(old(self).yt_channels@)[a] != yt_ids(old(self).yt_channels@)[b]);
            }
            assert forall|a: int, b: int| 0 <= a < b < old(self).tw_channels@.len() implies
                tw_key()(old(self).tw_channels@[a]) != tw_key()(old(self).tw_channels@[b]) by {
                assert(tw_logins(old(self).tw_channels@)[a] != tw_logins(old(self).tw_channels@)[b]);
            }
            lemma_filter_distinct(old(self).yt_channels@, yt_key(), yt_live(now, exp));
            lemma_filter_distinct(old(self).tw_channels@, tw_key(), tw_live(now, exp));
            lemma_filter_distinct_uids(all, tracked_pred(yt@, tw@));
            assert forall|a: int, b: int| 0 <= a < b < yt@.len() implies yt_ids(yt@)[a] != yt_ids(yt@)[b] by {
                assert(yt_key()(yt@[a]) != yt_key()(yt@[b]));
            }
            assert forall|a: int, b: int| 0 <= a < b < tw@.len() implies tw_logins(tw@)[a] != tw_logins(tw@)[b] by {
                assert(tw_key()(tw@[a]) != tw_key()(tw@[b]));
            }
            assert forall|k: int| 0 <= k < old(self).yt_channels@.len() && expired(
                #[trigger] old(self).yt_channels@[k].last_time_used, now, exp)
                implies !yt_ids(yt@).contains(old(self).yt_channels@[k].id@)
                && forall|x: EventView| evs(events@).contains(x) ==> !from_yt_channel(x, old(self).yt_channels@[k].id@) by {
                lemma_expired_channel_gone(old(self).yt_channels@, old(self).tw_channels@, all, now, exp, k);
            }
        }
        proof {
            let kept = keep(all, tracked_pred(yt@, tw@));
            lemma_filter_sub(all, tracked_pred(yt@, tw@));
            assert forall|i: int| 0 <= i < kept.len() implies source_tracked(#[trigger] kept[i], yt@, tw@) by {
                assert(kept.contains(kept[i]));
            }
        }
        self.yt_channels = yt;
        self.tw_channels = tw;
        self.events = events;
    }

    /// Marks the platform-A channel `id` as used at `now`.
    pub fn touch_yt_channel(&mut self, id: &String, now: i64)
        requires
            old(self).wf(),
        ensures
            final(self).wf(),
            final(self).yt_channels@ == yt_after_touch(old(self).yt_channels@, id@, now),
            final(self).tw_channels == old(self).tw_channels,
            final(self).yt_videos == old(self).yt_videos,
            final(self).events == old(self).events,
            final(self).channel_expire_min == old(self).channel_expire_min,
    {
        match find_yt_channel(&self.yt_channels, id) {
            Some(k) => {
                let mut c = copy_yt(&self.yt_channels[k]);
                c.last_time_used = now;
                self.yt_channels.set(k, c);
                assert(yt_ids(self.yt_channels@) =~= yt_ids(old(self).yt_channels@));
            },
            None => {},
        }
    }

    /// Marks the platform-B channel `login` as used at `now`.
    pub fn touch_tw_channel(&mut self, login: &String, now: i64)
        requires
            old(self).wf(),
        ensures
            final(self).wf(),
            final(self).tw_channels@ == tw_after_touch(old(self).tw_channels@, login@, now),
            final(self).yt_channels == old(self).yt_channels,
            final(self).yt_videos == old(self).yt_videos,
            final(self).events == old(self).events,
            final(self).channel_expire_min == old(self).channel_expire_min,
    {
        match find_tw_channel(&self.tw_channels, login) {
            Some(k) => {
                let mut c = copy_tw(&self.tw_channels[k]);
                c.last_time_used = now;
                self.tw_channels.set(k, c);
                assert(tw_logins(self.tw_channels@) =~= tw_logins(old(self).tw_channels@));
            },
            None => {},
        }
    }

    /// The requested platform-A ids that are not tracked yet, in order.
    pub fn filter_new_yt_channel_id(&self, channel_ids: &Vec<String>) -> (r: Vec<String>)
        ensures
            texts(r@) == keep(texts(channel_ids@), yt_unknown(self.yt_channels@)),
    {
        let mut out: Vec<String> = Vec::new();
        let mut i: usize = 0;
        while i < channel_ids.len()
            invariant
                i <= channel_ids.len(),
                texts(out@) == keep(texts(channel_ids@).take(i as int), yt_unknown(self.yt_channels@)),
            decreases channel_ids.len() - i,
        {
            assert(texts(channel_ids@).take(i + 1).drop_last() =~= texts(channel_ids@).take(i as int));
            if !yt_tracked(&self.yt_channels, &channel_ids[i]) {
                out.push(channel_ids[i].clone());
                assert(texts(out@) =~= keep(texts(channel_ids@).take(i as int), yt_unknown(self.yt_channels@)).push(channel_ids@[i as int]@));
            }
            i = i + 1;
        }
        assert(texts(channel_ids@).take(i as int) =~= texts(channel_ids@));
        out
    }

    /// The requested platform-B logins that are not tracked yet, in order.
    pub fn filter_new_tw_channel_login(&self, channel_logins: &Vec<String>) -> (r: Vec<String>)
        ensures
            texts(r@) == keep(texts(channel_logins@), tw_unknown(self.tw_channels@)),
    {
        let mut out: Vec<String> = Vec::new();
        let mut i: usize = 0;
        while i < channel_logins.len()
            invariant
                i <= channel_logins.len(),
                texts(out@) == keep(texts(channel_logins@).take(i as int), tw_unknown(self.tw_channels@)),
            decreases channel_logins.len() - i,
        {
            assert(texts(channel_logins@).take(i + 1).drop_last() =~= texts(channel_logins@).take(i as int));
            if !tw_tracked(&self.tw_channels, &channel_logins[i]) {
                out.push(channel_logins[i].clone());
                assert(texts(out@) =~= keep(texts(channel_logins@).take(i as int), tw_unknown(self.tw_channels@)).push(channel_logins@[i as int]@));
            }
            i = i + 1;
        }
        assert(texts(channel_logins@).take(i as int) =~= texts(channel_logins@));
        out
    }

    /// Brings the snapshot's platform-B events up to date: each live stream
    /// of a tracked channel replaces the event with its uid. Ended streams
    /// stay until the next full cycle replaces the snapshot.
    pub fn merge_tw_streams(&mut self, streams: &Vec<StreamInformation>)
        requires
            old(self).wf(),
        ensures
            final(self).wf(),
            evs(final(self).events@) == upsert_all(evs(old(self).events@), stream_events(streams@, old(self).tw_channels@)),
            final(self).yt_channels == old(self).yt_channels,
            final(self).tw_channels == old(self).tw_channels,
            final(self).yt_videos == old(self).yt_videos,
            final(self).channel_expire_min == old(self).channel_expire_min,
    {
        let mut events = Vec::new();
        std::mem::swap(&mut events, &mut self.events);
        upsert_stream_events(&mut events, streams, &self.tw_channels);
        proof {
            lemma_upsert_all(evs(old(self).events@), stream_events(streams@, old(self).tw_channels@));
            merged_tracked(evs(old(self).events@), streams@, self.yt_channels@, self.tw_channels@);
        }
        self.events = events;
    }
}

/// The widest thumbnail at most 240 wide, the first of equal widths; an
/// empty address when there is none.
pub open spec fn best_thumb(ts: Seq<(String, Thumbnail)>) -> (Seq<char>, u32)
    decreases ts.len(),
{
    if ts.len() == 0 {
        (Seq::empty(), 0)
    } else {
        let prev = best_thumb(ts.drop_last());
        let t = ts.last().1;
        if t.width > prev.1 && t.width <= 240 {
            (t.url@, t.width)
        } else {
            prev
        }
    }
}

/// The address of the widest thumbnail at most 240 wide.
pub fn best_thumbnail(ts: &Vec<(String, Thumbnail)>) -> (r: String)
    ensures
        r@ == best_thumb(ts@).0,
{
    let mut url = String::new();
    let mut width: u32 = 0;
    let mut i: usize = 0;
    assert(ts@.take(0) =~= Seq::<(String, Thumbnail)>::empty());
    while i < ts.len()
        invariant
            i <= ts.len(),
            (url@, width) == best_thumb(ts@.take(i as int)),
        decreases ts.len() - i,
    {
        assert(ts@.take(i + 1).drop_last() =~= ts@.take(i as int));
        let t = &ts[i].1;
        if t.width > width && t.width <= 240 {
            url = t.url.clone();
            width = t.width;
        }
        i = i + 1;
    }
    assert(ts@.take(i as int) =~= ts@);
    url
}

/// The record a newly tracked channel gets.
pub open spec fn registered(rec: YtChannelSave, c: ChannelRecord, videos: Seq<VideoRecord>, now: i64) -> bool {
    &&& c.snippet is Some
    &&& c.uploads_playlist is Some
    &&& rec.id@ == c.id@
    &&& rec.custom_url@ == c.snippet->Some_0.custom_url@
    &&& rec.title@ == c.snippet->Some_0.title@
    &&& rec.thumbnail@ == best_thumb(c.snippet->Some_0.thumbnails@).0
    &&& rec.upload_playlist@ == c.uploads_playlist->Some_0@
    &&& rec.last_time_used == now
    &&& rec.first_video_after_all_stream@ == match proposal(videos, c.id@) {
        Some(w) => w,
        None => Seq::empty(),
    }
}

/// The refreshable metadata of a platform-A channel.
pub struct ChannelInfoView {
    pub custom_url: Seq<char>,
    pub thumbnail: Seq<char>,
    pub title: Seq<char>,
    pub upload_playlist: Seq<char>,
}

pub open spec fn info_of(c: YtChannelSave) -> ChannelInfoView {
    ChannelInfoView {
        custom_url: c.custom_url@,
        thumbnail: c.thumbnail@,
        title: c.title@,
        upload_playlist: c.upload_playlist@,
    }
}

/// A channel's metadata after the fetched records, in order; records
/// without a snippet or an uploads playlist are skipped, and the thumbnail
/// changes only where a `"medium"` one is given.
pub open spec fn info_after(cur: ChannelInfoView, id: Seq<char>, recs: Seq<ChannelRecord>) -> ChannelInfoView
    decreases recs.len(),
{
    if recs.len() == 0 {
        cur
    } else {
        let prev = info_after(cur, id, recs.drop_last());
        let r = recs.last();
        if r.id@ == id && r.snippet is Some && r.uploads_playlist is Some {
            let sn = r.snippet->Some_0;
            ChannelInfoView {
                custom_url: sn.custom_url@,
                thumbnail: match medium_pos(sn.thumbnails@) {
                    Some(t) => sn.thumbnails@[t].1.url@,
                    None => prev.thumbnail,
                },
                title: sn.title@,
                upload_playlist: r.uploads_playlist->Some_0@,
            }
        } else {
            prev
        }
    }
}

impl TwChannelSave {
    /// The record of a fetched user, used at `now`.
    pub fn from_user(u: &UserInformation, now: i64) -> (r: TwChannelSave)
        ensures
            user_record(r, *u, now),
    {
        TwChannelSave {
            id: u.id.clone(),
            login: u.login.clone(),
            profile_img: u.profile_image_url.clone(),
            name: u.display_name.clone(),
            last_time_used: now,
        }
    }
}

/// The platform-B record made from a fetched user at `now`.
pub open spec fn user_record(n: TwChannelSave, u: UserInformation, now: i64) -> bool {
    &&& n.id@ == u.id@
    &&& n.login@ == u.login@
    &&& n.profile_img@ == u.profile_image_url@
    &&& n.name@ == u.display_name@
    &&& n.last_time_used == now
}

/// The position of the last user with this login.
pub open spec fn last_user(users: Seq<UserInformation>, login: Seq<char>) -> Option<int>
    decreases users.len(),
{
    if users.len() == 0 {
        None
    } else if users.last().login@ == login {
        Some(users.len() - 1)
    } else {
        last_user(users.drop_last(), login)
    }
}

pub proof fn lemma_last_user(users: Seq<UserInformation>, login: Seq<char>)
    ensures
        last_user(users, login) is Some ==> 0 <= last_user(users, login)->Some_0 < users.len()
            && users[last_user(users, login)->Some_0].login@ == login,
    decreases users.len(),
{
    if users.len() > 0 {
        lemma_last_user(users.drop_last(), login);
        if users.last().login@ != login && last_user(users, login) is Some {
            assert(users[last_user(users, login)->Some_0] == users.drop_last()[last_user(users, login)->Some_0]);
        }
    }
}

/// A tracked platform-B record after the fetched users: the last user with
/// its login replaces it; without one it stays as it was.
pub open spec fn tw_after_users(n: TwChannelSave, o: TwChannelSave, users: Seq<UserInformation>, now: i64) -> bool {
    match last_user(users, o.login@) {
        Some(j) => user_record(n, users[j], now),
        None => n == o,
    }
}

/// A record added for a login not tracked before: made from the last user
/// with that login.
pub open spec fn new_tw_record(n: TwChannelSave, olds: Seq<TwChannelSave>, users: Seq<UserInformation>, now: i64) -> bool {
    &&& !tw_logins(olds).contains(n.login@)
    &&& last_user(users, n.login@) is Some
    &&& user_record(n, users[last_user(users, n.login@)->Some_0], now)
}

/// The refreshable metadata of a platform-B channel.
pub struct UserInfoView {
    pub profile_img: Seq<char>,
    pub name: Seq<char>,
}

pub open spec fn user_info_of(c: TwChannelSave) -> UserInfoView {
    UserInfoView { profile_img: c.profile_img@, name: c.name@ }
}

/// A platform-B channel's metadata after the fetched users, in order.
pub open spec fn user_info_after(cur: UserInfoView, login: Seq<char>, users: Seq<UserInformation>) -> UserInfoView
    decreases users.len(),
{
    if users.len() == 0 {
        cur
    } else if users.last().login@ == login {
        UserInfoView { profile_img: users.last().profile_image_url@, name: users.last().display_name@ }
    } else {
        user_info_after(cur, login, users.drop_last())
    }
}

/// The ids of the videos of a playlist page; items without content details are skipped.
pub open spec fn playlist_ids(items: Seq<PlaylistItemRecord>) -> Seq<Seq<char>>
    decreases items.len(),
{
    if items.len() == 0 {
        Seq::empty()
    } else {
        match items.last().video_id {
            Some(v) => playlist_ids(items.drop_last()).push(v@),
            None => playlist_ids(items.drop_last()),
        }
    }
}

/// The ids of the videos of a playlist page, in order.
pub fn playlist_video_ids(items: &Vec<PlaylistItemRecord>) -> (r: Vec<String>)
    ensures
        texts(r@) == playlist_ids(items@),
{
    let mut out: Vec<String> = Vec::new();
    let mut i: usize = 0;
    assert(items@.take(0) =~= Seq::<PlaylistItemRecord>::empty());
    while i < items.len()
        invariant
            i <= items.len(),
            texts(out@) == playlist_ids(items@.take(i as int)),
        decreases items.len() - i,
    {
        assert(items@.take(i + 1).drop_last() =~= items@.take(i as int));
        match &items[i].video_id {
            Some(v) => {
                out.push(v.clone());
                assert(texts(out@) =~= playlist_ids(items@.take(i as int)).push(v@));
            },
            None => {},
        }
        i = i + 1;
    }
    assert(items@.take(i as int) =~= items@);
    out
}

impl ServerData {
    /// Starts tracking a channel from its metadata and its recent videos.
    ///
    /// Returns false, changing nothing, when the metadata lacks its snippet
    /// or its uploads playlist. Otherwise the channel is recorded (replacing
    /// a record with the same id), the videos that are live or upcoming
    /// become events and pending ids, and the watermark is the videos'
    /// proposal, or unset.
    pub fn track_new_yt_channel(&mut self, c: &ChannelRecord, videos: &Vec<VideoRecord>, now: i64) -> (r: bool)
        requires
            old(self).wf(),
        ensures
            final(self).wf(),
            r == (c.snippet is Some && c.uploads_playlist is Some),
            !r ==> *final(self) == *old(self),
            r ==> {
                let pos = yt_channel_pos(final(self).yt_channels@, c.id@);
                &&& pos is Some
                &&& registered(final(self).yt_channels@[pos->Some_0], *c, videos@, now)
                &&& final(self).yt_channels@.len() == old(self).yt_channels@.len()
                    + if yt_channel_pos(old(self).yt_channels@, c.id@) is Some { 0int } else { 1int }
                &&& forall|j: int| 0 <= j < old(self).yt_channels@.len() && old(self).yt_channels@[j].id@ != c.id@
                    ==> #[trigger] final(self).yt_channels@[j] == old(self).yt_channels@[j]
                &&& evs(final(self).events@) == upsert_all(evs(old(self).events@), video_events(videos@, final(self).yt_channels@))
                &&& final(self).yt_videos.id_texts() == add_live(old(self).yt_videos.id_texts(), videos@, final(self).yt_channels@)
                &&& final(self).tw_channels == old(self).tw_channels
                &&& final(self).channel_expire_min == old(self).channel_expire_min
            },
            r && yt_channel_pos(old(self).yt_channels@, c.id@) is None ==> forall|x: EventView|
                #[trigger] evs(final(self).events@).contains(x) && from_yt_channel(x, c.id@)
                ==> video_events(videos@, final(self).yt_channels@).contains(x),
    {
        let (sn, up) = match (&c.snippet, &c.uploads_playlist) {
            (Some(sn), Some(up)) => (sn, up),
            _ => {
                return false;
            },
        };
        let wm = match proposal_for(videos, &c.id) {
            Some(w) => w,
            None => String::new(),
        };
        let rec = YtChannelSave {
            custom_url: sn.custom_url.clone(),
            id: c.id.clone(),
            title: sn.title.clone(),
            thumbnail: best_thumbnail(&sn.thumbnails),
            upload_playlist: up.clone(),
            last_time_used: now,
            first_video_after_all_stream: wm,
        };
        let ghost rec_v = rec;
        match find_yt_channel(&self.yt_channels, &c.id) {
            Some(k) => {
                self.yt_channels.set(k, rec);
                assert(yt_ids(self.yt_channels@) =~= yt_ids(old(self).yt_channels@));
                assert forall|x: Seq<char>| yt_ids(old(self).yt_channels@).contains(x) implies #[trigger] yt_ids(self.yt_channels@).contains(x) by {}
                proof {
                    assert(is_first_match(self.yt_channels@, yt_id_pred(c.id@), k as int)) by {
                        assert(is_first_match(old(self).yt_channels@, yt_id_pred(c.id@), k as int)) by {
                            assert(exists|i: int| is_first_match(old(self).yt_channels@, yt_id_pred(c.id@), i));
                        }
                    }
                    lemma_first_match_at(self.yt_channels@, yt_id_pred(c.id@), k as int);
                }
            },
            None => {
                proof {
                    assert(!yt_ids(old(self).yt_channels@).contains(c.id@)) by {
                        if yt_ids(old(self).yt_channels@).contains(c.id@) {
                            let j = choose|j: int| 0 <= j < yt_ids(old(self).yt_channels@).len() && yt_ids(old(self).yt_channels@)[j] == c.id@;
                            crate::find::lemma_first_match_some(old(self).yt_channels@, yt_id_pred(c.id@), j);
                        }
                    }
                }
                self.yt_channels.push(rec);
                assert(yt_ids(self.yt_channels@) =~= yt_ids(old(self).yt_channels@).push(c.id@));
                assert forall|x: Seq<char>| yt_ids(old(self).yt_channels@).contains(x) implies #[trigger] yt_ids(self.yt_channels@).contains(x) by {
                    let j = choose|j: int| 0 <= j < yt_ids(old(self).yt_channels@).len() && yt_ids(old(self).yt_channels@)[j] == x;
                    assert(yt_ids(self.yt_channels@)[j] == x);
                }
                proof {
                    lemma_with_text_distinct(yt_ids(old(self).yt_channels@), c.id@);
                    let n = old(self).yt_channels@.len() as int;
                    assert forall|j: int| 0 <= j < n implies !(yt_id_pred(c.id@))(#[trigger] self.yt_channels@[j]) by {
                        assert(yt_ids(old(self).yt_channels@)[j] == self.yt_channels@[j].id@);
                    }
                    assert(is_first_match(self.yt_channels@, yt_id_pred(c.id@), n));
                    lemma_first_match_at(self.yt_channels@, yt_id_pred(c.id@), n);
                }
            },
        }
        let ghost mid = *self;
        let mut i: usize = 0;
        assert(videos@.take(0) =~= Seq::<VideoRecord>::empty());
        while i < videos.len()
            invariant
                i <= videos.len(),
                self.yt_channels == mid.yt_channels,
                self.tw_channels == mid.tw_channels,
                self.channel_expire_min == mid.channel_expire_min,
                self.yt_videos.wf(),
                distinct(yt_ids(self.yt_channels@)),
                distinct(tw_logins(self.tw_channels@)),
                distinct_uids(evs(self.events@)),
                evs(self.events@) == upsert_all(evs(old(self).events@), video_events(videos@.take(i as int), self.yt_channels@)),
                self.yt_videos.id_texts() == add_live(old(self).yt_videos.id_texts(), videos@.take(i as int), self.yt_channels@),
            decreases videos.len() - i,
        {
            assert(videos@.take(i + 1).drop_last() =~= videos@.take(i as int));
            assert(videos@.take(i + 1).last() == videos@[i as int]);
            let v = &videos[i];
            match UpcomingEvent::from_video(v, &self.yt_channels) {
                Ok(e) => {
                    proof {
                        let ve = video_events(videos@.take(i as int), self.yt_channels@);
                        assert(ve.push(e@).drop_last() =~= ve);
                        lemma_upsert(evs(self.events@), e@);
                    }
                    upsert_event(&mut self.events, e);
                },
                Err(_) => {},
            }
            if self.is_tracked_live(v) {
                self.yt_videos.push_checked(v.id.clone());
            }
            i = i + 1;
        }
        assert(videos@.take(i as int) =~= videos@);
        proof {
            let c1 = self.yt_channels@;
            let t1 = self.tw_channels@;
            lemma_events_tracked_grow(evs(old(self).events@), old(self).yt_channels@, old(self).tw_channels@, c1, t1);
            lemma_video_events_tracked(videos@, c1, t1);
            let ve = video_events(videos@, c1);
            let pred = tracked_pred(c1, t1);
            assert forall|j: int| 0 <= j < ve.len() implies pred(#[trigger] ve[j]) by {}
            assert forall|j: int| 0 <= j < evs(old(self).events@).len() implies pred(#[trigger] evs(old(self).events@)[j]) by {}
            lemma_upsert_all_within(evs(old(self).events@), ve, pred);
            let fin = evs(self.events@);
            assert forall|j: int| 0 <= j < fin.len() implies source_tracked(#[trigger] fin[j], c1, t1) by {
                assert(pred(fin[j]));
            }
            if yt_channel_pos(old(self).yt_channels@, c.id@) is None {
                let oe = evs(old(self).events@);
                let fresh_pred = |x: EventView| !from_yt_channel(x, c.id@) || ve.contains(x);
                assert forall|j: int| 0 <= j < oe.len() implies fresh_pred(#[trigger] oe[j]) by {
                    assert(source_tracked(oe[j], old(self).yt_channels@, old(self).tw_channels@));
                    if from_yt_channel(oe[j], c.id@) {
                        assert(yt_ids(old(self).yt_channels@).contains(c.id@));
                        let q = choose|q: int| 0 <= q < yt_ids(old(self).yt_channels@).len() && yt_ids(old(self).yt_channels@)[q] == c.id@;
                        crate::find::lemma_first_match_some(old(self).yt_channels@, yt_id_pred(c.id@), q);
                    }
                }
                assert forall|j: int| 0 <= j < ve.len() implies fresh_pred(#[trigger] ve[j]) by {
                    assert(ve.contains(ve[j]));
                }
                lemma_upsert_all_within(oe, ve, fresh_pred);
                assert forall|x: EventView| #[trigger] fin.contains(x) && from_yt_channel(x, c.id@) implies ve.contains(x) by {
                    let j = choose|j: int| 0 <= j < fin.len() && fin[j] == x;
                    assert(fresh_pred(fin[j]));
                }
            }
        }
        true
    }

    /// Refreshes the metadata of tracked platform-A channels from fetched
    /// records; records of untracked ids are ignored.
    pub fn update_yt_channel_info(&mut self, records: &Vec<ChannelRecord>)
        requires
            old(self).wf(),
        ensures
            final(self).wf(),
            final(self).yt_channels@.len() == old(self).yt_channels@.len(),
            forall|k: int| 0 <= k < old(self).yt_channels@.len() ==> {
                let o = old(self).yt_channels@[k];
                let n = #[trigger] final(self).yt_channels@[k];
                &&& info_of(n) == info_after(info_of(o), o.id@, records@)
                &&& n.id == o.id
                &&& n.last_time_used == o.last_time_used
                &&& n.first_video_after_all_stream == o.first_video_after_all_stream
            },
            final(self).tw_channels == old(self).tw_channels,
            final(self).yt_videos == old(self).yt_videos,
            final(self).events == old(self).events,
            final(self).channel_expire_min == old(self).channel_expire_min,
    {
        let mut i: usize = 0;
        assert(records@.take(0) =~= Seq::<ChannelRecord>::empty());
        while i < records.len()
            invariant
                i <= records.len(),
                self.wf(),
                self.yt_channels@.len() == old(self).yt_channels@.len(),
                self.tw_channels == old(self).tw_channels,
                self.yt_videos == old(self).yt_videos,
                self.events == old(self).events,
                self.channel_expire_min == old(self).channel_expire_min,
                forall|k: int| 0 <= k < old(self).yt_channels@.len() ==> {
                    let o = old(self).yt_channels@[k];
                    let n = #[trigger] self.yt_channels@[k];
                    &&& info_of(n) == info_after(info_of(o), o.id@, records@.take(i as int))
                    &&& n.id == o.id
                    &&& n.last_time_used == o.last_time_used
                    &&& n.first_video_after_all_stream == o.first_video_after_all_stream
                },
            decreases records.len() - i,
        {
            assert(records@.take(i + 1).drop_last() =~= records@.take(i as int));
            assert(records@.take(i + 1).last() == records@[i as int]);
            let r = &records[i];
            match (&r.snippet, &r.uploads_playlist) {
                (Some(sn), Some(up)) => {
                    match find_yt_channel(&self.yt_channels, &r.id) {
                        Some(k) => {
                            let mut c = copy_yt(&self.yt_channels[k]);
                            c.custom_url = sn.custom_url.clone();
                            match find_medium_thumbnail(&sn.thumbnails) {
                                Some(t) => {
                                    c.thumbnail = sn.thumbnails[t].1.url.clone();
                                },
                                None => {},
                            }
                            c.title = sn.title.clone();
                            c.upload_playlist = up.clone();
                            let ghost before = self.yt_channels@;
                            self.yt_channels.set(k, c);
                            assert(yt_ids(self.yt_channels@) =~= yt_ids(before));
                            proof {
                                assert forall|j: int| 0 <= j < old(self).yt_channels@.len() && j != k implies
                                    old(self).yt_channels@[j].id@ != r.id@ by {
                                    assert(yt_ids(before)[j] != yt_ids(before)[k as int]);
                                }
                            }
                        },
                        None => {
                            proof {
                                assert forall|j: int| 0 <= j < old(self).yt_channels@.len() implies
                                    old(self).yt_channels@[j].id@ != r.id@ by {
                                    if old(self).yt_channels@[j].id@ == r.id@ {
                                        crate::find::lemma_first_match_some(self.yt_channels@, yt_id_pred(r.id@), j);
                                    }
                                }
                            }
                        },
                    }
                },
                _ => {},
            }
            i = i + 1;
        }
        assert(records@.take(i as int) =~= records@);
    }

    /// Starts tracking platform-B channels from their user records: the last
    /// user with a login replaces the record of that login, or is appended
    /// when the login is new; other records are unchanged. Then adds the
    /// events of the streams (`None` when their fetch failed).
    pub fn track_new_tw_channels(&mut self, users: &Vec<UserInformation>, streams: &Option<Vec<StreamInformation>>, now: i64)
        requires
            old(self).wf(),
        ensures
            final(self).wf(),
            forall|x: Seq<char>| #[trigger] tw_logins(final(self).tw_channels@).contains(x) <==> (
                tw_logins(old(self).tw_channels@).contains(x) || exists|i: int| 0 <= i < users@.len() && users@[i].login@ == x),
            final(self).tw_channels@.len() >= old(self).tw_channels@.len(),
            forall|k: int| 0 <= k < old(self).tw_channels@.len() ==> tw_after_users(
                #[trigger] final(self).tw_channels@[k], old(self).tw_channels@[k], users@, now),
            forall|k: int| old(self).tw_channels@.len() <= k < final(self).tw_channels@.len() ==> new_tw_record(
                #[trigger] final(self).tw_channels@[k], old(self).tw_channels@, users@, now),
            evs(final(self).events@) == match streams {
                Some(ss) => upsert_all(evs(old(self).events@), stream_events(ss@, final(self).tw_channels@)),
                None => evs(old(self).events@),
            },
            final(self).yt_channels == old(self).yt_channels,
            final(self).yt_videos == old(self).yt_videos,
            final(self).channel_expire_min == old(self).channel_expire_min,
    {
        let ghost olds = old(self).tw_channels@;
        let mut i: usize = 0;
        assert(users@.take(0) =~= Seq::<UserInformation>::empty());
        while i < users.len()
            invariant
                i <= users.len(),
                olds == old(self).tw_channels@,
                self.wf(),
                self.yt_channels == old(self).yt_channels,
                self.yt_videos == old(self).yt_videos,
                self.events == old(self).events,
                self.channel_expire_min == old(self).channel_expire_min,
                forall|x: Seq<char>| #[trigger] tw_logins(self.tw_channels@).contains(x) <==> (
                    tw_logins(olds).contains(x) || exists|j: int| 0 <= j < i && users@[j].login@ == x),
                self.tw_channels@.len() >= olds.len(),
                forall|k: int| 0 <= k < olds.len() ==> (#[trigger] self.tw_channels@[k]).login@ == olds[k].login@
                    && tw_after_users(self.tw_channels@[k], olds[k], users@.take(i as int), now),
                forall|k: int| olds.len() <= k < self.tw_channels@.len() ==> new_tw_record(
                    #[trigger] self.tw_channels@[k], olds, users@.take(i as int), now),
            decreases users.len() - i,
        {
            let u = &users[i];
            let rec = TwChannelSave::from_user(u, now);
            let ghost rec_v = rec;
            let ghost before = self.tw_channels@;
            let ghost pre = users@.take(i as int);
            let ghost post = users@.take(i + 1);
            proof {
                assert(users@[i as int] == *u);
                assert(post.drop_last() =~= pre);
                assert(post.drop_last() == pre);
                assert forall|j: int| 0 <= j < i implies #[trigger] post[j] == pre[j] by {}
                assert(post.last() == *u);
                assert forall|y: Seq<char>| y != u.login@ implies #[trigger] last_user(post, y) == last_user(pre, y) by {}
                assert(last_user(post, u.login@) == Some(i as int));
                assert(post[i as int] == *u);
            }
            match find_tw_channel(&self.tw_channels, &u.login) {
                Some(k) => {
                    self.tw_channels.set(k, rec);
                    assert(tw_logins(self.tw_channels@) =~= tw_logins(before));
                    proof {
                        assert(before[k as int].login@ == u.login@) by {
                            assert(crate::find::is_first_match(before, crate::events::tw_login_pred(u.login@), k as int)) by {
                                assert(exists|q: int| crate::find::is_first_match(before, crate::events::tw_login_pred(u.login@), q));
                            }
                        }
                        assert forall|x: Seq<char>| #[trigger] tw_logins(self.tw_channels@).contains(x) <==> (
                            tw_logins(olds).contains(x) || exists|j: int| 0 <= j < i + 1 && users@[j].login@ == x) by {
                            if x == u.login@ {
                                assert(tw_logins(before)[k as int] == x);
                            }
                            if exists|j: int| 0 <= j < i + 1 && users@[j].login@ == x {
                                let j = choose|j: int| 0 <= j < i + 1 && users@[j].login@ == x;
                                if j < i {
                                    assert(exists|j: int| 0 <= j < i && users@[j].login@ == x);
                                }
                            }
                        }
                        assert forall|q: int| 0 <= q < self.tw_channels@.len() && q != k implies
                            #[trigger] self.tw_channels@[q] == before[q] && before[q].login@ != u.login@ by {
                            if q < k {
                                assert(tw_logins(before)[q] != tw_logins(before)[k as int]);
                            } else {
                                assert(tw_logins(before)[k as int] != tw_logins(before)[q]);
                            }
                        }
                        assert forall|q: int| 0 <= q < olds.len() implies (#[trigger] self.tw_channels@[q]).login@ == olds[q].login@
                            && tw_after_users(self.tw_channels@[q], olds[q], post, now) by {
                            lemma_last_user(pre, olds[q].login@);
                            assert(before[q].login@ == olds[q].login@ && tw_after_users(before[q], olds[q], pre, now));
                            if q == k {
                                assert(self.tw_channels@[q] == rec_v);
                                assert(olds[q].login@ == u.login@);
                                assert(user_record(self.tw_channels@[q], post[i as int], now));
                            } else {
                                assert(self.tw_channels@[q] == before[q]);
                                assert(before[q].login@ == olds[q].login@);
                                assert(olds[q].login@ != u.login@);
                                assert(last_user(post, olds[q].login@) == last_user(post.drop_last(), olds[q].login@));
                            }
                        }
                        assert forall|q: int| olds.len() <= q < self.tw_channels@.len() implies new_tw_record(
                            #[trigger] self.tw_channels@[q], olds, post, now) by {
                            lemma_last_user(pre, before[q].login@);
                            if q == k {
                                assert(new_tw_record(before[q], olds, pre, now));
                                assert(self.tw_channels@[q] == rec_v);
                                assert(self.tw_channels@[q].login@ == before[q].login@);
                                assert(user_record(self.tw_channels@[q], post[i as int], now));
                            } else {
                                assert(self.tw_channels@[q] == before[q]);
                                assert(new_tw_record(before[q], olds, pre, now));
                                assert(before[q].login@ != u.login@);
                                assert(last_user(post, before[q].login@) == last_user(post.drop_last(), before[q].login@));
                            }
                        }
                    }
                },
                None => {
                    proof {
                        assert(!tw_logins(before).contains(u.login@)) by {
                            if tw_logins(before).contains(u.login@) {
                                let j = choose|j: int| 0 <= j < tw_logins(before).len() && tw_logins(before)[j] == u.login@;
                                crate::find::lemma_first_match_some(before, crate::events::tw_login_pred(u.login@), j);
                            }
                        }
                        lemma_with_text_distinct(tw_logins(before), u.login@);
                    }
                    self.tw_channels.push(rec);
                    assert(tw_logins(self.tw_channels@) =~= tw_logins(before).push(u.login@));
                    proof {
                        assert forall|x: Seq<char>| #[trigger] tw_logins(self.tw_channels@).contains(x) <==> (
                            tw_logins(olds).contains(x) || exists|j: int| 0 <= j < i + 1 && users@[j].login@ == x) by {
                            assert(tw_logins(before).contains(x) == (tw_logins(olds).contains(x) || exists|j: int| 0 <= j < i && users@[j].login@ == x));
                            if exists|j: int| 0 <= j < i + 1 && users@[j].login@ == x {
                                let j = choose|j: int| 0 <= j < i + 1 && users@[j].login@ == x;
                                if j < i {
                                    assert(exists|j: int| 0 <= j < i && users@[j].login@ == x);
                                }
                            }
                        }
                        assert forall|q: int| 0 <= q < before.len() implies before[q].login@ != u.login@ by {
                            assert(tw_logins(before)[q] == before[q].login@);
                        }
                        assert(!tw_logins(olds).contains(u.login@)) by {
                            if tw_logins(olds).contains(u.login@) {
                                let j = choose|j: int| 0 <= j < tw_logins(olds).len() && tw_logins(olds)[j] == u.login@;
                                assert(before[j].login@ == olds[j].login@);
                            }
                        }
                        assert forall|q: int| 0 <= q < olds.len() implies (#[trigger] self.tw_channels@[q]).login@ == olds[q].login@
                            && tw_after_users(self.tw_channels@[q], olds[q], post, now) by {
                            lemma_last_user(pre, olds[q].login@);
                            assert(self.tw_channels@[q] == before[q]);
                            assert(before[q].login@ == olds[q].login@ && tw_after_users(before[q], olds[q], pre, now));
                            assert(before[q].login@ != u.login@);
                            assert(last_user(post, olds[q].login@) == last_user(post.drop_last(), olds[q].login@));
                        }
                        assert forall|q: int| olds.len() <= q < self.tw_channels@.len() implies new_tw_record(
                            #[trigger] self.tw_channels@[q], olds, post, now) by {
                            lemma_last_user(pre, before[q].login@);
                            if q < before.len() {
                                assert(self.tw_channels@[q] == before[q]);
                                assert(new_tw_record(before[q], olds, pre, now));
                                assert(before[q].login@ != u.login@);
                                assert(last_user(post, before[q].login@) == last_user(post.drop_last(), before[q].login@));
                            } else {
                                assert(q == before.len());
                                assert(self.tw_channels@[q] == rec_v);
                                assert(user_record(self.tw_channels@[q], post[i as int], now));
                            }
                        }
                    }
                },
            }
            i = i + 1;
        }
        assert(users@.take(i as int) =~= users@);
        match streams {
            Some(ss) => {
                let mut events = Vec::new();
                std::mem::swap(&mut events, &mut self.events);
                upsert_stream_events(&mut events, ss, &self.tw_channels);
                proof {
                    lemma_upsert_all(evs(old(self).events@), stream_events(ss@, self.tw_channels@));
                    merged_tracked(evs(old(self).events@), ss@, self.yt_channels@, self.tw_channels@);
                }
                self.events = events;
            },
            None => {},
        }
    }

    /// Refreshes the metadata of tracked platform-B channels from fetched
    /// user records; users of untracked logins are ignored.
    pub fn update_tw_user_info(&mut self, users: &Vec<UserInformation>)
        requires
            old(self).wf(),
        ensures
            final(self).wf(),
            final(self).tw_channels@.len() == old(self).tw_channels@.len(),
            forall|k: int| 0 <= k < old(self).tw_channels@.len() ==> {
                let o = old(self).tw_channels@[k];
                let n = #[trigger] final(self).tw_channels@[k];
                &&& user_info_of(n) == user_info_after(user_info_of(o), o.login@, users@)
                &&& n.id == o.id
                &&& n.login@ == o.login@
                &&& n.last_time_used == o.last_time_used
            },
            final(self).yt_channels == old(self).yt_channels,
            final(self).yt_videos == old(self).yt_videos,
            final(self).events == old(self).events,
            final(self).channel_expire_min == old(self).channel_expire_min,
    {
        let mut i: usize = 0;
        assert(users@.take(0) =~= Seq::<UserInformation>::empty());
        while i < users.len()
            invariant
                i <= users.len(),
                self.wf(),
                self.tw_channels@.len() == old(self).tw_channels@.len(),
                self.yt_channels == old(self).yt_channels,
                self.yt_videos == old(self).yt_videos,
                self.events == old(self).events,
                self.channel_expire_min == old(self).channel_expire_min,
                forall|k: int| 0 <= k < old(self).tw_channels@.len() ==> {
                    let o = old(self).tw_channels@[k];
                    let n = #[trigger] self.tw_channels@[k];
                    &&& user_info_of(n) == user_info_after(user_info_of(o), o.login@, users@.take(i as int))
                    &&& n.id == o.id
                    &&& n.login@ == o.login@
                    &&& n.last_time_used == o.last_time_used
                },
            decreases users.len() - i,
        {
            assert(users@.take(i + 1).drop_last() =~= users@.take(i as int));
            assert(users@.take(i + 1).last() == users@[i as int]);
            let u = &users[i];
            match find_tw_channel(&self.tw_channels, &u.login) {
                Some(k) => {
                    let mut c = copy_tw(&self.tw_channels[k]);
                    c.login = u.login.clone();
                    c.profile_img = u.profile_image_url.clone();
                    c.name = u.display_name.clone();
                    let ghost before = self.tw_channels@;
                    self.tw_channels.set(k, c);
                    assert(tw_logins(self.tw_channels@) =~= tw_logins(before));
                    proof {
                        assert forall|j: int| 0 <= j < old(self).tw_channels@.len() && j != k implies
                            self.tw_channels@[j].login@ != u.login@ by {
                            assert(tw_logins(before)[j] != tw_logins(before)[k as int]);
                        }
                    }
                },
                None => {
                    proof {
                        assert forall|j: int| 0 <= j < old(self).tw_channels@.len() implies
                            self.tw_channels@[j].login@ != u.login@ by {
                            if self.tw_channels@[j].login@ == u.login@ {
                                crate::find::lemma_first_match_some(self.tw_channels@, crate::events::tw_login_pred(u.login@), j);
                            }
                        }
                    }
                },
            }
            i = i + 1;
        }
        assert(users@.take(i as int) =~= users@);
    }
}

impl ServerData {
    /// Marks the platform-A channel `id` as used at the current time.
    pub fn touch_yt_channel_now(&mut self, id: &String)
        requires
            old(self).wf(),
        ensures
            final(self).wf(),
            exists|now: i64| final(self).yt_channels@ == #[trigger] yt_after_touch(old(self).yt_channels@, id@, now),
            final(self).tw_channels == old(self).tw_channels,
            final(self).yt_videos == old(self).yt_videos,
            final(self).events == old(self).events,
            final(self).channel_expire_min == old(self).channel_expire_min,
    {
        let now = crate::clock::now_millis();
        self.touch_yt_channel(id, now);
    }

    /// Marks the platform-B channel `login` as used at the current time.
    pub fn touch_tw_channel_now(&mut self, login: &String)
        requires
            old(self).wf(),
        ensures
            final(self).wf(),
            exists|now: i64| final(self).tw_channels@ == #[trigger] tw_after_touch(old(self).tw_channels@, login@, now),
            final(self).yt_channels == old(self).yt_channels,
            final(self).yt_videos == old(self).yt_videos,
            final(self).events == old(self).events,
            final(self).channel_expire_min == old(self).channel_expire_min,
    {
        let now = crate::clock::now_millis();
        self.touch_tw_channel(login, now);
    }

    /// Drops the channels unused for longer than the expiry window as of
    /// the current time, and the events of channels no longer tracked.
    pub fn expire_channels_now(&mut self)
        requires
            old(self).wf(),
        ensures
            final(self).wf(),
            exists|now: i64| final(self).yt_channels@ == #[trigger] keep(old(self).yt_channels@, yt_live(now, old(self).channel_expire_min))
                && final(self).tw_channels@ == keep(old(self).tw_channels@, tw_live(now, old(self).channel_expire_min)),
            evs(final(self).events@) == keep(evs(old(self).events@), tracked_pred(final(self).yt_channels@, final(self).tw_channels@)),
            final(self).yt_videos == old(self).yt_videos,
            final(self).channel_expire_min == old(self).channel_expire_min,
    {
        let now = crate::clock::now_millis();
        self.expire_channels(now);
    }
}

} // verus!
