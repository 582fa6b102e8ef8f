//! The event snapshot: insertion by uid, and the events of a refresh cycle.

use crate::find::{first_match, is_first_match, lemma_first_match_at, lemma_first_match_none};
use crate::model::{
    convert_spec, stream_event_spec, EventSource, EventView, StreamInformation, TwChannelBrief,
    TwChannelSave, UpcomingEvent, VideoRecord, YtChannelBrief, YtChannelSave,
};
use vstd::prelude::*;

verus! {

/// The views of a list of events.
pub open spec fn evs(s: Seq<UpcomingEvent>) -> Seq<EventView> {
    s.map_values(|e: UpcomingEvent| e@)
}

/// No uid occurs twice.
pub open spec fn distinct_uids(s: Seq<EventView>) -> bool {
    forall|i: int, j: int| 0 <= i < j < s.len() ==> s[i].uid != s[j].uid
}

pub open spec fn uid_pred(uid: Seq<char>) -> spec_fn(EventView) -> bool {
    |e: EventView| e.uid == uid
}

/// `s` with the event of the same uid, if any, taken out and `e` appended.
pub open spec fn upsert(s: Seq<EventView>, e: EventView) -> Seq<EventView> {
    match first_match(s, uid_pred(e.uid)) {
        Some(p) => s.remove(p).push(e),
        None => s.push(e),
    }
}

/// `base` with each event of `more` inserted by uid, in order.
pub open spec fn upsert_all(base: Seq<EventView>, more: Seq<EventView>) -> Seq<EventView>
    decreases more.len(),
{
    if more.len() == 0 {
        base
    } else {
        upsert(upsert_all(base, more.drop_last()), more.last())
    }
}

pub proof fn lemma_upsert(s: Seq<EventView>, e: EventView)
    requires
        distinct_uids(s),
    ensures
        distinct_uids(upsert(s, e)),
        upsert(s, e).contains(e),
        forall|x: EventView| upsert(s, e).contains(x) <==> (x == e || (s.contains(x) && x.uid != e.uid)),
{
    let u = upsert(s, e);
    match first_match(s, uid_pred(e.uid)) {
        Some(p) => {
            assert(is_first_match(s, uid_pred(e.uid), p)) by {
                assert(exists|i: int| is_first_match(s, uid_pred(e.uid), i));
            }
            let r = s.remove(p);
            assert forall|i: int, j: int| 0 <= i < j < u.len() implies u[i].uid != u[j].uid by {
                if j == r.len() {
                    let k = if i < p { i } else { i + 1 };
                    assert(r[i] == s[k]);
                    assert(s[k].uid != s[p].uid);
                } else {
                    let ki = if i < p { i } else { i + 1 };
                    let kj = if j < p { j } else { j + 1 };
                    assert(r[i] == s[ki] && r[j] == s[kj]);
                }
            }
            assert(u[r.len() as int] == e);
            assert forall|x: EventView| u.contains(x) <==> (x == e || (s.contains(x) && x.uid != e.uid)) by {
                if u.contains(x) && x != e {
                    let i = choose|i: int| 0 <= i < u.len() && u[i] == x;
                    let k = if i < p { i } else { i + 1 };
                    assert(r[i] == s[k]);
                    assert(s[k].uid != s[p].uid);
                }
                if s.contains(x) && x.uid != e.uid {
                    let k = choose|k: int| 0 <= k < s.len() && s[k] == x;
                    assert(k != p);
                    let i = if k < p { k } else { k - 1 };
                    assert(r[i] == s[k]);
                    assert(u[i] == x);
                }
            }
        },
        None => {
            assert forall|i: int| 0 <= i < s.len() implies s[i].uid != e.uid by {
                if s[i].uid == e.uid {
                    crate::find::lemma_first_match_some(s, uid_pred(e.uid), i);
                }
            }
            assert forall|i: int, j: int| 0 <= i < j < u.len() implies u[i].uid != u[j].uid by {
                if j == s.len() {
                    assert(u[i] == s[i]);
                }
            }
            assert(u[s.len() as int] == e);
            assert forall|x: EventView| u.contains(x) <==> (x == e || (s.contains(x) && x.uid != e.uid)) by {
                if u.contains(x) && x != e {
                    let i = choose|i: int| 0 <= i < u.len() && u[i] == x;
                    assert(s[i] == x);
                }
                if s.contains(x) {
                    let k = choose|k: int| 0 <= k < s.len() && s[k] == x;
                    assert(u[k] == x);
                }
            }
        },
    }
}

pub proof fn lemma_upsert_all(base: Seq<EventView>, more: Seq<EventView>)
    requires
        distinct_uids(base),
    ensures
        distinct_uids(upsert_all(base, more)),
    decreases more.len(),
{
    if more.len() > 0 {
        lemma_upsert_all(base, more.drop_last());
        lemma_upsert(upsert_all(base, more.drop_last()), more.last());
    }
}

/// Some event of `s` has uid `u`.
pub open spec fn has_uid(s: Seq<EventView>, u: Seq<char>) -> bool {
    exists|i: int| 0 <= i < s.len() && (#[trigger] s[i]).uid == u
}

/// Merging events by uid: the merged snapshot has distinct uids, its uids
/// are those of the old snapshot and of the new events, and each new event
/// not followed by another with its uid is in it as given.
pub proof fn lemma_upsert_all_uids(base: Seq<EventView>, more: Seq<EventView>)
    requires
        distinct_uids(base),
    ensures
        distinct_uids(upsert_all(base, more)),
        forall|u: Seq<char>| has_uid(upsert_all(base, more), u) <==> (has_uid(base, u) || has_uid(more, u)),
        forall|i: int| 0 <= i < more.len() && (forall|j: int| i < j < more.len() ==> more[j].uid != more[i].uid)
            ==> upsert_all(base, more).contains(#[trigger] more[i]),
    decreases more.len(),
{
    lemma_upsert_all(base, more);
    if more.len() > 0 {
        let dl = more.drop_last();
        let e = more.last();
        let prev = upsert_all(base, dl);
        lemma_upsert_all_uids(base, dl);
        lemma_upsert(prev, e);
        let now = upsert_all(base, more);
        assert(now == upsert(prev, e));
        assert forall|u: Seq<char>| has_uid(now, u) <==> (has_uid(base, u) || has_uid(more, u)) by {
            if has_uid(now, u) {
                let i = choose|i: int| 0 <= i < now.len() && now[i].uid == u;
                assert(now.contains(now[i]));
                if now[i] != e {
                    assert(prev.contains(now[i]));
                    let k = choose|k: int| 0 <= k < prev.len() && prev[k] == now[i];
                    assert(prev[k].uid == u);
                    assert(has_uid(prev, u));
                } else {
                    assert(more[more.len() - 1].uid == u);
                }
            }
            if has_uid(more, u) {
                let i = choose|i: int| 0 <= i < more.len() && more[i].uid == u;
                if i == more.len() - 1 || u == e.uid {
                    assert(now.contains(e));
                    let k = choose|k: int| 0 <= k < now.len() && now[k] == e;
                    assert(now[k].uid == u);
                } else {
                    assert(dl[i].uid == u);
                    assert(has_uid(dl, u));
                    assert(has_uid(prev, u));
                }
            }
            if has_uid(base, u) && u != e.uid {
                assert(has_uid(prev, u));
            }
            if has_uid(prev, u) && u != e.uid {
                let k = choose|k: int| 0 <= k < prev.len() && prev[k].uid == u;
                assert(prev.contains(prev[k]));
                assert(now.contains(prev[k]));
                let q = choose|q: int| 0 <= q < now.len() && now[q] == prev[k];
                assert(now[q].uid == u);
            }
            if u == e.uid {
                assert(now.contains(e));
                let k = choose|k: int| 0 <= k < now.len() && now[k] == e;
                assert(now[k].uid == u);
            }
        }
        assert forall|i: int| 0 <= i < more.len() && (forall|j: int| i < j < more.len() ==> more[j].uid != more[i].uid)
            implies now.contains(#[trigger] more[i]) by {
            if i < more.len() - 1 {
                assert(dl[i] == more[i]);
                assert forall|j: int| i < j < dl.len() implies dl[j].uid != dl[i].uid by {
                    assert(dl[j] == more[j]);
                }
                assert(prev.contains(dl[i]));
                assert(more[more.len() - 1].uid != more[i].uid);
            }
        }
    }
}

/// A copy of an optional string.
pub fn copy_opt_text(s: &Option<String>) -> (r: Option<String>)
    ensures
        crate::model::opt_text(r) == crate::model::opt_text(*s),
{
    match s {
        Some(t) => Some(t.clone()),
        None => None,
    }
}

impl UpcomingEvent {
    /// A copy of this event.
    pub fn copy(&self) -> (r: UpcomingEvent)
        ensures
            r@ == self@,
    {
        let source = match &self.source {
            EventSource::YoutubeChannel(c) => EventSource::YoutubeChannel(YtChannelBrief {
                id: c.id.clone(),
                thumbnail_url: c.thumbnail_url.clone(),
                title: c.title.clone(),
                custom_url: c.custom_url.clone(),
            }),
            EventSource::TwitchChannel(c) => EventSource::TwitchChannel(TwChannelBrief {
                id: c.id.clone(),
                thumbnail_url: c.thumbnail_url.clone(),
                title: c.title.clone(),
                login: c.login.clone(),
            }),
        };
        UpcomingEvent {
            start_timestamp_millis: self.start_timestamp_millis,
            thumbnail_url: copy_opt_text(&self.thumbnail_url),
            title: self.title.clone(),
            description: self.description.clone(),
            target_url: self.target_url.clone(),
            ongoing: self.ongoing,
            source,
            uid: self.uid.clone(),
        }
    }
}

/// The position of the event with this uid.
pub fn find_event(events: &Vec<UpcomingEvent>, uid: &String) -> (r: Option<usize>)
    ensures
        match r {
            Some(i) => first_match(evs(events@), uid_pred(uid@)) == Some(i as int),
            None => first_match(evs(events@), uid_pred(uid@)) is None,
        },
{
    let mut i: usize = 0;
    while i < events.len()
        invariant
            i <= events.len(),
            forall|j: int| 0 <= j < i ==> !(uid_pred(uid@))(#[trigger] evs(events@)[j]),
        decreases events.len() - i,
    {
        if events[i].uid.eq(uid) {
            proof {
                assert(is_first_match(evs(events@), uid_pred(uid@), i as int));
                lemma_first_match_at(evs(events@), uid_pred(uid@), i as int);
            }
            return Some(i);
        }
        i = i + 1;
    }
    proof {
        lemma_first_match_none(evs(events@), uid_pred(uid@));
    }
    None
}

/// Inserts `e`, replacing the event with the same uid.
pub fn upsert_event(events: &mut Vec<UpcomingEvent>, e: UpcomingEvent)
    ensures
        evs(final(events)@) == upsert(evs(old(events)@), e@),
{
    match find_event(events, &e.uid) {
        Some(p) => {
            events.remove(p);
            assert(evs(events@) =~= evs(old(events)@).remove(p as int));
        },
        None => {},
    }
    events.push(e);
    assert(evs(final(events)@) =~= upsert(evs(old(events)@), e@));
}

/// The events that the videos of a fetch become, in order.
pub open spec fn video_events(vs: Seq<VideoRecord>, chans: Seq<YtChannelSave>) -> Seq<EventView>
    decreases vs.len(),
{
    if vs.len() == 0 {
        Seq::empty()
    } else {
        match convert_spec(vs.last(), chans) {
            Ok(e) => video_events(vs.drop_last(), chans).push(e),
            Err(_) => video_events(vs.drop_last(), chans),
        }
    }
}

pub open spec fn tw_login_pred(login: Seq<char>) -> spec_fn(TwChannelSave) -> bool {
    |c: TwChannelSave| c.login@ == login
}

/// The position of the tracked platform-B channel with this login.
pub open spec fn tw_channel_pos(tws: Seq<TwChannelSave>, login: Seq<char>) -> Option<int> {
    first_match(tws, tw_login_pred(login))
}

/// The events of the live streams of tracked platform-B channels, in order.
pub open spec fn stream_events(ss: Seq<StreamInformation>, tws: Seq<TwChannelSave>) -> Seq<EventView>
    decreases ss.len(),
{
    if ss.len() == 0 {
        Seq::empty()
    } else {
        match tw_channel_pos(tws, ss.last().user_login@) {
            Some(k) => stream_events(ss.drop_last(), tws).push(
                stream_event_spec(ss.last(), tws[k].profile_img@),
            ),
            None => stream_events(ss.drop_last(), tws),
        }
    }
}

/// The position of the tracked platform-B channel with this login.
pub fn find_tw_channel(tws: &Vec<TwChannelSave>, login: &String) -> (r: Option<usize>)
    ensures
        match r {
            Some(i) => tw_channel_pos(tws@, login@) == Some(i as int),
            None => tw_channel_pos(tws@, login@) is None,
        },
{
    let mut i: usize = 0;
    while i < tws.len()
        invariant
            i <= tws.len(),
            forall|j: int| 0 <= j < i ==> !(tw_login_pred(login@))(#[trigger] tws@[j]),
        decreases tws.len() - i,
    {
        if tws[i].login.eq(login) {
            proof {
                assert(is_first_match(tws@, tw_login_pred(login@), i as int));
                lemma_first_match_at(tws@, tw_login_pred(login@), i as int);
            }
            return Some(i);
        }
        i = i + 1;
    }
    proof {
        lemma_first_match_none(tws@, tw_login_pred(login@));
    }
    None
}

/// Inserts by uid the event of each live stream of a tracked platform-B channel.
pub fn upsert_stream_events(events: &mut Vec<UpcomingEvent>, streams: &Vec<StreamInformation>, tws: &Vec<TwChannelSave>)
    ensures
        evs(final(events)@) == upsert_all(evs(old(events)@), stream_events(streams@, tws@)),
{
    let mut i: usize = 0;
    assert(streams@.take(0) =~= Seq::<StreamInformation>::empty());
    while i < streams.len()
        invariant
            i <= streams.len(),
            evs(events@) == upsert_all(evs(old(events)@), stream_events(streams@.take(i as int), tws@)),
        decreases streams.len() - i,
    {
        assert(streams@.take(i + 1).drop_last() =~= streams@.take(i as int));
        let s = &streams[i];
        match find_tw_channel(tws, &s.user_login) {
            Some(k) => {
                let e = UpcomingEvent::from_stream(s, &tws[k].profile_img);
                proof {
                    let se = stream_events(streams@.take(i as int), tws@);
                    assert(se.push(e@).drop_last() =~= se);
                }
                upsert_event(events, e);
            },
            None => {},
        }
        i = i + 1;
    }
    assert(streams@.take(streams.len() as int) =~= streams@);
}

} // verus!
