use yt_watcher::model::{
    ChannelRecord, ChannelSnippet, ConvertToUpcomingEventError, EventSource, LiveStreamingDetails,
    StreamInformation, Thumbnail, UpcomingEvent, UserInformation, VideoRecord, VideoSnippet,
    YtChannelSave,
};
use yt_watcher::registry::{proposal_for, ServerData};
use yt_watcher::retry::{feed_retry_action, AttemptOutcome, RetryAction};

fn s(t: &str) -> String {
    t.to_string()
}

fn thumbs() -> Vec<(String, Thumbnail)> {
    vec![
        (s("default"), Thumbnail { url: s("t88"), width: 88, height: 88 }),
        (s("medium"), Thumbnail { url: s("t240"), width: 240, height: 240 }),
        (s("high"), Thumbnail { url: s("t800"), width: 800, height: 800 }),
    ]
}

fn channel(id: &str) -> ChannelRecord {
    ChannelRecord {
        id: s(id),
        snippet: Some(ChannelSnippet { title: format!("title {id}"), custom_url: format!("@{id}"), thumbnails: thumbs() }),
        uploads_playlist: Some(format!("UU{id}")),
    }
}

fn video(id: &str, ch: &str, state: &str, scheduled: Option<&str>) -> VideoRecord {
    VideoRecord {
        id: s(id),
        snippet: Some(VideoSnippet {
            channel_id: s(ch),
            title: format!("video {id}"),
            description: s("about it"),
            live_broadcast_content: s(state),
            thumbnails: thumbs(),
        }),
        live_streaming_details: scheduled.map(|t| LiveStreamingDetails { actual_start_time: None, scheduled_start_time: Some(s(t)) }),
    }
}

fn ids(v: &[&str]) -> Vec<String> {
    v.iter().map(|x| x.to_string()).collect()
}

fn pending(sd: &ServerData) -> Vec<String> {
    let mut p = sd.yt_videos.ids.clone();
    p.sort();
    p
}

// 2024-06-01T12:00:00Z
const T: i64 = 1_717_243_200_000;

fn registered_c1() -> ServerData {
    let mut sd = ServerData::new(60);
    let v1 = video("V1", "C1", "none", None);
    let v2 = video("V2", "C1", "upcoming", Some("2024-06-01T12:00:00Z"));
    assert!(sd.track_new_yt_channel(&channel("C1"), &vec![v1, v2], 1_000));
    sd
}

#[test]
fn register_with_upcoming_video_serves_its_event() {
    let sd = registered_c1();
    let evs = sd.query_events(&ids(&["C1"]), &vec![]);
    assert_eq!(evs.len(), 1);
    assert_eq!(evs[0].uid, "V2@yt@yt-watcher");
    assert_eq!(evs[0].start_timestamp_millis, T);
    assert!(!evs[0].ongoing);
    assert_eq!(evs[0].target_url, "https://www.youtube.com/watch?v=V2");
    assert_eq!(evs[0].thumbnail_url.as_deref(), Some("t240"));
    assert_eq!(sd.yt_channels[0].first_video_after_all_stream, "");
    assert_eq!(sd.yt_channels[0].thumbnail, "t240");
    assert_eq!(sd.yt_channels[0].upload_playlist, "UUC1");
    assert_eq!(pending(&sd), ids(&["V2"]));
}

#[test]
fn next_cycle_resolves_finished_stream_and_moves_watermark() {
    let mut sd = registered_c1();
    let feeds = vec![Some(ids(&["V3", "V1", "V2"]))];
    let cand = sd.collect_candidate_ids(&feeds);
    assert_eq!(cand, ids(&["V3", "V1", "V2"]));
    let fetched = vec![
        video("V3", "C1", "none", None),
        video("V1", "C1", "none", None),
        video("V2", "C1", "none", Some("2024-06-01T12:00:00Z")),
    ];
    sd.apply_upcoming_check(&Some(fetched), &None);
    assert!(sd.yt_videos.ids.is_empty());
    assert_eq!(sd.yt_channels[0].first_video_after_all_stream, "V3");
    assert!(sd.query_events(&ids(&["C1"]), &vec![]).is_empty());
    // the feed is now read only up to the watermark
    let cand = sd.collect_candidate_ids(&vec![Some(ids(&["V4", "V3", "V1"]))]);
    assert_eq!(cand, ids(&["V4"]));
}

#[test]
fn watermark_never_passes_a_live_video() {
    let a = vec![video("V1", "C1", "none", None), video("V2", "C1", "live", Some("2024-06-01T12:00:00Z"))];
    assert_eq!(proposal_for(&a, &s("C1")), None);
    let b = vec![video("V2", "C1", "live", Some("2024-06-01T12:00:00Z")), video("V1", "C1", "none", None), video("V0", "C1", "none", None)];
    assert_eq!(proposal_for(&b, &s("C1")), Some(s("V1")));
    let c = vec![video("X1", "C2", "none", None)];
    assert_eq!(proposal_for(&c, &s("C1")), None);
    let d = vec![video("V1", "C1", "none", None), video("V9", "C1", "foo", None)];
    assert_eq!(proposal_for(&d, &s("C1")), Some(s("V1")));
}

#[test]
fn pending_set_is_exactly_the_live_tracked_ids() {
    let mut sd = registered_c1();
    let fetched = vec![
        video("A", "C1", "live", Some("2024-06-01T10:00:00Z")),
        video("B", "C9", "upcoming", Some("2024-06-01T11:00:00Z")),
        video("C", "C1", "none", None),
        video("D", "C1", "upcoming", Some("2024-06-02T11:00:00Z")),
        video("F", "C1", "foo", Some("2024-06-02T11:00:00Z")),
    ];
    sd.apply_upcoming_check(&Some(fetched), &None);
    assert_eq!(pending(&sd), ids(&["A", "D"]));
    // a failed fetch keeps the pending set
    sd.apply_upcoming_check(&None, &None);
    assert_eq!(pending(&sd), ids(&["A", "D"]));
    assert!(sd.events.is_empty());
}

#[test]
fn query_is_sorted_and_unique() {
    let mut sd = ServerData::new(60);
    assert!(sd.track_new_yt_channel(&channel("C1"), &vec![], 0));
    assert!(sd.track_new_yt_channel(&channel("C2"), &vec![], 0));
    let fetched = vec![
        video("L", "C1", "upcoming", Some("2024-06-03T00:00:00Z")),
        video("E", "C2", "upcoming", Some("2024-06-01T00:00:00Z")),
        video("M", "C1", "live", Some("2024-06-02T00:00:00Z")),
        video("E", "C2", "upcoming", Some("2024-06-01T00:00:00Z")),
    ];
    sd.apply_upcoming_check(&Some(fetched), &None);
    let evs = sd.query_events(&ids(&["C1", "C2"]), &vec![]);
    let uids: Vec<&str> = evs.iter().map(|e| e.uid.as_str()).collect();
    assert_eq!(uids, vec!["E@yt@yt-watcher", "M@yt@yt-watcher", "L@yt@yt-watcher"]);
    let only_c1 = sd.query_events(&ids(&["C1"]), &vec![]);
    assert_eq!(only_c1.len(), 2);
    assert!(only_c1[0].start_timestamp_millis <= only_c1[1].start_timestamp_millis);
}

#[test]
fn expired_channels_leave_no_events() {
    let mut sd = registered_c1();
    assert!(sd.track_new_yt_channel(&channel("C2"), &vec![video("W", "C2", "live", Some("2024-06-01T09:00:00Z"))], 50 * 60_000));
    // C1 last used at 1000 ms, C2 at 50 min; expiry window 60 min
    sd.expire_channels(65 * 60_000);
    assert_eq!(sd.yt_channels.len(), 1);
    assert_eq!(sd.yt_channels[0].id, "C2");
    assert!(sd.query_events(&ids(&["C1"]), &vec![]).is_empty());
    assert_eq!(sd.query_events(&ids(&["C2"]), &vec![]).len(), 1);
    assert_eq!(sd.filter_new_yt_channel_id(&ids(&["C1", "C2"])), ids(&["C1"]));
}

#[test]
fn touch_keeps_a_channel_alive() {
    let mut sd = registered_c1();
    sd.touch_yt_channel(&s("C1"), 59 * 60_000);
    sd.touch_yt_channel(&s("nope"), 99);
    assert_eq!(sd.yt_channels[0].last_time_used, 59 * 60_000);
    sd.expire_channels(100 * 60_000);
    assert_eq!(sd.yt_channels.len(), 1);
}

#[test]
fn rate_limited_feed_retries_once_then_skips_channel() {
    assert!(matches!(feed_retry_action(0, &AttemptOutcome::Status(429)), RetryAction::WaitThenRetry(60)));
    assert!(matches!(feed_retry_action(1, &AttemptOutcome::Success), RetryAction::Proceed));
    assert!(matches!(feed_retry_action(1, &AttemptOutcome::Status(429)), RetryAction::Fail));
    assert!(matches!(feed_retry_action(0, &AttemptOutcome::Status(500)), RetryAction::Fail));
    assert!(matches!(feed_retry_action(0, &AttemptOutcome::Transport), RetryAction::Fail));
    let mut sd = ServerData::new(60);
    assert!(sd.track_new_yt_channel(&channel("C1"), &vec![], 0));
    assert!(sd.track_new_yt_channel(&channel("C2"), &vec![], 0));
    // the poll of C1 failed twice; C2 is unaffected
    let cand = sd.collect_candidate_ids(&vec![None, Some(ids(&["B1", "B2"]))]);
    assert_eq!(cand, ids(&["B1", "B2"]));
}

#[test]
fn conversion_errors_name_their_cause() {
    let chans = vec![YtChannelSave {
        custom_url: s("@C1"),
        id: s("C1"),
        title: s("t"),
        thumbnail: s("th"),
        upload_playlist: s("UU"),
        last_time_used: 0,
        first_video_after_all_stream: s(""),
    }];
    let mut v = video("V", "C1", "upcoming", None);
    assert!(matches!(UpcomingEvent::from_video(&v, &chans), Err(ConvertToUpcomingEventError::MissingInformation(m)) if m == "liveStreamingDetails"));
    v.live_streaming_details = Some(LiveStreamingDetails { actual_start_time: None, scheduled_start_time: None });
    assert!(matches!(UpcomingEvent::from_video(&v, &chans), Err(ConvertToUpcomingEventError::MissingInformation(m)) if m == "start time"));
    v.live_streaming_details = Some(LiveStreamingDetails { actual_start_time: Some(s("yesterday")), scheduled_start_time: None });
    assert!(matches!(UpcomingEvent::from_video(&v, &chans), Err(ConvertToUpcomingEventError::DecodeError(m)) if m == "yesterday"));
    let good = Some(LiveStreamingDetails { actual_start_time: Some(s("2024-06-01T12:00:00Z")), scheduled_start_time: Some(s("2024-06-02T12:00:00Z")) });
    v.live_streaming_details = good;
    let e = UpcomingEvent::from_video(&v, &chans).ok().unwrap();
    assert_eq!(e.start_timestamp_millis, T);
    assert!(matches!(&e.source, EventSource::YoutubeChannel(c) if c.id == "C1" && c.thumbnail_url == "th"));
    let mut w = video("W", "C1", "none", Some("2024-06-01T12:00:00Z"));
    assert!(matches!(UpcomingEvent::from_video(&w, &chans), Err(ConvertToUpcomingEventError::AlreadyDone(m)) if m == "W"));
    w.snippet.as_mut().unwrap().live_broadcast_content = s("odd");
    assert!(matches!(UpcomingEvent::from_video(&w, &chans), Err(ConvertToUpcomingEventError::Unknown(m)) if m == "W"));
    w.snippet.as_mut().unwrap().live_broadcast_content = s("live");
    w.snippet.as_mut().unwrap().thumbnails = vec![];
    assert!(matches!(UpcomingEvent::from_video(&w, &chans), Err(ConvertToUpcomingEventError::MissingInformation(m)) if m == "Default thumbnail"));
    let x = video("X", "C7", "live", Some("2024-06-01T12:00:00Z"));
    assert!(matches!(UpcomingEvent::from_video(&x, &chans), Err(ConvertToUpcomingEventError::EventSourceNotFound(m)) if m == "C7"));
    let mut y = video("Y", "C1", "live", Some("2024-06-01T12:00:00Z"));
    y.snippet = None;
    assert!(matches!(UpcomingEvent::from_video(&y, &chans), Err(ConvertToUpcomingEventError::MissingInformation(m)) if m == "snippet"));
}

fn stream(login: &str) -> StreamInformation {
    StreamInformation {
        id: s("S"),
        user_id: format!("id-{login}"),
        user_login: s(login),
        user_name: format!("Name {login}"),
        game_name: s("Chess"),
        title: s("playing"),
        started_at_millis: 42,
        thumbnail_url: s("https://img/{width}x{height}.jpg"),
    }
}

fn user(login: &str, img: &str) -> UserInformation {
    UserInformation { id: format!("id-{login}"), login: s(login), display_name: format!("Name {login}"), profile_image_url: s(img) }
}

#[test]
fn platform_b_streams_merge_by_uid() {
    let mut sd = ServerData::new(60);
    sd.track_new_tw_channels(&vec![user("alice", "img1")], &Some(vec![stream("alice"), stream("bob")]), 5);
    assert_eq!(sd.tw_channels.len(), 1);
    assert_eq!(sd.events.len(), 1);
    let e = &sd.events[0];
    assert_eq!(e.uid, "alice@twitch@yt-watcher");
    assert_eq!(e.target_url, "https://www.twitch.tv/alice");
    assert_eq!(e.thumbnail_url.as_deref(), Some("https://img/320x180.jpg"));
    assert!(e.ongoing);
    assert!(matches!(&e.source, EventSource::TwitchChannel(c) if c.thumbnail_url == "img1" && c.login == "alice"));
    let mut again = stream("alice");
    again.title = s("still playing");
    sd.merge_tw_streams(&vec![again]);
    assert_eq!(sd.events.len(), 1);
    assert_eq!(sd.events[0].title, "still playing");
    assert_eq!(sd.query_events(&vec![], &ids(&["alice"])).len(), 1);
    sd.track_new_tw_channels(&vec![user("alice", "img4"), user("dave", "img5"), user("alice", "img6")], &None, 9);
    assert_eq!(sd.tw_channels.len(), 2);
    assert_eq!(sd.tw_channels[0].profile_img, "img6");
    assert_eq!(sd.tw_channels[0].last_time_used, 9);
    assert_eq!(sd.tw_channels[1].login, "dave");
    sd.update_tw_user_info(&vec![user("alice", "img2"), user("carol", "img3")]);
    assert_eq!(sd.tw_channels[0].profile_img, "img2");
    assert_eq!(sd.filter_new_tw_channel_login(&ids(&["alice", "carol", "dave"])), ids(&["carol"]));
    sd.touch_tw_channel(&s("alice"), 77);
    assert_eq!(sd.tw_channels[0].last_time_used, 77);
}

#[test]
fn channel_metadata_refresh_updates_tracked_only() {
    let mut sd = registered_c1();
    let mut rec = channel("C1");
    rec.snippet.as_mut().unwrap().title = s("renamed");
    rec.snippet.as_mut().unwrap().thumbnails = vec![(s("medium"), Thumbnail { url: s("m2"), width: 1, height: 1 })];
    let mut broken = channel("C1");
    broken.uploads_playlist = None;
    sd.update_yt_channel_info(&vec![rec, channel("C5"), broken]);
    assert_eq!(sd.yt_channels.len(), 1);
    assert_eq!(sd.yt_channels[0].title, "renamed");
    assert_eq!(sd.yt_channels[0].thumbnail, "m2");
    let mut no_snippet = channel("C3");
    no_snippet.snippet = None;
    assert!(!sd.track_new_yt_channel(&no_snippet, &vec![], 0));
    assert_eq!(sd.yt_channels.len(), 1);
}

#[test]
fn clock_driven_touch_and_expiry() {
    let mut sd = registered_c1();
    sd.touch_yt_channel_now(&s("C1"));
    assert!(sd.yt_channels[0].last_time_used > 1_600_000_000_000);
    sd.expire_channels_now();
    assert_eq!(sd.yt_channels.len(), 1);
    // last used at 1000 ms after the epoch: long past the window
    let mut stale = registered_c1();
    stale.track_new_tw_channels(&vec![user("alice", "img1")], &None, 0);
    stale.touch_tw_channel_now(&s("alice"));
    assert!(stale.tw_channels[0].last_time_used > 1_600_000_000_000);
    stale.expire_channels_now();
    assert!(stale.yt_channels.is_empty());
    assert!(stale.events.is_empty());
    assert_eq!(stale.tw_channels.len(), 1);
}
