use yt_watcher::platform_b::{accumulate_page, stream_query_params, user_query_params, PagedResponse, TwApiClient, UserIdentity};
use yt_watcher::ident_cache::IdentifierCache;
use yt_watcher::parts::{GetChannelParts, GetPlaylistItemParts, GetVideoParts};
use yt_watcher::patterns::{
    extract_channel_id, fallback_channel_id, feed_video_ids, handle_page_url, pick_channel_id,
    reference_name_of, tw_login_of, validate_custom_url, validate_user_login,
};
use yt_watcher::model::YtApiError;
use yt_watcher::pending::YtVideosSave;
use yt_watcher::quota::QuotaCounter;
use yt_watcher::registry::playlist_video_ids;
use yt_watcher::model::PlaylistItemRecord;
use yt_watcher::retry::{auth_retry_action, batch_bounds, AttemptOutcome, RetryAction};
use yt_watcher::text::{decimal_text, process_thumbnail_url, replace_text};

fn s(t: &str) -> String {
    t.to_string()
}

#[test]
fn parts_render_selected_names_in_order() {
    let p = GetChannelParts::default().snippet().content_details().id();
    assert_eq!(p.build(), "contentDetails,id,snippet");
    assert!(!p.is_none());
    assert!(GetChannelParts::default().is_none());
    assert_eq!(GetChannelParts::default().build(), "");
    assert_eq!(GetChannelParts::default().content_owner_details().build(), "contentOwnerDetails");
    let v = GetVideoParts::default().live_streaming_details().snippet();
    assert_eq!(v.build(), "liveStreamingDetails,snippet");
    let all = GetVideoParts::default()
        .content_details().file_details().id().live_streaming_details().localizations().player()
        .processing_details().recording_details().snippet().statistics().status().suggestions().topic_details();
    assert_eq!(all.build(), "contentDetails,fileDetails,id,liveStreamingDetails,localizations,player,processingDetails,recordingDetails,snippet,statistics,status,suggestions,topicDetails");
    let pl = GetPlaylistItemParts::default().status().content_details();
    assert_eq!(pl.build(), "contentDetails,status");
    assert!(GetPlaylistItemParts::default().is_none());
}

#[test]
fn cache_resolves_twice_with_one_scrape() {
    let mut c = IdentifierCache::new(4);
    assert_eq!(c.lookup(&s("https://www.youtube.com/@a")), None);
    c.record(s("https://www.youtube.com/@a"), s("UCa"));
    assert_eq!(c.lookup(&s("https://www.youtube.com/@a")), Some(s("UCa")));
    assert_eq!(c.lookup(&s("https://www.youtube.com/@a")), Some(s("UCa")));
}

#[test]
fn full_cache_evicts_least_recently_used() {
    let mut c = IdentifierCache::new(2);
    c.record(s("a"), s("1"));
    c.record(s("b"), s("2"));
    assert_eq!(c.lookup(&s("c")), None);
    c.record(s("c"), s("3"));
    assert_eq!(c.lookup(&s("a")), None);
    // a lookup refreshes recency: b is now used after c was stored
    assert_eq!(c.lookup(&s("b")), Some(s("2")));
    c.record(s("d"), s("4"));
    assert_eq!(c.lookup(&s("c")), None);
    assert_eq!(c.lookup(&s("b")), Some(s("2")));
}

#[test]
fn cache_snapshot_round_trips() {
    let mut c = IdentifierCache::new(3);
    c.record(s("a"), s("1"));
    c.record(s("b"), s("2"));
    c.record(s("c"), s("3"));
    assert_eq!(c.lookup(&s("a")), Some(s("1")));
    let text = c.snapshot();
    assert_eq!(text, "b 2\nc 3\na 1\n");
    let mut r = IdentifierCache::restore(&text, 3);
    assert_eq!(r.snapshot(), text);
    assert_eq!(r.lookup(&s("b")), Some(s("2")));
    let mut e = IdentifierCache::new(2);
    e.record(s(""), s("only-id"));
    let mut back = IdentifierCache::restore(&e.snapshot(), 2);
    assert_eq!(back.lookup(&s("")), Some(s("only-id")));
    let mut w = IdentifierCache::restore("x 9 extra\r\n\n   \nnospace\ny 8", 5);
    assert_eq!(w.lookup(&s("x")), Some(s("9")));
    assert_eq!(w.lookup(&s("y")), Some(s("8")));
    assert_eq!(w.lookup(&s("nospace")), None);
}

#[test]
fn page_scrape_prefers_canonical_link() {
    let page = r#"<meta itemprop="identifier" content="UC-third"><link rel="canonical" href="https://www.youtube.com/channel/UC-first">"#;
    assert_eq!(extract_channel_id(page), Some(s("UC-first")));
    let only_rss = r#"<link rel="alternate" type="application/rss+xml" title="RSS" href="https://www.youtube.com/feeds/videos.xml?channel_id=UC-rss">"#;
    assert_eq!(extract_channel_id(only_rss), Some(s("UC-rss")));
    assert_eq!(extract_channel_id("<html></html>"), None);
    let mut c = IdentifierCache::new(2);
    assert!(matches!(c.record_from_page(s("u"), "<html/>"), Err(YtApiError::NotFound)));
    assert!(matches!(c.record_from_page(s("u"), page), Ok(id) if id == "UC-first"));
    assert_eq!(c.lookup(&s("u")), Some(s("UC-first")));
}

#[test]
fn references_normalise() {
    assert_eq!(handle_page_url("https://www.youtube.com/@GawrGura"), "https://www.youtube.com/@GawrGura");
    assert_eq!(handle_page_url("@GawrGura"), "https://www.youtube.com/@GawrGura");
    assert_eq!(handle_page_url("GawrGura"), "https://www.youtube.com/@GawrGura");
    assert_eq!(fallback_channel_id("https://www.youtube.com/channel/UCoSrY"), "UCoSrY");
    assert_eq!(fallback_channel_id("UCoSrY"), "UCoSrY");
    assert_eq!(pick_channel_id(&Err(YtApiError::NotFound), "https://youtube.com/channel/UCx"), "UCx");
    assert_eq!(pick_channel_id(&Ok(s("UCy")), "whatever"), "UCy");
    assert_eq!(reference_name_of("https://www.youtube.com/@name/featured"), "name");
    assert_eq!(tw_login_of("https://www.twitch.tv/alice"), "alice");
    assert!(validate_custom_url("Gawr.Gura-1"));
    assert!(!validate_custom_url("bad name"));
    assert!(validate_user_login("alice_1"));
    assert!(!validate_user_login("alice-1"));
    assert!(!validate_user_login(""));
}

#[test]
fn feed_lists_video_ids_in_order() {
    let body = "<entry><yt:videoId>A1</yt:videoId></entry><entry><yt:videoId>B2</yt:videoId></entry>";
    assert_eq!(feed_video_ids(body), vec![s("A1"), s("B2")]);
    assert!(feed_video_ids("<feed/>").is_empty());
    let items = vec![
        PlaylistItemRecord { id: s("i1"), video_id: Some(s("v1")) },
        PlaylistItemRecord { id: s("i2"), video_id: None },
        PlaylistItemRecord { id: s("i3"), video_id: Some(s("v3")) },
    ];
    assert_eq!(playlist_video_ids(&items), vec![s("v1"), s("v3")]);
}

#[test]
fn quota_resets_at_day_boundary() {
    let mut q = QuotaCounter::new(5);
    assert_eq!(q.charge_on(5), 1);
    assert_eq!(q.charge_on(5), 2);
    assert_eq!(q.charge_on(5), 3);
    assert_eq!(q.charge_on(6), 1);
    // the same day of the next month is another day
    let mut m = QuotaCounter::new(738_000);
    assert_eq!(m.charge_on(738_000), 1);
    assert_eq!(m.charge_on(738_031), 1);
    assert_eq!(q.day, 6);
    let mut full = QuotaCounter { day: 1, count: u32::MAX };
    assert_eq!(full.charge_on(1), u32::MAX);
    let now = q.charge();
    assert!(now >= 1);
}

#[test]
fn unauthorised_call_reauthenticates_once() {
    assert!(matches!(auth_retry_action(0, &AttemptOutcome::Status(401)), RetryAction::ReauthenticateThenRetry));
    assert!(matches!(auth_retry_action(1, &AttemptOutcome::Status(401)), RetryAction::Fail));
    assert!(matches!(auth_retry_action(0, &AttemptOutcome::Success), RetryAction::Proceed));
}

#[test]
fn batches_cover_the_input() {
    assert!(batch_bounds(0, 50).is_empty());
    assert_eq!(batch_bounds(120, 50), vec![(0, 50), (50, 100), (100, 120)]);
    assert_eq!(batch_bounds(100, 100), vec![(0, 100)]);
    assert_eq!(batch_bounds(1, 100), vec![(0, 1)]);
}

#[test]
fn text_helpers() {
    assert_eq!(process_thumbnail_url("https://x/{width}x{height}-{width}.jpg", 320, 180), "https://x/320x180-320.jpg");
    assert_eq!(process_thumbnail_url("plain", 1, 2), "plain");
    assert_eq!(decimal_text(0), "0");
    assert_eq!(decimal_text(1234567), "1234567");
    assert_eq!(replace_text("aaa", "aa", "b"), "ba");
    assert_eq!(replace_text("ab", "", "-"), "-a-b-");
    assert_eq!(replace_text("", "", "-"), "-");
}

#[test]
fn pending_snapshot_text() {
    let mut p = YtVideosSave::new();
    p.push_checked(s("A"));
    p.push_checked(s("B"));
    p.push_checked(s("A"));
    assert_eq!(p.to_string(), "A\nB");
    let mut q = YtVideosSave::new();
    q.extend_from_str("B\n\n  \nC\r\n");
    assert_eq!(q.ids, vec![s("B"), s("C\r")]);
    let mut target = vec![s("C")];
    p.dump(&mut target);
    assert_eq!(target, vec![s("C"), s("A"), s("B")]);
    p.set(vec![s("Z")]);
    assert_eq!(p.to_string(), "Z");
}

#[test]
fn platform_b_request_parameters() {
    let ids = vec![UserIdentity::Login(s("alice")), UserIdentity::Id(s("42"))];
    assert_eq!(stream_query_params(&ids), vec![("user_login", s("alice")), ("user_id", s("42"))]);
    assert_eq!(user_query_params(&ids), vec![("login", s("alice")), ("id", s("42"))]);
    let mut c = TwApiClient::new(s("cid"), s("secret"), s("tok1"));
    assert_eq!(c.authorization(), "Bearer tok1");
    c.replace_access_token(s("tok2"));
    assert_eq!(c.authorization(), "Bearer tok2");
    let mut all = vec![1, 2];
    let next = accumulate_page(&mut all, PagedResponse { next_page_token: Some(s("page-2")), prev_page_token: None, value: vec![3] });
    assert_eq!(next, Some(s("page-2")));
    assert_eq!(all, vec![1, 2, 3]);
}

#[test]
fn sync_keys_hold_channel_lists() {
    let mut k = yt_watcher::sync::SyncKeys::new();
    assert!(k.add_key(7, 0));
    assert!(!k.add_key(7, 5));
    assert_eq!(k.saves.len(), 1);
    assert!(k.set_yt_channels(7, &vec![s("a"), s(""), s("a"), s("b")], 10).is_ok());
    assert!(k.set_tw_channels(8, &vec![s("x")], 10).is_err());
    assert_eq!(k.get_yt_channel(7, 20), Some(vec![s("a"), s("b")]));
    assert_eq!(k.get_tw_channel(7, 20), Some(vec![]));
    assert_eq!(k.get_yt_channel(9, 20), None);
    k.trim(20 + 2_592_000_000);
    assert_eq!(k.saves.len(), 1);
    k.trim(21 + 2_592_000_000);
    assert!(k.saves.is_empty());
}

#[test]
fn cached_reference_survives_other_traffic() {
    let mut c = IdentifierCache::new(3);
    c.record(s("k"), s("id-k"));
    c.record(s("x"), s("1"));
    assert_eq!(c.lookup(&s("y")), None);
    c.record(s("x"), s("2"));
    assert_eq!(c.lookup(&s("x")), Some(s("2")));
    c.record(s("y"), s("3"));
    assert_eq!(c.lookup(&s("k")), Some(s("id-k")));
}

#[test]
fn refresh_schedule() {
    assert_eq!(yt_watcher::schedule::refresh_wait_secs(12, 30, 5, 60), 210);
    assert_eq!(yt_watcher::schedule::refresh_wait_secs(14, 59, 5, 0), 1);
    assert_eq!(yt_watcher::schedule::refresh_wait_secs(0, 0, 1, 60), 60);
    assert_eq!(yt_watcher::schedule::refresh_wait_secs(0, 0, 90, 60), 5400);
    assert!(yt_watcher::schedule::use_heavy_path(30, 0, 2, 5));
    assert!(yt_watcher::schedule::use_heavy_path(31, 10, 2, 5));
    assert!(!yt_watcher::schedule::use_heavy_path(40, 0, 2, 5));
    assert!(!yt_watcher::schedule::use_heavy_path(0, 0, 0, 5));
    assert!(yt_watcher::schedule::refresh_wait_now(5, 60) < 300);
    let _ = yt_watcher::schedule::use_heavy_path_now(2, 5);
}
