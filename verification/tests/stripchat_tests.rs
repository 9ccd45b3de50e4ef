use recorder_core::error::AppError;
use recorder_core::stripchat::{
    api_status_error, api_url, auto_playlist_failure, auto_playlist_url, broadcasts_url,
    cam_url, cdn_candidate_url, cdn_failure, cdn_source_tld, cdn_tld, extract_node_id,
    group_show_page_url, group_show_step, missing_stream_name, model_id_of, needs_group_show_type,
    normalize_mirror, preferred_tld_changes, referer, referer_for, snapshot_timestamp_of,
    status_label_of, stream_info_from_cam, thumbnail_url_of, uses_proxy, wants_playlist,
    CamSnapshot, GroupShowStep, CDN_TLD_COUNT,
};

fn cam() -> CamSnapshot {
    CamSnapshot {
        is_live: Some(true),
        viewers_count: Some(42),
        status: Some("public".to_string()),
        snapshot_timestamp: Some(1700000000),
        snapshot_timestamp_text: None,
        stream_name: Some("12345".to_string()),
        preview_url: Some("https://preview/x.jpg".to_string()),
        model_id: Some(12345),
    }
}

#[test]
fn mirror_is_kept_only_when_not_empty() {
    assert_eq!(normalize_mirror(Some("mirror.example")), Some("mirror.example".to_string()));
    assert_eq!(normalize_mirror(Some("")), None);
    assert_eq!(normalize_mirror(None), None);
}

#[test]
fn proxy_is_used_only_when_set_and_not_empty() {
    assert!(uses_proxy(Some("http://127.0.0.1:7890")));
    assert!(!uses_proxy(Some("")));
    assert!(!uses_proxy(None));
}

#[test]
fn api_url_replaces_the_site_domain() {
    let m = Some("mirror.example".to_string());
    assert_eq!(
        api_url(&m, "https://stripchat.com/api/front/v1/broadcasts/alice"),
        "https://mirror.example/api/front/v1/broadcasts/alice"
    );
    assert_eq!(api_url(&None, "https://stripchat.com/x"), "https://stripchat.com/x");
}

#[test]
fn referer_follows_the_mirror() {
    assert_eq!(referer(&None), "https://stripchat.com/");
    assert_eq!(referer(&Some("sc.mirror".to_string())), "https://sc.mirror/");
    assert_eq!(referer_for(&None, "alice"), "https://stripchat.com/alice");
}

#[test]
fn endpoint_urls() {
    assert_eq!(
        broadcasts_url(&None, "alice"),
        "https://stripchat.com/api/front/v1/broadcasts/alice"
    );
    assert_eq!(
        cam_url(&Some("m.example".to_string()), "777"),
        "https://m.example/api/front/v2/models/777/cam"
    );
    assert_eq!(
        group_show_page_url(&None, 120),
        "https://stripchat.com/api/front/models?removeShows=false&recInFeatured=false&limit=60&offset=120&primaryTag=girls&filterGroupTags=[[\"groupShow\"]]"
    );
}

#[test]
fn auto_playlist_urls_per_tld() {
    assert_eq!(CDN_TLD_COUNT, 4);
    assert_eq!(cdn_tld(0), "doppiocdn.com");
    assert_eq!(cdn_tld(3), "doppiocdn.net");
    assert_eq!(
        auto_playlist_url(1, 98765),
        "https://edge-hls.doppiocdn.org/hls/98765/master/98765_auto.m3u8"
    );
    assert_eq!(
        auto_playlist_url(2, -5),
        "https://edge-hls.doppiocdn.live/hls/-5/master/-5_auto.m3u8"
    );
}

#[test]
fn source_tld_is_the_first_mentioned() {
    assert_eq!(cdn_source_tld("https://n1.doppiocdn.live/a/b.ts"), Some(2));
    assert_eq!(cdn_source_tld("https://n1.doppiocdn.com/a.ts?x=doppiocdn.net"), Some(0));
    assert_eq!(cdn_source_tld("https://other.cdn/a.ts"), None);
}

#[test]
fn candidate_url_swaps_the_domain() {
    assert_eq!(
        cdn_candidate_url("https://n1.doppiocdn.com/hls/1.ts", 0, 3),
        "https://n1.doppiocdn.net/hls/1.ts"
    );
    assert_eq!(
        cdn_candidate_url("https://n1.doppiocdn.com/hls/1.ts", 0, 0),
        "https://n1.doppiocdn.com/hls/1.ts"
    );
}

#[test]
fn node_id_is_first_host_label() {
    assert_eq!(
        extract_node_id("https://media-hls.doppiocdn.com/b-hls-12/x.m3u8"),
        Some("media-hls".to_string())
    );
    assert_eq!(extract_node_id("https://localhost/x"), Some("localhost".to_string()));
    assert_eq!(extract_node_id("https://"), Some(String::new()));
    assert_eq!(extract_node_id("http://a.b/c"), None);
}

#[test]
fn preferred_tld_change_detection() {
    assert!(preferred_tld_changes(&None, "doppiocdn.com"));
    assert!(preferred_tld_changes(&Some("doppiocdn.org".to_string()), "doppiocdn.com"));
    assert!(!preferred_tld_changes(&Some("doppiocdn.com".to_string()), "doppiocdn.com"));
}

#[test]
fn failure_messages() {
    assert_eq!(
        cdn_failure("https://x/y.ts"),
        AppError::Other("All CDN TLDs failed → https://x/y.ts".to_string())
    );
    assert_eq!(
        auto_playlist_failure(77),
        AppError::Other("All CDN TLDs failed for model 77 _auto.m3u8".to_string())
    );
    assert_eq!(
        missing_stream_name("bob"),
        AppError::Other("无法获取 bob 的 streamName".to_string())
    );
}

#[test]
fn api_status_errors() {
    assert_eq!(
        api_status_error(true, 404, "bob"),
        AppError::UserNotFound("用户 bob 不存在".to_string())
    );
    assert_eq!(
        api_status_error(false, 404, "bob"),
        AppError::UserNotFound("用户 bob 不存在".to_string())
    );
    assert_eq!(
        api_status_error(true, 503, "bob"),
        AppError::Other("broadcasts API 返回 503 (bob)".to_string())
    );
    assert_eq!(
        api_status_error(false, 403, "bob"),
        AppError::Other("API 返回 403 (bob)".to_string())
    );
}

#[test]
fn status_labels() {
    assert_eq!(status_label_of("public", &None), "公开秀");
    assert_eq!(status_label_of("private", &None), "私密秀");
    assert_eq!(status_label_of("groupShow", &Some("ticket".to_string())), "票务秀");
    assert_eq!(status_label_of("groupShow", &Some("perMinute".to_string())), "计时秀");
    assert_eq!(status_label_of("groupShow", &Some("other".to_string())), "群组秀");
    assert_eq!(status_label_of("groupShow", &None), "群组秀");
    assert_eq!(status_label_of("virtualPrivate", &None), "虚拟私密");
    assert_eq!(status_label_of("p2p", &None), "P2P");
    assert_eq!(status_label_of("idle", &None), "等待");
    assert_eq!(status_label_of("off", &None), "离线");
    assert_eq!(status_label_of("something", &None), "something");
}

#[test]
fn thumbnail_choice() {
    let c = cam();
    assert_eq!(
        thumbnail_url_of(&c),
        Some("https://img.doppiocdn.net/thumbs/1700000000/12345".to_string())
    );
    let mut t = cam();
    t.snapshot_timestamp = None;
    t.snapshot_timestamp_text = Some("1699999999".to_string());
    assert_eq!(snapshot_timestamp_of(&t), 1699999999);
    assert_eq!(
        thumbnail_url_of(&t),
        Some("https://img.doppiocdn.net/thumbs/1699999999/12345".to_string())
    );
    let mut bad = cam();
    bad.snapshot_timestamp = None;
    bad.snapshot_timestamp_text = Some("abc".to_string());
    assert_eq!(snapshot_timestamp_of(&bad), 0);
    assert_eq!(thumbnail_url_of(&bad), Some("https://preview/x.jpg".to_string()));
    let mut off = cam();
    off.is_live = Some(false);
    assert_eq!(thumbnail_url_of(&off), Some("https://preview/x.jpg".to_string()));
    let mut no_name = cam();
    no_name.stream_name = Some(String::new());
    no_name.preview_url = None;
    assert_eq!(thumbnail_url_of(&no_name), None);
}

#[test]
fn stream_info_from_camera_answer() {
    let c = cam();
    assert!(!needs_group_show_type(&c));
    assert!(wants_playlist(&c, true));
    assert!(!wants_playlist(&c, false));
    let info = stream_info_from_cam(&c, &None, true, Some("https://pl/x.m3u8".to_string()));
    assert!(info.is_online);
    assert!(info.is_recordable);
    assert_eq!(info.viewers, 42);
    assert_eq!(info.status, "公开秀");
    assert_eq!(info.playlist_url, Some("https://pl/x.m3u8".to_string()));
    let unasked = stream_info_from_cam(&c, &None, false, Some("https://pl/x.m3u8".to_string()));
    assert_eq!(unasked.playlist_url, None);

    let mut g = cam();
    g.status = Some("groupShow".to_string());
    assert!(needs_group_show_type(&g));
    assert!(!wants_playlist(&g, true));
    let gi = stream_info_from_cam(&g, &Some("ticket".to_string()), true, Some("https://pl/y.m3u8".to_string()));
    assert_eq!(gi.playlist_url, None);
    assert!(gi.is_online);
    assert!(!gi.is_recordable);
    assert_eq!(gi.status, "票务秀");

    let empty = CamSnapshot {
        is_live: None,
        viewers_count: None,
        status: None,
        snapshot_timestamp: None,
        snapshot_timestamp_text: None,
        stream_name: None,
        preview_url: None,
        model_id: None,
    };
    let ei = stream_info_from_cam(&empty, &None, true, None);
    assert!(!ei.is_online);
    assert!(!ei.is_recordable);
    assert_eq!(ei.viewers, 0);
    assert_eq!(ei.status, "unknown");
    assert_eq!(ei.thumbnail_url, None);
}

#[test]
fn model_id_needed_for_playlist() {
    assert_eq!(model_id_of(&cam()), Ok(12345));
    let mut c = cam();
    c.model_id = None;
    assert_eq!(model_id_of(&c), Err(AppError::Other("Cannot get model ID".to_string())));
}

fn entry(u: &str, t: Option<&str>) -> (Option<String>, Option<String>) {
    (Some(u.to_string()), t.map(|s| s.to_string()))
}

#[test]
fn group_show_listing_pages() {
    assert_eq!(group_show_step(&None, "alice", 0), GroupShowStep::NotListed);
    let page = vec![entry("bob", Some("ticket")), entry("alice", Some("perMinute")), entry("alice", None)];
    assert_eq!(
        group_show_step(&Some(page), "alice", 0),
        GroupShowStep::Found(Some("perMinute".to_string()))
    );
    let short = vec![entry("bob", Some("ticket")), (None, None)];
    assert_eq!(group_show_step(&Some(short), "alice", 0), GroupShowStep::NotListed);
    let mut full = Vec::new();
    for i in 0..60 {
        full.push(entry(&format!("m{}", i), None));
    }
    assert_eq!(group_show_step(&Some(full), "alice", 60), GroupShowStep::NextPage(120));
    let listed_without_type = vec![entry("alice", None)];
    assert_eq!(
        group_show_step(&Some(listed_without_type), "alice", 0),
        GroupShowStep::Found(None)
    );
}
