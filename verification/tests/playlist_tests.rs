use recorder_core::error::AppError;
use recorder_core::playlist::{add_mouflon_params, parse_best_stream, playlist_url_from_master};

const MASTER: &str = "#EXTM3U\r\n#EXT-X-MOUFLON:PSCH:v1:Zokee2OhPh9kugh4\r\n#EXT-X-STREAM-INF:BANDWIDTH=1000,RESOLUTION=640x360\r\nhttps://cdn/low.m3u8\r\n#EXT-X-STREAM-INF:CODECS=\"avc1\", BANDWIDTH=5000\r\nhttps://cdn/high.m3u8\r\n#EXT-X-MOUFLON:PSCH:v2:other\r\n";

#[test]
fn best_stream_is_highest_bandwidth() {
    let (url, pairs) = parse_best_stream(MASTER).expect("a variant");
    assert_eq!(url, "https://cdn/high.m3u8");
    assert_eq!(
        pairs,
        vec![
            ("v1".to_string(), "Zokee2OhPh9kugh4".to_string()),
            ("v2".to_string(), "other".to_string())
        ]
    );
}

#[test]
fn best_stream_first_of_ties() {
    let p = "#EXT-X-STREAM-INF:BANDWIDTH=7\na.m3u8\n#EXT-X-STREAM-INF:BANDWIDTH=7\nb.m3u8\n";
    assert_eq!(parse_best_stream(p).unwrap().0, "a.m3u8");
}

#[test]
fn best_stream_needs_positive_bandwidth() {
    let p = "#EXT-X-STREAM-INF:BANDWIDTH=0\na.m3u8\n";
    assert!(parse_best_stream(p).is_none());
}

#[test]
fn best_stream_none_without_variants() {
    assert!(parse_best_stream("#EXTM3U\nplain.m3u8\n").is_none());
    assert!(parse_best_stream("").is_none());
}

#[test]
fn best_stream_uri_must_follow_directly() {
    let p = "#EXT-X-STREAM-INF:BANDWIDTH=9\n\nlate.m3u8\n#EXT-X-STREAM-INF:BANDWIDTH=3\n  ok.m3u8  \n";
    assert_eq!(parse_best_stream(p).unwrap().0, "ok.m3u8");
}

#[test]
fn best_stream_bad_bandwidth_is_skipped() {
    let p = "#EXT-X-STREAM-INF:BANDWIDTH=12x\nbad.m3u8\n#EXT-X-STREAM-INF:BANDWIDTH=+4\nplus.m3u8\n";
    assert_eq!(parse_best_stream(p).unwrap().0, "plus.m3u8");
}

#[test]
fn best_stream_lone_carriage_returns() {
    let p = "#EXT-X-STREAM-INF:BANDWIDTH=2\rcr.m3u8\r";
    assert_eq!(parse_best_stream(p).unwrap().0, "cr.m3u8");
}

#[test]
fn mouflon_line_without_key_is_ignored() {
    let p = "#EXT-X-MOUFLON:PSCH:onlyscheme\n#EXT-X-STREAM-INF:BANDWIDTH=2\nx.m3u8\n";
    let (_, pairs) = parse_best_stream(p).unwrap();
    assert!(pairs.is_empty());
}

#[test]
fn mouflon_params_prefer_known_key() {
    let pairs = vec![("v1".to_string(), "k1".to_string()), ("v2".to_string(), "k2".to_string())];
    let keys = vec!["k2".to_string()];
    assert_eq!(add_mouflon_params("https://a/b.m3u8", &pairs, &keys), "https://a/b.m3u8?psch=v2&pkey=k2");
}

#[test]
fn mouflon_params_fall_back_to_first_pair() {
    let pairs = vec![("v1".to_string(), "k1".to_string()), ("v2".to_string(), "k2".to_string())];
    assert_eq!(add_mouflon_params("https://a/b.m3u8?x=1", &pairs, &vec![]), "https://a/b.m3u8?x=1&psch=v1&pkey=k1");
}

#[test]
fn mouflon_params_absent() {
    assert_eq!(add_mouflon_params("https://a/b.m3u8", &vec![], &vec!["k".to_string()]), "https://a/b.m3u8");
}

#[test]
fn playlist_url_from_master_playlist() {
    let keys = vec!["other".to_string()];
    assert_eq!(
        playlist_url_from_master("alice", MASTER, &keys).unwrap(),
        "https://cdn/high.m3u8?psch=v2&pkey=other"
    );
}

#[test]
fn playlist_url_stream_offline() {
    assert_eq!(
        playlist_url_from_master("alice", "#EXTM3U\n", &vec![]),
        Err(AppError::StreamOffline("alice".to_string()))
    );
}

#[test]
fn mouflon_params_follow_configured_key_order() {
    let pairs = vec![
        ("a".to_string(), "k1".to_string()),
        ("b".to_string(), "k2".to_string()),
        ("c".to_string(), "k2".to_string()),
    ];
    let keys = vec!["k9".to_string(), "k2".to_string(), "k1".to_string()];
    assert_eq!(add_mouflon_params("https://a/b.m3u8", &pairs, &keys), "https://a/b.m3u8?psch=b&pkey=k2");
}
