use recorder_core::recording_loop::client_rebuild_needed;

fn keys(list: &[(&str, &str)]) -> Vec<(String, String)> {
    list.iter().map(|(a, b)| (a.to_string(), b.to_string())).collect()
}

#[test]
fn unchanged_settings_keep_the_client() {
    let p = Some("http://proxy:1".to_string());
    let k = keys(&[("k1", "d1")]);
    assert!(!client_rebuild_needed(&p, &None, &None, &k, &p, &None, &None, &k));
}

#[test]
fn changed_proxy_mirror_or_keys_rebuild_the_client() {
    let p = Some("http://proxy:1".to_string());
    let q = Some("http://proxy:2".to_string());
    let k = keys(&[("k1", "d1"), ("k2", "d2")]);
    assert!(client_rebuild_needed(&p, &None, &None, &k, &q, &None, &None, &k));
    assert!(client_rebuild_needed(&None, &None, &None, &k, &None, &p, &None, &k));
    assert!(client_rebuild_needed(&None, &None, &None, &k, &None, &None, &Some("m".to_string()), &k));
    assert!(client_rebuild_needed(&None, &None, &None, &k, &None, &None, &None, &keys(&[("k1", "d1")])));
    assert!(client_rebuild_needed(
        &None,
        &None,
        &None,
        &k,
        &None,
        &None,
        &None,
        &keys(&[("k2", "d2"), ("k1", "d1")])
    ));
}
