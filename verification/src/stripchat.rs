//! Decisions of the streaming-site client: the URLs it asks for, how it reads a
//! model's camera status, and how it races the CDN domains.

use vstd::prelude::*;
use crate::error::{AppError, ErrorView};
use crate::text::{
    chars_of, contains_seq, contains_str, decimal, lemma_replace_all_same, parse_i64, parse_i64_in, push_decimal,
    push_signed_decimal, push_str, replace_all, replace_str, signed_decimal, str_eq, string_of,
};

verus! {

/// Referer sent with requests to the site.
pub open spec fn site_referer() -> Seq<char> {
    "https://stripchat.com/"@
}

pub open spec fn site_domain() -> Seq<char> {
    "stripchat.com"@
}

/// The CDN domains raced against each other, in order.
pub open spec fn cdn_tlds() -> Seq<Seq<char>> {
    seq!["doppiocdn.com"@, "doppiocdn.org"@, "doppiocdn.live"@, "doppiocdn.net"@]
}

/// Number of CDN domains.
pub const CDN_TLD_COUNT: usize = 4;

/// Models listed per page of the group-show listing.
pub const GROUP_SHOW_PAGE_SIZE: usize = 60;

/// The CDN domain of index `i`.
pub fn cdn_tld(i: usize) -> (r: &'static str)
    requires
        i < CDN_TLD_COUNT,
    ensures
        r@ == cdn_tlds()[i as int],
{
    if i == 0 {
        "doppiocdn.com"
    } else if i == 1 {
        "doppiocdn.org"
    } else if i == 2 {
        "doppiocdn.live"
    } else {
        "doppiocdn.net"
    }
}

pub open spec fn opt_str_view(o: Option<String>) -> Option<Seq<char>> {
    match o {
        Some(s) => Some(s@),
        None => None,
    }
}

/// A configured mirror domain, if it is not empty.
pub fn normalize_mirror(sc_mirror: Option<&str>) -> (r: Option<String>)
    ensures
        opt_str_view(r) == match sc_mirror {
            Some(m) => if m@.len() > 0 {
                Some(m@)
            } else {
                None
            },
            None => None,
        },
{
    match sc_mirror {
        Some(m) => if m.unicode_len() > 0 {
            Some(String::from_str(m))
        } else {
            None
        },
        None => None,
    }
}

/// Whether a configured proxy is to be used: it is set and not empty.
pub fn uses_proxy(proxy: Option<&str>) -> (b: bool)
    ensures
        b == match proxy {
            Some(p) => p@.len() > 0,
            None => false,
        },
{
    match proxy {
        Some(p) => p.unicode_len() > 0,
        None => false,
    }
}

/// A site URL pointed at the mirror domain, when one is configured.
pub open spec fn mirrored(mirror: Option<Seq<char>>, url: Seq<char>) -> Seq<char> {
    match mirror {
        Some(m) => replace_all(url, site_domain(), m),
        None => url,
    }
}

/// `url` with `stripchat.com` replaced by the mirror domain, if any.
pub fn api_url(mirror: &Option<String>, url: &str) -> (r: String)
    ensures
        r@ == mirrored(opt_str_view(*mirror), url@),
{
    proof {
        reveal_strlit("stripchat.com");
    }
    match mirror {
        Some(m) => replace_str(url, "stripchat.com", m.as_str()),
        None => String::from_str(url),
    }
}

/// The Referer for the site, pointed at the mirror domain, if any.
pub fn referer(mirror: &Option<String>) -> (r: String)
    ensures
        r@ == mirrored(opt_str_view(*mirror), site_referer()),
{
    api_url(mirror, "https://stripchat.com/")
}

/// The Referer of requests about `username`.
pub fn referer_for(mirror: &Option<String>, username: &str) -> (r: String)
    ensures
        r@ == mirrored(opt_str_view(*mirror), site_referer()) + username@,
{
    let mut r = referer(mirror);
    r.append(username);
    r
}

/// URL of the broadcast record of `username`.
pub fn broadcasts_url(mirror: &Option<String>, username: &str) -> (r: String)
    ensures
        r@ == mirrored(
            opt_str_view(*mirror),
            "https://stripchat.com/api/front/v1/broadcasts/"@ + username@,
        ),
{
    let mut u = String::from_str("https://stripchat.com/api/front/v1/broadcasts/");
    u.append(username);
    api_url(mirror, u.as_str())
}

/// URL of the camera status of the model whose stream name is `model_id`.
pub fn cam_url(mirror: &Option<String>, model_id: &str) -> (r: String)
    ensures
        r@ == mirrored(
            opt_str_view(*mirror),
            "https://stripchat.com/api/front/v2/models/"@ + model_id@ + "/cam"@,
        ),
{
    let mut u = String::from_str("https://stripchat.com/api/front/v2/models/");
    u.append(model_id);
    u.append("/cam");
    api_url(mirror, u.as_str())
}

/// URL of the page of the group-show listing that starts at `offset`.
pub fn group_show_page_url(mirror: &Option<String>, offset: usize) -> (r: String)
    ensures
        r@ == mirrored(
            opt_str_view(*mirror),
            "https://stripchat.com/api/front/models?removeShows=false&recInFeatured=false&limit="@
                + decimal(GROUP_SHOW_PAGE_SIZE as nat) + "&offset="@ + decimal(offset as nat)
                + "&primaryTag=girls&filterGroupTags=[[\"groupShow\"]]"@,
        ),
{
    let mut v: Vec<char> = Vec::new();
    push_str(&mut v, "https://stripchat.com/api/front/models?removeShows=false&recInFeatured=false&limit=");
    push_decimal(&mut v, GROUP_SHOW_PAGE_SIZE as u64);
    push_str(&mut v, "&offset=");
    push_decimal(&mut v, offset as u64);
    push_str(&mut v, "&primaryTag=girls&filterGroupTags=[[\"groupShow\"]]");
    let u = string_of(&v);
    assert(u@ =~= "https://stripchat.com/api/front/models?removeShows=false&recInFeatured=false&limit="@
        + decimal(GROUP_SHOW_PAGE_SIZE as nat) + "&offset="@ + decimal(offset as nat)
        + "&primaryTag=girls&filterGroupTags=[[\"groupShow\"]]"@);
    api_url(mirror, u.as_str())
}

/// URL of the master playlist of model `model_id` on CDN domain `tld`.
pub fn auto_playlist_url(tld: usize, model_id: i64) -> (r: String)
    requires
        tld < CDN_TLD_COUNT,
    ensures
        r@ == "https://edge-hls."@ + cdn_tlds()[tld as int] + "/hls/"@ + signed_decimal(
            model_id as int,
        ) + "/master/"@ + signed_decimal(model_id as int) + "_auto.m3u8"@,
{
    let mut v: Vec<char> = Vec::new();
    push_str(&mut v, "https://edge-hls.");
    push_str(&mut v, cdn_tld(tld));
    push_str(&mut v, "/hls/");
    push_signed_decimal(&mut v, model_id);
    push_str(&mut v, "/master/");
    push_signed_decimal(&mut v, model_id);
    push_str(&mut v, "_auto.m3u8");
    assert(v@ =~= "https://edge-hls."@ + cdn_tlds()[tld as int] + "/hls/"@ + signed_decimal(
        model_id as int,
    ) + "/master/"@ + signed_decimal(model_id as int) + "_auto.m3u8"@);
    string_of(&v)
}

/// Index of the first CDN domain that `url` mentions.
pub open spec fn source_tld(url: Seq<char>) -> Option<int> {
    if contains_seq(url, cdn_tlds()[0]) {
        Some(0)
    } else if contains_seq(url, cdn_tlds()[1]) {
        Some(1)
    } else if contains_seq(url, cdn_tlds()[2]) {
        Some(2)
    } else if contains_seq(url, cdn_tlds()[3]) {
        Some(3)
    } else {
        None
    }
}

/// The CDN domain that `url` is served from, as an index; `None` when it names none
/// of them (then it is fetched as it is, without racing).
pub fn cdn_source_tld(url: &str) -> (r: Option<usize>)
    ensures
        match r {
            Some(i) => source_tld(url@) == Some(i as int),
            None => source_tld(url@) is None,
        },
{
    let mut i: usize = 0;
    while i < CDN_TLD_COUNT
        invariant
            i <= CDN_TLD_COUNT,
            forall|k: int| 0 <= k < i ==> !contains_seq(url@, #[trigger] cdn_tlds()[k]),
        decreases CDN_TLD_COUNT - i,
    {
        if contains_str(url, cdn_tld(i)) {
            return Some(i);
        }
        i = i + 1;
    }
    None
}

/// `url` moved from CDN domain `from` to CDN domain `to`.
pub fn cdn_candidate_url(url: &str, from: usize, to: usize) -> (r: String)
    requires
        from < CDN_TLD_COUNT,
        to < CDN_TLD_COUNT,
    ensures
        r@ == replace_all(url@, cdn_tlds()[from as int], cdn_tlds()[to as int]),
{
    proof {
        reveal_strlit("doppiocdn.com");
        reveal_strlit("doppiocdn.org");
        reveal_strlit("doppiocdn.live");
        reveal_strlit("doppiocdn.net");
    }
    replace_str(url, cdn_tld(from), cdn_tld(to))
}

/// Among the candidates raced for a URL, the one on the URL's own CDN domain is the
/// URL itself.
pub proof fn law_own_domain_candidate_is_url(url: Seq<char>, i: int)
    requires
        0 <= i < CDN_TLD_COUNT,
    ensures
        replace_all(url, cdn_tlds()[i], cdn_tlds()[i]) == url,
{
    lemma_replace_all_same(url, cdn_tlds()[i]);
}

/// The CDN node of a URL: the first label of its host, for `https://` URLs only.
pub open spec fn node_id(url: Seq<char>) -> Option<Seq<char>> {
    let scheme = "https://"@;
    if url.len() >= scheme.len() && url.take(scheme.len() as int) == scheme {
        let rest = url.skip(scheme.len() as int);
        let host = crate::playlist::split_on(rest, '/')[0];
        Some(crate::playlist::split_on(host, '.')[0])
    } else {
        None
    }
}

/// `node_id` of `url`.
pub fn extract_node_id(url: &str) -> (r: Option<String>)
    ensures
        opt_str_view(r) == node_id(url@),
{
    proof {
        reveal_strlit("https://");
    }
    let v = chars_of(url);
    let n = v.len();
    assert(v@.subrange(0, n as int) =~= v@);
    if !crate::text::starts_with_at(&v, 0, n, "https://") {
        return None;
    }
    let ghost rest = v@.skip(8);
    assert(v@.subrange(8, n as int) =~= rest);
    let host_end = match crate::text::find_char_in(&v, 8, n, '/') {
        None => n,
        Some(k) => {
            proof {
                crate::text::lemma_find_char(rest, '/');
            }
            8 + k
        },
    };
    let ghost host = v@.subrange(8, host_end as int);
    proof {
        crate::text::lemma_find_char(rest, '/');
        let k = crate::text::find_char(rest, '/');
        if k >= 0 {
            assert(host =~= rest.take(k));
        } else {
            assert(host =~= rest);
        }
        assert(crate::playlist::split_on(rest, '/')[0] == host);
    }
    let label_end = match crate::text::find_char_in(&v, 8, host_end, '.') {
        None => host_end,
        Some(k) => {
            proof {
                crate::text::lemma_find_char(host, '.');
            }
            8 + k
        },
    };
    proof {
        crate::text::lemma_find_char(host, '.');
        let k = crate::text::find_char(host, '.');
        if k >= 0 {
            assert(v@.subrange(8, label_end as int) =~= host.take(k));
        } else {
            assert(v@.subrange(8, label_end as int) =~= host);
        }
    }
    Some(string_of(&crate::text::slice_chars(&v, 8, label_end)))
}

/// Whether the preferred CDN domain of a node changes to `tld` (it was unset or
/// another one).
pub fn preferred_tld_changes(preferred: &Option<String>, tld: &str) -> (b: bool)
    ensures
        b == (opt_str_view(*preferred) != Some(tld@)),
{
    match preferred {
        None => true,
        Some(p) => !str_eq(p.as_str(), tld),
    }
}

/// Error when no CDN domain answered for `url`.
pub fn cdn_failure(url: &str) -> (r: AppError)
    ensures
        r@ == ErrorView::Other("All CDN TLDs failed → "@ + url@),
{
    let mut m = String::from_str("All CDN TLDs failed → ");
    m.append(url);
    AppError::Other(m)
}

/// Error when no CDN domain served the master playlist of `model_id`.
pub fn auto_playlist_failure(model_id: i64) -> (r: AppError)
    ensures
        r@ == ErrorView::Other(
            "All CDN TLDs failed for model "@ + signed_decimal(model_id as int) + " _auto.m3u8"@,
        ),
{
    let mut v: Vec<char> = Vec::new();
    push_str(&mut v, "All CDN TLDs failed for model ");
    push_signed_decimal(&mut v, model_id);
    push_str(&mut v, " _auto.m3u8");
    assert(v@ =~= "All CDN TLDs failed for model "@ + signed_decimal(model_id as int)
        + " _auto.m3u8"@);
    AppError::Other(string_of(&v))
}


/// Live status of a streamer.
pub struct StreamInfo {
    /// Whether the streamer is online.
    pub is_online: bool,
    /// Whether the stream can be recorded (a live public show).
    pub is_recordable: bool,
    /// Viewer count.
    pub viewers: i64,
    /// Status text shown to the user.
    pub status: String,
    /// Thumbnail URL.
    pub thumbnail_url: Option<String>,
    /// HLS playlist URL (only when asked for and recordable).
    pub playlist_url: Option<String>,
}

/// What the camera-status answer of the site says, field by field (`None` where the
/// field is missing or of another JSON type).
pub struct CamSnapshot {
    /// `user.user.isLive`.
    pub is_live: Option<bool>,
    /// `user.user.viewersCount`.
    pub viewers_count: Option<i64>,
    /// `user.user.status`.
    pub status: Option<String>,
    /// `user.user.snapshotTimestamp`, when it is an integer.
    pub snapshot_timestamp: Option<i64>,
    /// `user.user.snapshotTimestamp`, when it is a string.
    pub snapshot_timestamp_text: Option<String>,
    /// `cam.streamName`.
    pub stream_name: Option<String>,
    /// `user.user.previewUrl`.
    pub preview_url: Option<String>,
    /// `user.user.id`.
    pub model_id: Option<i64>,
}

pub open spec fn cam_is_live(c: &CamSnapshot) -> bool {
    match c.is_live {
        Some(b) => b,
        None => false,
    }
}

pub open spec fn cam_status_text(c: &CamSnapshot) -> Seq<char> {
    match c.status {
        Some(s) => s@,
        None => "unknown"@,
    }
}

/// The status text shown for the site's status, in Chinese; group shows are told
/// apart by their type, unknown statuses are shown as they are.
pub open spec fn status_label(text: Seq<char>, group: Option<Seq<char>>) -> Seq<char> {
    if text == "public"@ {
        "公开秀"@
    } else if text == "private"@ {
        "私密秀"@
    } else if text == "groupShow"@ {
        if group == Some("ticket"@) {
            "票务秀"@
        } else if group == Some("perMinute"@) {
            "计时秀"@
        } else {
            "群组秀"@
        }
    } else if text == "virtualPrivate"@ {
        "虚拟私密"@
    } else if text == "p2p"@ {
        "P2P"@
    } else if text == "idle"@ {
        "等待"@
    } else if text == "off"@ {
        "离线"@
    } else {
        text
    }
}

/// The snapshot time: the integer field, else the string field read as an `i64`, else 0.
pub open spec fn cam_snapshot_ts(c: &CamSnapshot) -> i64 {
    match c.snapshot_timestamp {
        Some(t) => t,
        None => match c.snapshot_timestamp_text {
            Some(s) => match parse_i64(s@) {
                Some(t) => t,
                None => 0,
            },
            None => 0,
        },
    }
}

pub open spec fn cam_stream_name(c: &CamSnapshot) -> Seq<char> {
    match c.stream_name {
        Some(s) => s@,
        None => Seq::empty(),
    }
}

/// The thumbnail: a CDN snapshot when live with a positive snapshot time and a
/// stream name, else the preview URL.
pub open spec fn cam_thumbnail(c: &CamSnapshot) -> Option<Seq<char>> {
    if cam_is_live(c) && cam_snapshot_ts(c) > 0 && cam_stream_name(c).len() > 0 {
        Some(
            "https://img.doppiocdn.net/thumbs/"@ + signed_decimal(cam_snapshot_ts(c) as int) + "/"@
                + cam_stream_name(c),
        )
    } else {
        opt_str_view(c.preview_url)
    }
}

/// A live public show can be recorded.
pub open spec fn cam_recordable(c: &CamSnapshot) -> bool {
    cam_is_live(c) && cam_status_text(c) == "public"@
}

/// `status_label` of a status text and group-show type.
pub fn status_label_of(text: &str, group_show_type: &Option<String>) -> (r: String)
    ensures
        r@ == status_label(text@, opt_str_view(*group_show_type)),
{
    if str_eq(text, "public") {
        String::from_str("公开秀")
    } else if str_eq(text, "private") {
        String::from_str("私密秀")
    } else if str_eq(text, "groupShow") {
        match group_show_type {
            Some(g) => if str_eq(g.as_str(), "ticket") {
                String::from_str("票务秀")
            } else if str_eq(g.as_str(), "perMinute") {
                String::from_str("计时秀")
            } else {
                String::from_str("群组秀")
            },
            None => String::from_str("群组秀"),
        }
    } else if str_eq(text, "virtualPrivate") {
        String::from_str("虚拟私密")
    } else if str_eq(text, "p2p") {
        String::from_str("P2P")
    } else if str_eq(text, "idle") {
        String::from_str("等待")
    } else if str_eq(text, "off") {
        String::from_str("离线")
    } else {
        String::from_str(text)
    }
}

/// The site's status text of a camera answer (`unknown` when missing).
pub fn status_text_of(cam: &CamSnapshot) -> (r: String)
    ensures
        r@ == cam_status_text(cam),
{
    match &cam.status {
        Some(s) => s.clone(),
        None => String::from_str("unknown"),
    }
}

/// Whether the type of the group show has to be looked up (the status is `groupShow`).
pub fn needs_group_show_type(cam: &CamSnapshot) -> (b: bool)
    ensures
        b == (cam_status_text(cam) == "groupShow"@),
{
    let t = status_text_of(cam);
    str_eq(t.as_str(), "groupShow")
}

/// Whether the playlist URL is to be looked up: asked for, and the stream recordable.
pub fn wants_playlist(cam: &CamSnapshot, fetch_playlist: bool) -> (b: bool)
    ensures
        b == (cam_recordable(cam) && fetch_playlist),
{
    let live = match cam.is_live {
        Some(b) => b,
        None => false,
    };
    let t = status_text_of(cam);
    live && str_eq(t.as_str(), "public") && fetch_playlist
}

/// `cam_snapshot_ts` of a camera answer.
pub fn snapshot_timestamp_of(cam: &CamSnapshot) -> (t: i64)
    ensures
        t == cam_snapshot_ts(cam),
{
    match cam.snapshot_timestamp {
        Some(t) => t,
        None => match &cam.snapshot_timestamp_text {
            Some(s) => {
                let v = chars_of(s.as_str());
                assert(v@.subrange(0, v@.len() as int) =~= v@);
                match parse_i64_in(&v, 0, v.len()) {
                    Some(t) => t,
                    None => 0,
                }
            },
            None => 0,
        },
    }
}

/// `cam_thumbnail` of a camera answer.
pub fn thumbnail_url_of(cam: &CamSnapshot) -> (r: Option<String>)
    ensures
        opt_str_view(r) == cam_thumbnail(cam),
{
    let live = match cam.is_live {
        Some(b) => b,
        None => false,
    };
    let ts = snapshot_timestamp_of(cam);
    let name = match &cam.stream_name {
        Some(s) => s.clone(),
        None => String::new(),
    };
    if live && ts > 0 && name.as_str().unicode_len() > 0 {
        let mut v: Vec<char> = Vec::new();
        push_str(&mut v, "https://img.doppiocdn.net/thumbs/");
        push_signed_decimal(&mut v, ts);
        push_str(&mut v, "/");
        push_str(&mut v, name.as_str());
        assert(v@ =~= "https://img.doppiocdn.net/thumbs/"@ + signed_decimal(ts as int) + "/"@
            + cam_stream_name(cam));
        Some(string_of(&v))
    } else {
        match &cam.preview_url {
            Some(p) => Some(p.clone()),
            None => None,
        }
    }
}

/// The stream information of a camera answer, given the group-show type (looked up
/// when `needs_group_show_type`) and the playlist URL (looked up when `wants_playlist`;
/// it is kept only then). A recordable stream is online, and only a recordable stream
/// has a playlist URL.
pub fn stream_info_from_cam(
    cam: &CamSnapshot,
    group_show_type: &Option<String>,
    fetch_playlist: bool,
    playlist_url: Option<String>,
) -> (r: StreamInfo)
    ensures
        r.is_online == cam_is_live(cam),
        r.is_recordable == cam_recordable(cam),
        r.viewers == match cam.viewers_count {
            Some(v) => v,
            None => 0,
        },
        r.status@ == status_label(cam_status_text(cam), opt_str_view(*group_show_type)),
        opt_str_view(r.thumbnail_url) == cam_thumbnail(cam),
        r.playlist_url == (if cam_recordable(cam) && fetch_playlist {
            playlist_url
        } else {
            None
        }),
        r.is_recordable ==> r.is_online,
        r.playlist_url is Some ==> r.is_recordable,
{
    let live = match cam.is_live {
        Some(b) => b,
        None => false,
    };
    let text = status_text_of(cam);
    let recordable = live && str_eq(text.as_str(), "public");
    StreamInfo {
        is_online: live,
        is_recordable: recordable,
        viewers: match cam.viewers_count {
            Some(v) => v,
            None => 0,
        },
        status: status_label_of(text.as_str(), group_show_type),
        thumbnail_url: thumbnail_url_of(cam),
        playlist_url: if recordable && fetch_playlist {
            playlist_url
        } else {
            None
        },
    }
}

/// Error for an unsuccessful answer of status `status` about `username`: not found on
/// 404, otherwise one naming the endpoint (`broadcasts` for the broadcast record).
pub fn api_status_error(broadcasts: bool, status: u16, username: &str) -> (r: AppError)
    ensures
        status == 404 ==> r@ == ErrorView::UserNotFound("用户 "@ + username@ + " 不存在"@),
        status != 404 ==> r@ == ErrorView::Other(
            (if broadcasts {
                "broadcasts API 返回 "@
            } else {
                "API 返回 "@
            }) + decimal(status as nat) + " ("@ + username@ + ")"@,
        ),
{
    let mut v: Vec<char> = Vec::new();
    if status == 404 {
        push_str(&mut v, "用户 ");
        push_str(&mut v, username);
        push_str(&mut v, " 不存在");
        assert(v@ =~= "用户 "@ + username@ + " 不存在"@);
        return AppError::UserNotFound(string_of(&v));
    }
    if broadcasts {
        push_str(&mut v, "broadcasts API 返回 ");
    } else {
        push_str(&mut v, "API 返回 ");
    }
    let ghost head = v@;
    push_decimal(&mut v, status as u64);
    push_str(&mut v, " (");
    push_str(&mut v, username);
    push_str(&mut v, ")");
    assert(v@ =~= head + decimal(status as nat) + " ("@ + username@ + ")"@);
    AppError::Other(string_of(&v))
}

/// Error when the broadcast record of `username` has no stream name.
pub fn missing_stream_name(username: &str) -> (r: AppError)
    ensures
        r@ == ErrorView::Other("无法获取 "@ + username@ + " 的 streamName"@),
{
    let mut v: Vec<char> = Vec::new();
    push_str(&mut v, "无法获取 ");
    push_str(&mut v, username);
    push_str(&mut v, " 的 streamName");
    assert(v@ =~= "无法获取 "@ + username@ + " 的 streamName"@);
    AppError::Other(string_of(&v))
}

/// The master-playlist lookup needs the model's numeric id.
pub fn model_id_of(cam: &CamSnapshot) -> (r: Result<i64, AppError>)
    ensures
        match cam.model_id {
            Some(id) => r == Ok::<i64, AppError>(id),
            None => r is Err && r->Err_0@ == ErrorView::Other("Cannot get model ID"@),
        },
{
    match cam.model_id {
        Some(id) => Ok(id),
        None => Err(AppError::Other(String::from_str("Cannot get model ID"))),
    }
}

/// What a page of the group-show listing tells.
#[derive(Debug, PartialEq, Eq)]
pub enum GroupShowStep {
    /// The streamer is listed, with this group-show type (if the entry has one).
    Found(Option<String>),
    /// The streamer is not in a group show (or the listing could not be read).
    NotListed,
    /// The streamer may be on the page that starts at this offset.
    NextPage(usize),
}

pub open spec fn listed_at(models: Seq<(Option<String>, Option<String>)>, u: Seq<char>, i: int) -> bool {
    0 <= i < models.len() && opt_str_view(models[i].0) == Some(u)
}

/// What a page `m` of the listing means for `u` (see `group_show_step`).
pub open spec fn page_result(
    m: Seq<(Option<String>, Option<String>)>,
    u: Seq<char>,
    offset: usize,
    r: GroupShowStep,
) -> bool {
    match r {
        GroupShowStep::Found(t) => exists|i: int|
            listed_at(m, u, i) && (forall|j: int| 0 <= j < i ==> !listed_at(m, u, j)) && opt_str_view(t)
                == opt_str_view(m[i].1),
        GroupShowStep::NotListed => (forall|i: int| !listed_at(m, u, i)) && m.len()
            < GROUP_SHOW_PAGE_SIZE,
        GroupShowStep::NextPage(o) => (forall|i: int| !listed_at(m, u, i)) && m.len()
            >= GROUP_SHOW_PAGE_SIZE && o == offset + GROUP_SHOW_PAGE_SIZE,
    }
}

/// Reads one page of the listing: `models` holds the `(username, groupShowType)` of
/// each entry (`None` when the page has no model list). The first entry of `username`
/// decides; otherwise a full page leads to the next one.
pub fn group_show_step(
    models: &Option<Vec<(Option<String>, Option<String>)>>,
    username: &str,
    offset: usize,
) -> (r: GroupShowStep)
    requires
        offset + GROUP_SHOW_PAGE_SIZE <= usize::MAX,
    ensures
        models is None ==> r == GroupShowStep::NotListed,
        models is Some ==> page_result(models->0@, username@, offset, r),
{
    match models {
        None => GroupShowStep::NotListed,
        Some(m) => {
            let mut i: usize = 0;
            while i < m.len()
                invariant
                    i <= m.len(),
                    *models == Some(*m),
                    forall|j: int| 0 <= j < i ==> !listed_at(m@, username@, j),
                decreases m.len() - i,
            {
                match &m[i].0 {
                    Some(name) => {
                        if str_eq(name.as_str(), username) {
                            let t = match &m[i].1 {
                                Some(t) => Some(t.clone()),
                                None => None,
                            };
                            assert(listed_at(m@, username@, i as int));
                            assert(opt_str_view(t) == opt_str_view(m@[i as int].1));
                            return GroupShowStep::Found(t);
                        }
                    },
                    None => {},
                }
                i = i + 1;
            }
            if m.len() < GROUP_SHOW_PAGE_SIZE {
                GroupShowStep::NotListed
            } else {
                GroupShowStep::NextPage(offset + GROUP_SHOW_PAGE_SIZE)
            }
        },
    }
}

} // verus!
