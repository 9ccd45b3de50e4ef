//! HLS playlist text: picking the best variant of a master playlist, the Mouflon
//! parameters it carries, and the small texts the recorder writes.

use vstd::prelude::*;
use crate::error::AppError;
use crate::text::{
    views,
    chars_of, chars_eq, contains_char, extend_chars, push_str, find_char, find_char_in, lemma_find_char, parse_u64, parse_u64_in,
    slice_chars, starts_with, starts_with_at, string_of, trim, trim_in, trim_start, trim_start_in,
};

verus! {

/// `s` with every `\r\n` and every lone `\r` turned into `\n`.
pub open spec fn normalize_newlines(s: Seq<char>) -> Seq<char>
    decreases s.len(),
{
    if s.len() == 0 {
        s
    } else if s[0] == '\r' && s.len() >= 2 && s[1] == '\n' {
        seq!['\n'] + normalize_newlines(s.skip(2))
    } else if s[0] == '\r' {
        seq!['\n'] + normalize_newlines(s.drop_first())
    } else {
        seq![s[0]] + normalize_newlines(s.drop_first())
    }
}

/// The pieces of `s` between occurrences of `c` (`str::split`).
pub open spec fn split_on(s: Seq<char>, c: char) -> Seq<Seq<char>>
    decreases s.len(),
{
    let i = find_char(s, c);
    if i < 0 {
        seq![s]
    } else {
        proof {
            lemma_find_char(s, c);
        }
        seq![s.take(i)] + split_on(s.skip(i + 1), c)
    }
}

/// The trimmed lines of a playlist.
pub open spec fn playlist_lines(text: Seq<char>) -> Seq<Seq<char>> {
    split_on(normalize_newlines(text), '\n').map_values(|l: Seq<char>| trim(l))
}

pub open spec fn mouflon_tag() -> Seq<char> {
    "#EXT-X-MOUFLON:PSCH:"@
}

pub open spec fn stream_inf_tag() -> Seq<char> {
    "#EXT-X-STREAM-INF:"@
}

pub open spec fn bandwidth_key() -> Seq<char> {
    "BANDWIDTH="@
}

/// The `(psch, pkey)` pair of a `#EXT-X-MOUFLON:PSCH:{psch}:{pkey}` line.
pub open spec fn mouflon_pair(line: Seq<char>) -> Option<(Seq<char>, Seq<char>)> {
    if starts_with(line, mouflon_tag()) {
        let rest = line.skip(mouflon_tag().len() as int);
        let k = find_char(rest, ':');
        if k >= 0 {
            Some((rest.take(k), rest.skip(k + 1)))
        } else {
            None
        }
    } else {
        None
    }
}

/// The Mouflon pairs of all lines, in order.
pub open spec fn mouflon_pairs(lines: Seq<Seq<char>>) -> Seq<(Seq<char>, Seq<char>)>
    decreases lines.len(),
{
    if lines.len() == 0 {
        Seq::empty()
    } else {
        let prev = mouflon_pairs(lines.drop_last());
        match mouflon_pair(lines.last()) {
            Some(p) => prev.push(p),
            None => prev,
        }
    }
}

/// The bandwidth of an attribute list: the first comma-separated field that starts,
/// after leading whitespace, with `BANDWIDTH=`, its value read as a `u64`.
pub open spec fn bandwidth_attr(attrs: Seq<char>) -> Option<u64>
    decreases attrs.len(),
{
    let k = find_char(attrs, ',');
    let field = if k < 0 {
        attrs
    } else {
        attrs.take(k)
    };
    let t = trim_start(field);
    if starts_with(t, bandwidth_key()) {
        parse_u64(t.skip(bandwidth_key().len() as int))
    } else if k < 0 {
        None
    } else {
        proof {
            lemma_find_char(attrs, ',');
        }
        bandwidth_attr(attrs.skip(k + 1))
    }
}

pub open spec fn is_stream_inf(line: Seq<char>) -> bool {
    starts_with(line, stream_inf_tag())
}

/// The bandwidth announced by a `#EXT-X-STREAM-INF:` line.
pub open spec fn stream_inf_bandwidth(line: Seq<char>) -> Option<u64> {
    bandwidth_attr(line.skip(stream_inf_tag().len() as int))
}

/// A URI line: neither empty nor a tag or comment.
pub open spec fn is_uri_line(line: Seq<char>) -> bool {
    line.len() > 0 && line[0] != '#'
}

/// Line `i` is a variant URI: it directly follows a `#EXT-X-STREAM-INF:` line that
/// announces a bandwidth.
pub open spec fn is_variant(lines: Seq<Seq<char>>, i: int) -> bool {
    1 <= i < lines.len() && is_uri_line(lines[i]) && is_stream_inf(lines[i - 1])
        && stream_inf_bandwidth(lines[i - 1]) is Some
}

pub open spec fn variant_bandwidth(lines: Seq<Seq<char>>, i: int) -> u64 {
    stream_inf_bandwidth(lines[i - 1])->0
}

/// Line `i` is the chosen variant: the first one of the highest bandwidth, which must
/// be above zero.
pub open spec fn is_best_variant(lines: Seq<Seq<char>>, i: int) -> bool {
    &&& is_variant(lines, i)
    &&& variant_bandwidth(lines, i) > 0
    &&& forall|j: int| 0 <= j < i && is_variant(lines, j) ==> variant_bandwidth(lines, j)
        < variant_bandwidth(lines, i)
    &&& forall|j: int| i < j < lines.len() && is_variant(lines, j) ==> variant_bandwidth(lines, j)
        <= variant_bandwidth(lines, i)
}

pub open spec fn pairs_view(v: Seq<(String, String)>) -> Seq<(Seq<char>, Seq<char>)> {
    v.map_values(|p: (String, String)| (p.0@, p.1@))
}

pub open spec fn lines_view(v: Seq<Vec<char>>) -> Seq<Seq<char>> {
    v.map_values(|l: Vec<char>| l@)
}

/// `normalize_newlines` of `v`.
fn normalize_newlines_exec(v: &Vec<char>) -> (r: Vec<char>)
    ensures
        r@ == normalize_newlines(v@),
{
    let mut out: Vec<char> = Vec::new();
    let mut i: usize = 0;
    assert(v@.skip(0) =~= v@);
    assert(out@ + normalize_newlines(v@.skip(0)) =~= normalize_newlines(v@));
    while i < v.len()
        invariant
            i <= v.len(),
            out@ + normalize_newlines(v@.skip(i as int)) == normalize_newlines(v@),
        decreases v.len() - i,
    {
        let ghost rest = v@.skip(i as int);
        if v[i] == '\r' && i + 1 < v.len() && v[i + 1] == '\n' {
            assert(rest.skip(2) =~= v@.skip(i + 2));
            out.push('\n');
            i = i + 2;
            assert(out@ + normalize_newlines(v@.skip(i as int)) =~= normalize_newlines(v@));
        } else {
            assert(rest.drop_first() =~= v@.skip(i + 1));
            let c = if v[i] == '\r' {
                '\n'
            } else {
                v[i]
            };
            out.push(c);
            i = i + 1;
            assert(out@ + normalize_newlines(v@.skip(i as int)) =~= normalize_newlines(v@));
        }
    }
    assert(v@.skip(i as int) =~= Seq::<char>::empty());
    assert(out@ =~= normalize_newlines(v@));
    out
}

/// The trimmed lines of `text` (`playlist_lines`).
pub fn playlist_lines_exec(text: &str) -> (r: Vec<Vec<char>>)
    ensures
        lines_view(r@) == playlist_lines(text@),
{
    let raw = chars_of(text);
    let v = normalize_newlines_exec(&raw);
    let ghost full = v@;
    let mut lines: Vec<Vec<char>> = Vec::new();
    let mut pos: usize = 0;
    assert(v@.skip(0) =~= v@);
    assert(lines_view(lines@) =~= Seq::<Seq<char>>::empty());
    assert(lines_view(lines@) + split_on(v@.skip(0), '\n').map_values(|l: Seq<char>| trim(l))
        =~= split_on(full, '\n').map_values(|l: Seq<char>| trim(l)));
    loop
        invariant
            pos <= v.len(),
            full == v@,
            full == normalize_newlines(text@),
            lines_view(lines@) + split_on(v@.skip(pos as int), '\n').map_values(
                |l: Seq<char>| trim(l),
            ) == split_on(full, '\n').map_values(|l: Seq<char>| trim(l)),
        decreases v.len() - pos,
    {
        let ghost rest = v@.skip(pos as int);
        assert(v@.subrange(pos as int, v.len() as int) =~= rest);
        match find_char_in(&v, pos, v.len(), '\n') {
            None => {
                let (a, b) = trim_in(&v, pos, v.len());
                let line = slice_chars(&v, a, b);
                let ghost before = lines_view(lines@);
                lines.push(line);
                assert(split_on(rest, '\n') == seq![rest]);
                assert(lines_view(lines@) =~= before.push(trim(rest)));
                assert(lines_view(lines@) =~= split_on(full, '\n').map_values(
                    |l: Seq<char>| trim(l),
                ));
                return lines;
            },
            Some(k) => {
                proof {
                    lemma_find_char(rest, '\n');
                }
                let (a, b) = trim_in(&v, pos, pos + k);
                assert(v@.subrange(pos as int, pos + k) =~= rest.take(k as int));
                let line = slice_chars(&v, a, b);
                let ghost before = lines_view(lines@);
                lines.push(line);
                assert(lines_view(lines@) =~= before.push(trim(rest.take(k as int))));
                assert(rest.skip(k + 1) =~= v@.skip(pos + k + 1));
                assert(split_on(rest, '\n') == seq![rest.take(k as int)] + split_on(
                    rest.skip(k + 1),
                    '\n',
                ));
                pos = pos + k + 1;
                assert(lines_view(lines@) + split_on(v@.skip(pos as int), '\n').map_values(
                    |l: Seq<char>| trim(l),
                ) =~= before + split_on(rest, '\n').map_values(|l: Seq<char>| trim(l)));
            },
        }
    }
}

/// `mouflon_pair` of a line.
fn mouflon_pair_exec(line: &Vec<char>) -> (r: Option<(String, String)>)
    ensures
        match r {
            Some(p) => mouflon_pair(line@) == Some((p.0@, p.1@)),
            None => mouflon_pair(line@) is None,
        },
{
    let n = line.len();
    assert(line@.subrange(0, n as int) =~= line@);
    if !starts_with_at(line, 0, n, "#EXT-X-MOUFLON:PSCH:") {
        return None;
    }
    proof {
        reveal_strlit("#EXT-X-MOUFLON:PSCH:");
    }
    let plen: usize = 20;
    let ghost rest = line@.skip(plen as int);
    assert(line@.subrange(plen as int, n as int) =~= rest);
    match find_char_in(line, plen, n, ':') {
        None => None,
        Some(k) => {
            proof {
                lemma_find_char(rest, ':');
            }
            let psch = slice_chars(line, plen, plen + k);
            let pkey = slice_chars(line, plen + k + 1, n);
            assert(psch@ =~= rest.take(k as int));
            assert(pkey@ =~= rest.skip(k + 1));
            Some((string_of(&psch), string_of(&pkey)))
        },
    }
}

/// `bandwidth_attr` of `v[lo..hi]`.
fn bandwidth_attr_in(v: &Vec<char>, lo: usize, hi: usize) -> (r: Option<u64>)
    requires
        lo <= hi <= v.len(),
    ensures
        r == bandwidth_attr(v@.subrange(lo as int, hi as int)),
{
    proof {
        reveal_strlit("BANDWIDTH=");
    }
    let mut pos = lo;
    loop
        invariant
            lo <= pos <= hi <= v.len(),
            bandwidth_attr(v@.subrange(pos as int, hi as int)) == bandwidth_attr(
                v@.subrange(lo as int, hi as int),
            ),
            bandwidth_key().len() == 10,
        decreases hi - pos,
    {
        let ghost attrs = v@.subrange(pos as int, hi as int);
        let found = find_char_in(v, pos, hi, ',');
        proof {
            lemma_find_char(attrs, ',');
        }
        let seg_end = match found {
            None => hi,
            Some(k) => pos + k,
        };
        assert(v@.subrange(pos as int, seg_end as int) =~= (if find_char(attrs, ',') < 0 {
            attrs
        } else {
            attrs.take(find_char(attrs, ','))
        }));
        let a = trim_start_in(v, pos, seg_end);
        if starts_with_at(v, a, seg_end, "BANDWIDTH=") {
            assert(v@.subrange(a + 10, seg_end as int) =~= v@.subrange(a as int, seg_end as int).skip(10));
            return parse_u64_in(v, a + 10, seg_end);
        }
        match found {
            None => {
                return None;
            },
            Some(k) => {
                assert(v@.subrange(pos + k + 1, hi as int) =~= attrs.skip(k + 1));
                pos = pos + k + 1;
            },
        }
    }
}

/// `stream_inf_bandwidth` of a line already known to be a `#EXT-X-STREAM-INF:` line.
fn stream_inf_bandwidth_exec(line: &Vec<char>) -> (r: Option<u64>)
    requires
        is_stream_inf(line@),
    ensures
        r == stream_inf_bandwidth(line@),
{
    proof {
        reveal_strlit("#EXT-X-STREAM-INF:");
    }
    let n = line.len();
    assert(line@.subrange(18, n as int) =~= line@.skip(18));
    bandwidth_attr_in(line, 18, n)
}

fn is_stream_inf_exec(line: &Vec<char>) -> (b: bool)
    ensures
        b == is_stream_inf(line@),
{
    assert(line@.subrange(0, line@.len() as int) =~= line@);
    starts_with_at(line, 0, line.len(), "#EXT-X-STREAM-INF:")
}

/// From a master playlist: the URI of the variant with the highest `BANDWIDTH` (the
/// first of them on a tie, and only if above zero), together with every
/// `#EXT-X-MOUFLON:PSCH:{psch}:{pkey}` pair in order. Lines end at `\n`, `\r\n` or
/// `\r` and are trimmed; a variant URI is a line that is neither empty nor starts
/// with `#` and directly follows a `#EXT-X-STREAM-INF:` line with a bandwidth.
pub fn parse_best_stream(playlist: &str) -> (r: Option<(String, Vec<(String, String)>)>)
    ensures
        ({
            let lines = playlist_lines(playlist@);
            match r {
                None => forall|i: int| is_variant(lines, i) ==> variant_bandwidth(lines, i) == 0,
                Some((url, pairs)) => {
                    &&& exists|i: int| is_best_variant(lines, i) && lines[i] == url@
                    &&& pairs_view(pairs@) == mouflon_pairs(lines)
                },
            }
        }),
{
    let lines = playlist_lines_exec(playlist);
    let ghost ls = lines_view(lines@);
    let mut pairs: Vec<(String, String)> = Vec::new();
    let mut k: usize = 0;
    while k < lines.len()
        invariant
            k <= lines.len(),
            ls == lines_view(lines@),
            pairs_view(pairs@) == mouflon_pairs(ls.take(k as int)),
        decreases lines.len() - k,
    {
        assert(ls.take(k + 1).drop_last() =~= ls.take(k as int));
        assert(ls.take(k + 1).last() == lines@[k as int]@);
        let ghost before = pairs_view(pairs@);
        match mouflon_pair_exec(&lines[k]) {
            Some(p) => {
                pairs.push(p);
                assert(pairs_view(pairs@) =~= before.push((p.0@, p.1@)));
            },
            None => {},
        }
        k = k + 1;
    }
    assert(ls.take(lines.len() as int) =~= ls);
    let mut best_bw: u64 = 0;
    let mut best: Option<usize> = None;
    let mut pending: Option<u64> = None;
    let mut i: usize = 0;
    while i < lines.len()
        invariant
            i <= lines.len(),
            ls == lines_view(lines@),
            ls.len() == lines.len(),
            pending == (if i >= 1 && is_stream_inf(ls[i - 1]) {
                stream_inf_bandwidth(ls[i - 1])
            } else {
                None
            }),
            match best {
                None => best_bw == 0 && forall|j: int| 0 <= j < i && is_variant(ls, j)
                    ==> variant_bandwidth(ls, j) == 0,
                Some(b) => {
                    &&& b < i
                    &&& is_variant(ls, b as int)
                    &&& variant_bandwidth(ls, b as int) == best_bw
                    &&& best_bw > 0
                    &&& forall|j: int| 0 <= j < b && is_variant(ls, j) ==> variant_bandwidth(ls, j)
                        < best_bw
                    &&& forall|j: int| b < j < i && is_variant(ls, j) ==> variant_bandwidth(ls, j)
                        <= best_bw
                },
            },
        decreases lines.len() - i,
    {
        let line = &lines[i];
        assert(ls[i as int] == line@);
        if is_stream_inf_exec(line) {
            pending = stream_inf_bandwidth_exec(line);
            proof {
                reveal_strlit("#EXT-X-STREAM-INF:");
                assert(line@.take(18)[0] == '#');
            }
            assert(!is_variant(ls, i as int));
        } else if line.len() > 0 && line[0] != '#' {
            assert(is_uri_line(ls[i as int]));
            if let Some(bw) = pending {
                assert(is_variant(ls, i as int) && variant_bandwidth(ls, i as int) == bw);
                if bw > best_bw {
                    best_bw = bw;
                    best = Some(i);
                }
            } else {
                assert(!is_variant(ls, i as int));
            }
            pending = None;
        } else {
            assert(!is_variant(ls, i as int));
            pending = None;
        }
        i = i + 1;
    }
    match best {
        None => None,
        Some(b) => {
            assert(is_best_variant(ls, b as int));
            Some((string_of(&lines[b]), pairs))
        },
    }
}



/// The first pair whose key (second part) is `key`.
pub open spec fn pair_with_key(pairs: Seq<(Seq<char>, Seq<char>)>, key: Seq<char>) -> Option<
    (Seq<char>, Seq<char>),
>
    decreases pairs.len(),
{
    if pairs.len() == 0 {
        None
    } else if pairs[0].1 == key {
        Some(pairs[0])
    } else {
        pair_with_key(pairs.drop_first(), key)
    }
}

/// Going through the configured `keys` in order, the first pair that carries the first
/// key that any pair carries.
pub open spec fn first_keyed(pairs: Seq<(Seq<char>, Seq<char>)>, keys: Seq<Seq<char>>) -> Option<
    (Seq<char>, Seq<char>),
>
    decreases keys.len(),
{
    if keys.len() == 0 {
        None
    } else {
        match pair_with_key(pairs, keys[0]) {
            Some(p) => Some(p),
            None => first_keyed(pairs, keys.drop_first()),
        }
    }
}

/// `url` with `psch` and `pkey` query parameters: those of the pair chosen by the
/// configured keys in their order (`first_keyed`), else those of the first pair; `url`
/// unchanged when there are no pairs.
pub open spec fn with_mouflon_params(
    url: Seq<char>,
    pairs: Seq<(Seq<char>, Seq<char>)>,
    keys: Seq<Seq<char>>,
) -> Seq<char> {
    if pairs.len() == 0 {
        url
    } else {
        let p = match first_keyed(pairs, keys) {
            Some(p) => p,
            None => pairs[0],
        };
        let sep = if url.contains('?') {
            "&"@
        } else {
            "?"@
        };
        url + sep + "psch="@ + p.0 + "&pkey="@ + p.1
    }
}

/// Index of the first pair whose key is `key`.
fn pair_index_with_key(pairs: &Vec<(String, String)>, key: &String) -> (r: Option<usize>)
    ensures
        match r {
            Some(i) => i < pairs.len() && pair_with_key(pairs_view(pairs@), key@) == Some(
                pairs_view(pairs@)[i as int],
            ),
            None => pair_with_key(pairs_view(pairs@), key@) is None,
        },
{
    let ghost pv = pairs_view(pairs@);
    let kc = chars_of(key.as_str());
    let mut i: usize = 0;
    assert(pv.skip(0) =~= pv);
    while i < pairs.len()
        invariant
            i <= pairs.len(),
            pv == pairs_view(pairs@),
            pv.len() == pairs.len(),
            kc@ == key@,
            pair_with_key(pv, key@) == pair_with_key(pv.skip(i as int), key@),
        decreases pairs.len() - i,
    {
        assert(pv.skip(i as int).drop_first() =~= pv.skip(i + 1));
        assert(pv.skip(i as int)[0] == pv[i as int]);
        assert(pv[i as int] == (pairs@[i as int].0@, pairs@[i as int].1@));
        if chars_eq(&chars_of(pairs[i].1.as_str()), &kc) {
            return Some(i);
        }
        i = i + 1;
    }
    assert(pv.skip(i as int).len() == 0);
    None
}

/// `with_mouflon_params` of a variant URI, the playlist's pairs and the configured keys
/// in their order.
pub fn add_mouflon_params(url: &str, pairs: &Vec<(String, String)>, keys: &Vec<String>) -> (r: String)
    ensures
        r@ == with_mouflon_params(url@, pairs_view(pairs@), views(keys@)),
{
    if pairs.len() == 0 {
        return String::from_str(url);
    }
    let ghost pv = pairs_view(pairs@);
    let ghost kv = views(keys@);
    let mut chosen: usize = 0;
    let mut k: usize = 0;
    let mut found = false;
    assert(kv.skip(0) =~= kv);
    while k < keys.len() && !found
        invariant
            k <= keys.len(),
            pairs.len() > 0,
            pv == pairs_view(pairs@),
            pv.len() == pairs.len(),
            chosen < pairs.len(),
            !found ==> chosen == 0,
            kv == views(keys@),
            kv.len() == keys.len(),
            !found ==> first_keyed(pv, kv) == first_keyed(pv, kv.skip(k as int)),
            found ==> first_keyed(pv, kv) == Some(pv[chosen as int]),
        decreases keys.len() - k,
    {
        assert(kv.skip(k as int).drop_first() =~= kv.skip(k + 1));
        assert(kv.skip(k as int)[0] == kv[k as int]);
        assert(kv[k as int] == keys@[k as int]@);
        match pair_index_with_key(pairs, &keys[k]) {
            Some(i) => {
                chosen = i;
                found = true;
            },
            None => {},
        }
        k = k + 1;
    }
    if !found {
        assert(kv.skip(k as int).len() == 0);
    }
    let uc = chars_of(url);
    let mut out = uc.clone();
    assert(out@ == url@);
    if contains_char(&uc, '?') {
        push_str(&mut out, "&");
    } else {
        push_str(&mut out, "?");
    }
    push_str(&mut out, "psch=");
    push_str(&mut out, pairs[chosen].0.as_str());
    push_str(&mut out, "&pkey=");
    push_str(&mut out, pairs[chosen].1.as_str());
    assert(pv[chosen as int] == (pairs@[chosen as int].0@, pairs@[chosen as int].1@));
    assert(first_keyed(pv, kv) == (if found {
        Some(pv[chosen as int])
    } else {
        None::<(Seq<char>, Seq<char>)>
    }));
    let ghost p = match first_keyed(pv, kv) {
        Some(p) => p,
        None => pv[0],
    };
    assert(p == pv[chosen as int]);
    assert(out@ =~= with_mouflon_params(url@, pv, kv));
    string_of(&out)
}

/// The playlist URI to record from a master playlist: the best variant with the
/// Mouflon parameters added; `StreamOffline(username)` when there is no variant of
/// positive bandwidth.
pub fn playlist_url_from_master(username: &str, master: &str, keys: &Vec<String>) -> (r: Result<
    String,
    AppError,
>)
    ensures
        ({
            let lines = playlist_lines(master@);
            match r {
                Err(e) => e@ == crate::error::ErrorView::StreamOffline(username@) && forall|i: int|
                    is_variant(lines, i) ==> variant_bandwidth(lines, i) == 0,
                Ok(u) => exists|i: int|
                    is_best_variant(lines, i) && u@ == with_mouflon_params(
                        lines[i],
                        mouflon_pairs(lines),
                        views(keys@),
                    ),
            }
        }),
{
    match parse_best_stream(master) {
        None => Err(AppError::StreamOffline(String::from_str(username))),
        Some((url, pairs)) => Ok(add_mouflon_params(url.as_str(), &pairs, keys)),
    }
}

} // verus!
