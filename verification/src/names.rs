//! Names around the clip operation: recognising URL inputs, deriving a title
//! from a path or URL, sanitising it into a file name, rendering timestamps,
//! and building the transcoder's subtitle filter string. All of it is plain
//! text work, specified character by character; paths are treated as
//! `/`-separated.

use vstd::prelude::*;

use crate::text::{
    chars_of, contains_sub, contains_vec, starts_with, starts_with_vec, string_of, sub_at,
};

verus! {

/// The scheme prefix of a plain HTTP URL.
pub open spec fn http_prefix() -> Seq<char> {
    seq!['h', 't', 't', 'p', ':', '/', '/']
}

/// The scheme prefix of an HTTPS URL.
pub open spec fn https_prefix() -> Seq<char> {
    seq!['h', 't', 't', 'p', 's', ':', '/', '/']
}

/// Whether the input names a URL rather than a local file: it starts with
/// one of the two scheme prefixes.
pub fn is_url(s: &str) -> (r: bool)
    ensures
        r == (starts_with(s@, http_prefix()) || starts_with(s@, https_prefix())),
{
    let cs = chars_of(s);
    let http: Vec<char> = vec!['h', 't', 't', 'p', ':', '/', '/'];
    let https: Vec<char> = vec!['h', 't', 't', 'p', 's', ':', '/', '/'];
    proof {
        assert(http@ =~= http_prefix());
        assert(https@ =~= https_prefix());
    }
    starts_with_vec(&cs, &http) || starts_with_vec(&cs, &https)
}

/// The marker of a long YouTube host name.
pub open spec fn youtube_host() -> Seq<char> {
    seq!['y', 'o', 'u', 't', 'u', 'b', 'e', '.', 'c', 'o', 'm']
}

/// The marker of a short YouTube host name.
pub open spec fn youtube_short_host() -> Seq<char> {
    seq!['y', 'o', 'u', 't', 'u', '.', 'b', 'e']
}

/// Whether the input names a YouTube page: it contains one of the two host
/// markers.
pub fn is_youtube_url(s: &str) -> (r: bool)
    ensures
        r == (contains_sub(s@, youtube_host()) || contains_sub(s@, youtube_short_host())),
{
    let cs = chars_of(s);
    let long: Vec<char> = vec!['y', 'o', 'u', 't', 'u', 'b', 'e', '.', 'c', 'o', 'm'];
    let short: Vec<char> = vec!['y', 'o', 'u', 't', 'u', '.', 'b', 'e'];
    proof {
        assert(long@ =~= youtube_host());
        assert(short@ =~= youtube_short_host());
    }
    contains_vec(&cs, &long) || contains_vec(&cs, &short)
}

/// The last position of `c` strictly before `j`, if any.
pub open spec fn last_index_of(s: Seq<char>, c: char, j: int) -> Option<int>
    decreases j,
{
    if !(0 < j <= s.len()) {
        None
    } else if s[j - 1] == c {
        Some(j - 1)
    } else {
        last_index_of(s, c, j - 1)
    }
}

/// Finds the last position of `c` strictly before `j`.
fn rfind_char(s: &Vec<char>, c: char, j: usize) -> (r: Option<usize>)
    requires
        j <= s@.len(),
    ensures
        match r {
            Some(k) => last_index_of(s@, c, j as int) == Some(k as int) && k < j,
            None => last_index_of(s@, c, j as int) is None,
        },
{
    let mut k = j;
    loop
        invariant
            k <= j <= s@.len(),
            last_index_of(s@, c, j as int) == last_index_of(s@, c, k as int),
        ensures
            match last_index_of(s@, c, j as int) {
                Some(q) => k == q + 1 && k >= 1 && s@[k - 1] == c,
                None => k == 0,
            },
        decreases k,
    {
        if k == 0 {
            break ;
        }
        if s[k - 1] == c {
            break ;
        }
        k -= 1;
    }
    if k == 0 {
        None
    } else {
        Some(k - 1)
    }
}

/// The stem of a bare file name (no separator in it), as `Path::file_stem`
/// cuts it: everything before the final `'.'`, except that a name whose only
/// `'.'` leads it is kept whole, as is a name without one.
pub open spec fn stem_of(name: Seq<char>) -> Seq<char> {
    match last_index_of(name, '.', name.len() as int) {
        Some(j) => if j == 0 {
            name
        } else {
            name.subrange(0, j)
        },
        None => name,
    }
}

/// Whether a path segment is dropped when components are read: empty
/// segments and the current-directory marker.
pub open spec fn skipped_segment(seg: Seq<char>) -> bool {
    seg.len() == 0 || seg == seq!['.']
}

/// The last kept segment of `segs`, if any; a trailing parent-directory
/// marker leaves no usable name.
pub open spec fn last_component_of(segs: Seq<Seq<char>>, i: int) -> Option<Seq<char>>
    decreases i,
{
    if !(0 < i <= segs.len()) {
        None
    } else if skipped_segment(segs[i - 1]) {
        last_component_of(segs, i - 1)
    } else if segs[i - 1] == seq!['.', '.'] {
        None
    } else {
        Some(segs[i - 1])
    }
}

/// The fallback title when a path or URL yields no usable name.
pub open spec fn fallback_title() -> Seq<char> {
    seq!['v', 'i', 'd', 'e', 'o']
}

/// What `get_filename_from_path` yields: the stem of the path's last kept
/// `/`-separated component, or `video` when there is none.
pub open spec fn title_from_path(path: Seq<char>) -> Seq<char> {
    match last_component_of(crate::text::split_on_from(path, seq!['/'], 0), crate::text::split_on_from(path, seq!['/'], 0).len() as int) {
        Some(name) => stem_of(name),
        None => fallback_title(),
    }
}

/// Whether a segment names no file on its own: empty, or only dots that
/// mean the current or the parent directory.
fn is_skipped_or_parent(seg: &Vec<char>) -> (r: (bool, bool))
    ensures
        r.0 == skipped_segment(seg@),
        r.1 == (seg@ == seq!['.', '.']),
{
    let skipped = seg.len() == 0 || (seg.len() == 1 && seg[0] == '.');
    let parent = seg.len() == 2 && seg[0] == '.' && seg[1] == '.';
    proof {
        if seg@.len() == 1 && seg@[0] == '.' {
            assert(seg@ =~= seq!['.']);
        }
        if seg@ == seq!['.'] {
            assert(seg@.len() == 1 && seg@[0] == '.');
        }
        if seg@.len() == 2 && seg@[0] == '.' && seg@[1] == '.' {
            assert(seg@ =~= seq!['.', '.']);
        }
        if seg@ == seq!['.', '.'] {
            assert(seg@.len() == 2);
        }
    }
    (skipped, parent)
}

/// The stem of a bare name.
fn stem_vec(name: &Vec<char>) -> (r: Vec<char>)
    ensures
        r@ == stem_of(name@),
{
    match rfind_char(name, '.', name.len()) {
        Some(j) => {
            if j == 0 {
                let mut out: Vec<char> = Vec::new();
                crate::text::push_range(&mut out, name, 0, name.len());
                proof {
                    assert(out@ =~= name@);
                }
                out
            } else {
                let mut out: Vec<char> = Vec::new();
                crate::text::push_range(&mut out, name, 0, j);
                proof {
                    assert(out@ =~= name@.subrange(0, j as int));
                }
                out
            }
        },
        None => {
            let mut out: Vec<char> = Vec::new();
            crate::text::push_range(&mut out, name, 0, name.len());
            proof {
                assert(out@ =~= name@);
            }
            out
        },
    }
}

/// Derives a display title from a local file path: the file name without its
/// extension, or `video` when the path has no usable name.
pub fn get_filename_from_path(path: &str) -> (r: String)
    ensures
        r@ == title_from_path(path@),
{
    let cs = chars_of(path);
    let slash: Vec<char> = vec!['/'];
    proof {
        assert(slash@ =~= seq!['/']);
    }
    let segs = crate::text::split_on_vec(&cs, &slash);
    match last_component_idx(&segs) {
        Some(i) => {
            proof {
                assert(segs.deep_view()[i as int] == segs@[i as int]@);
            }
            let stem = stem_vec(&segs[i]);
            string_of(&stem)
        },
        None => {
            let fb: Vec<char> = vec!['v', 'i', 'd', 'e', 'o'];
            proof {
                assert(fb@ =~= fallback_title());
            }
            string_of(&fb)
        },
    }
}

/// What `get_filename_from_url` yields: the part after the last `/`, cut
/// before the first `?`, reduced to its stem when it names a file and kept
/// whole otherwise.
pub open spec fn title_from_url(url: Seq<char>) -> Seq<char> {
    let seg = match last_index_of(url, '/', url.len() as int) {
        Some(j) => url.subrange(j + 1, url.len() as int),
        None => url,
    };
    let cut = match crate::text::find_from(seg, seq!['?'], 0) {
        Some(q) => seg.subrange(0, q),
        None => seg,
    };
    if cut.len() == 0 || cut == seq!['.'] || cut == seq!['.', '.'] {
        cut
    } else {
        stem_of(cut)
    }
}

/// Derives a display title from a URL: the name its path ends in, without
/// query string or extension.
pub fn get_filename_from_url(url: &str) -> (r: String)
    ensures
        r@ == title_from_url(url@),
{
    let cs = chars_of(url);
    let seg: Vec<char> = match rfind_char(&cs, '/', cs.len()) {
        Some(j) => {
            let mut v: Vec<char> = Vec::new();
            crate::text::push_range(&mut v, &cs, j + 1, cs.len());
            v
        },
        None => {
            let mut v: Vec<char> = Vec::new();
            crate::text::push_range(&mut v, &cs, 0, cs.len());
            proof {
                assert(v@ =~= cs@);
            }
            v
        },
    };
    let qm: Vec<char> = vec!['?'];
    proof {
        assert(qm@ =~= seq!['?']);
    }
    let cut: Vec<char> = match crate::text::find_sub(&seg, &qm, 0) {
        Some(q) => {
            proof {
                crate::text::lemma_find_from_some(seg@, qm@, 0, q as int);
            }
            let mut v: Vec<char> = Vec::new();
            crate::text::push_range(&mut v, &seg, 0, q);
            v
        },
        None => {
            let mut v: Vec<char> = Vec::new();
            crate::text::push_range(&mut v, &seg, 0, seg.len());
            proof {
                assert(v@ =~= seg@);
            }
            v
        },
    };
    let (skipped, parent) = is_skipped_or_parent(&cut);
    if skipped || parent {
        return string_of(&cut);
    }
    let stem = stem_vec(&cut);
    string_of(&stem)
}

/// A character the file system may refuse, replaced when a title becomes a
/// file name.
pub open spec fn sanitized_char(c: char) -> char {
    if c == '<' || c == '>' || c == ':' || c == '"' || c == '/' || c == '\\' || c == '|' || c
        == '?' || c == '*' {
        '_'
    } else {
        c
    }
}

/// What `sanitize_filename` yields: each refused character replaced by an
/// underscore, the result cut to at most 50 characters.
pub open spec fn sanitize_spec(s: Seq<char>) -> Seq<char> {
    Seq::new(
        if s.len() <= 50 {
            s.len()
        } else {
            50
        },
        |i: int| sanitized_char(s[i]),
    )
}

/// Makes a title safe to use as a file name.
pub fn sanitize_filename(name: &str) -> (r: String)
    ensures
        r@ == sanitize_spec(name@),
{
    let cs = chars_of(name);
    let n = if cs.len() <= 50 {
        cs.len()
    } else {
        50
    };
    let mut out: Vec<char> = Vec::new();
    let mut i: usize = 0;
    while i < n
        invariant
            i <= n <= cs@.len(),
            n == (if cs@.len() <= 50 {
                cs@.len() as int
            } else {
                50int
            }),
            out@.len() == i,
            forall|k: int| 0 <= k < i ==> out@[k] == sanitized_char(cs@[k]),
        decreases n - i,
    {
        let c = cs[i];
        if c == '<' || c == '>' || c == ':' || c == '"' || c == '/' || c == '\\' || c == '|' || c
            == '?' || c == '*' {
            out.push('_');
        } else {
            out.push(c);
        }
        i += 1;
    }
    proof {
        assert(out@ =~= sanitize_spec(name@));
    }
    string_of(&out)
}

/// The decimal digit `d` as a character.
pub open spec fn digit_char(d: int) -> char {
    if d == 0 {
        '0'
    } else if d == 1 {
        '1'
    } else if d == 2 {
        '2'
    } else if d == 3 {
        '3'
    } else if d == 4 {
        '4'
    } else if d == 5 {
        '5'
    } else if d == 6 {
        '6'
    } else if d == 7 {
        '7'
    } else if d == 8 {
        '8'
    } else {
        '9'
    }
}

/// The decimal digits of `n`, most significant first.
pub open spec fn dec_digits(n: int) -> Seq<char>
    decreases n,
{
    if n < 10 {
        seq![digit_char(n)]
    } else {
        dec_digits(n / 10).push(digit_char(n % 10))
    }
}

fn digit_char_exec(d: u64) -> (r: char)
    requires
        d < 10,
    ensures
        r == digit_char(d as int),
{
    if d == 0 {
        '0'
    } else if d == 1 {
        '1'
    } else if d == 2 {
        '2'
    } else if d == 3 {
        '3'
    } else if d == 4 {
        '4'
    } else if d == 5 {
        '5'
    } else if d == 6 {
        '6'
    } else if d == 7 {
        '7'
    } else if d == 8 {
        '8'
    } else {
        '9'
    }
}

/// The decimal digits of `n`.
pub fn dec_chars(n: u64) -> (r: Vec<char>)
    ensures
        r@ == dec_digits(n as int),
    decreases n,
{
    if n < 10 {
        let mut v: Vec<char> = Vec::new();
        v.push(digit_char_exec(n));
        proof {
            assert(v@ =~= dec_digits(n as int));
        }
        v
    } else {
        let mut v = dec_chars(n / 10);
        v.push(digit_char_exec(n % 10));
        v
    }
}

/// What `format_timestamp` yields for a time in milliseconds: whole minutes,
/// `m`, the leftover whole seconds, `s`.
pub open spec fn timestamp_label(ms: int) -> Seq<char> {
    dec_digits(ms / 60000) + seq!['m'] + dec_digits((ms / 1000) % 60) + seq!['s']
}

/// Renders a time as `MmSs` for use in a generated file name.
pub fn format_timestamp(ms: u64) -> (r: String)
    ensures
        r@ == timestamp_label(ms as int),
{
    let mut v = dec_chars(ms / 60000);
    v.push('m');
    let secs = dec_chars((ms / 1000) % 60);
    crate::text::push_range(&mut v, &secs, 0, secs.len());
    v.push('s');
    proof {
        assert(secs@.subrange(0, secs@.len() as int) =~= secs@);
        assert(v@ =~= timestamp_label(ms as int));
    }
    string_of(&v)
}

/// How one character of a subtitle path is written inside the filter string:
/// backslashes, colons and single quotes get a backslash before them.
pub open spec fn escaped_char(c: char) -> Seq<char> {
    if c == '\\' {
        seq!['\\', '\\']
    } else if c == ':' {
        seq!['\\', ':']
    } else if c == '\'' {
        seq!['\\', '\'']
    } else {
        seq![c]
    }
}

/// The escaped form of `s[i..]`.
pub open spec fn escape_from(s: Seq<char>, i: int) -> Seq<char>
    decreases s.len() - i,
{
    if !(0 <= i < s.len()) {
        Seq::empty()
    } else {
        escaped_char(s[i]) + escape_from(s, i + 1)
    }
}

/// The head of the filter string, before the escaped path.
pub open spec fn filter_head() -> Seq<char> {
    seq!['s', 'u', 'b', 't', 'i', 't', 'l', 'e', 's', '=', '\'']
}

/// The whole transcoder filter string burning the subtitles at `p` in.
pub open spec fn subtitle_filter_of(p: Seq<char>) -> Seq<char> {
    filter_head() + escape_from(p, 0) + seq!['\'']
}

/// Builds the transcoder's subtitle filter string, when a subtitle file is
/// at hand: the path with backslashes, colons and quotes escaped, wrapped in
/// `subtitles='...'`.
pub fn build_subtitle_filter(sub_path: &Option<String>) -> (r: Option<String>)
    ensures
        r is Some <==> sub_path is Some,
        r matches Some(f) ==> f@ == subtitle_filter_of(sub_path->0@),
{
    match sub_path {
        Some(p) => {
            let cs = chars_of(p.as_str());
            let mut out: Vec<char> = vec![
                's',
                'u',
                'b',
                't',
                'i',
                't',
                'l',
                'e',
                's',
                '=',
                '\'',
            ];
            proof {
                assert(out@ =~= filter_head());
            }
            let mut i: usize = 0;
            while i < cs.len()
                invariant
                    i <= cs@.len(),
                    out@ + escape_from(cs@, i as int) == filter_head() + escape_from(cs@, 0),
                decreases cs@.len() - i,
            {
                let c = cs[i];
                let ghost oold = out@;
                if c == '\\' {
                    out.push('\\');
                    out.push('\\');
                } else if c == ':' {
                    out.push('\\');
                    out.push(':');
                } else if c == '\'' {
                    out.push('\\');
                    out.push('\'');
                } else {
                    out.push(c);
                }
                proof {
                    assert(out@ =~= oold + escaped_char(cs@[i as int]));
                    assert(out@ + escape_from(cs@, i + 1) =~= filter_head() + escape_from(cs@, 0));
                }
                i += 1;
            }
            out.push('\'');
            proof {
                assert(out@ =~= subtitle_filter_of(p@));
            }
            Some(string_of(&out))
        },
        None => None,
    }
}

/// The last kept component of a `/`-separated path, if any.
fn last_component_idx(segs: &Vec<Vec<char>>) -> (r: Option<usize>)
    ensures
        match r {
            Some(i) => i < segs@.len() && last_component_of(segs.deep_view(), segs.deep_view().len() as int)
                == Some(segs.deep_view()[i as int]),
            None => last_component_of(segs.deep_view(), segs.deep_view().len() as int) is None,
        },
{
    let ghost sv = segs.deep_view();
    let mut i = segs.len();
    loop
        invariant
            i <= segs@.len(),
            sv == segs.deep_view(),
            last_component_of(sv, sv.len() as int) == last_component_of(sv, i as int),
        ensures
            match last_component_of(sv, sv.len() as int) {
                Some(name) => i >= 1 && name == sv[i - 1],
                None => i == 0 || sv[i - 1] == seq!['.', '.'],
            },
            i <= segs@.len(),
        decreases i,
    {
        if i == 0 {
            break ;
        }
        proof {
            assert(sv[i - 1] == segs@[i - 1]@);
        }
        let (skipped, _parent) = is_skipped_or_parent(&segs[i - 1]);
        if skipped {
            i -= 1;
        } else {
            break ;
        }
    }
    if i == 0 {
        return None;
    }
    proof {
        assert(sv[i - 1] == segs@[i - 1]@);
    }
    let (_skipped, parent) = is_skipped_or_parent(&segs[i - 1]);
    if parent {
        None
    } else {
        Some(i - 1)
    }
}

/// Whether a path carries the SubRip extension: its last kept component ends
/// in `.srt` with a nonempty stem before the dot.
pub open spec fn has_srt_extension(p: Seq<char>) -> bool {
    let segs = crate::text::split_on_from(p, seq!['/'], 0);
    match last_component_of(segs, segs.len() as int) {
        Some(n) => match last_index_of(n, '.', n.len() as int) {
            Some(j) => j > 0 && n.subrange(j + 1, n.len() as int) == seq!['s', 'r', 't'],
            None => false,
        },
        None => false,
    }
}

/// Whether a path is a subtitle candidate for the wanted language: it has
/// the SubRip extension and mentions the language code somewhere.
pub open spec fn subtitle_candidate(p: Seq<char>, lang: Seq<char>) -> bool {
    has_srt_extension(p) && contains_sub(p, lang)
}

/// Decides `subtitle_candidate`.
fn is_subtitle_candidate(p: &String, lang: &Vec<char>) -> (r: bool)
    ensures
        r == subtitle_candidate(p@, lang@),
{
    let cs = chars_of(p.as_str());
    let slash: Vec<char> = vec!['/'];
    proof {
        assert(slash@ =~= seq!['/']);
    }
    let segs = crate::text::split_on_vec(&cs, &slash);
    let ext_ok: bool = match last_component_idx(&segs) {
        Some(i) => {
            proof {
                assert(segs.deep_view()[i as int] == segs@[i as int]@);
            }
            let name = &segs[i];
            match rfind_char(name, '.', name.len()) {
                Some(j) => {
                    let srt: Vec<char> = vec!['s', 'r', 't'];
                    proof {
                        assert(srt@ =~= seq!['s', 'r', 't']);
                    }
                    if j > 0 && name.len() >= 4 && j == name.len() - 4 && crate::text::match_at(name, &srt, j + 1) {
                        proof {
                            assert(name@.subrange(j + 1, name@.len() as int) =~= seq![
                                's',
                                'r',
                                't',
                            ]);
                        }
                        true
                    } else {
                        proof {
                            if j > 0 && name@.subrange(j + 1, name@.len() as int) == seq![
                                's',
                                'r',
                                't',
                            ] {
                                assert(name@.subrange(j + 1, name@.len() as int).len() == 3);
                                assert(name@.len() == j + 4);
                                assert(name@.subrange(j + 1, name@.len() as int) =~= name@.subrange(
                                    j + 1,
                                    j + 1 + 3,
                                ));
                                assert(sub_at(name@, srt@, j + 1));
                            }
                        }
                        false
                    }
                },
                None => false,
            }
        },
        None => false,
    };
    ext_ok && contains_vec(&cs, lang)
}

/// Picks the subtitle file to use among candidate paths: of those that carry
/// the SubRip extension and mention the language code, the one with the
/// fewest characters, the earliest among equals; the index of the pick.
pub fn pick_subtitle_file(paths: &Vec<String>, lang: &str) -> (r: Option<usize>)
    ensures
        match r {
            Some(i) => i < paths@.len() && subtitle_candidate(paths@[i as int]@, lang@) && forall|
                j: int,
            |
                0 <= j < paths@.len() && subtitle_candidate(#[trigger] paths@[j]@, lang@)
                    ==> paths@[i as int]@.len() <= paths@[j]@.len() && (paths@[j]@.len()
                    == paths@[i as int]@.len() ==> i <= j),
            None => forall|j: int|
                0 <= j < paths@.len() ==> !subtitle_candidate(#[trigger] paths@[j]@, lang@),
        },
{
    let lang_cs = chars_of(lang);
    let mut best: Option<(usize, usize)> = None;
    let mut e: usize = 0;
    let n = paths.len();
    while e < n
        invariant
            e <= n,
            n == paths@.len(),
            lang_cs@ == lang@,
            match best {
                Some((bi, bl)) => bi < e && subtitle_candidate(paths@[bi as int]@, lang@) && bl
                    == paths@[bi as int]@.len() && forall|j: int|
                    0 <= j < e && subtitle_candidate(#[trigger] paths@[j]@, lang@) ==> bl
                        <= paths@[j]@.len() && (paths@[j]@.len() == bl ==> bi <= j),
                None => forall|j: int|
                    0 <= j < e ==> !subtitle_candidate(#[trigger] paths@[j]@, lang@),
            },
        decreases n - e,
    {
        if is_subtitle_candidate(&paths[e], &lang_cs) {
            let l = crate::text::chars_of(paths[e].as_str()).len();
            best = match best {
                Some((bi, bl)) => if l < bl {
                    Some((e, l))
                } else {
                    Some((bi, bl))
                },
                None => Some((e, l)),
            };
        }
        e += 1;
    }
    match best {
        Some((bi, _)) => Some(bi),
        None => None,
    }
}

/// The whole video filter chain handed to the transcoder: the subtitle
/// filter first when there is one, then the frame rate, then the scale to
/// the wanted width, with the sharper scaling flag when asked for.
pub open spec fn filter_chain_spec(
    sub: Option<Seq<char>>,
    fps: int,
    width: int,
    lanczos: bool,
) -> Seq<char> {
    (match sub {
        Some(f) => f + seq![','],
        None => Seq::empty(),
    }) + seq!['f', 'p', 's', '='] + dec_digits(fps) + seq![','] + seq![
        's',
        'c',
        'a',
        'l',
        'e',
        '=',
    ] + dec_digits(width) + seq![':', '-', '1'] + (if lanczos {
        seq![':', 'f', 'l', 'a', 'g', 's', '=', 'l', 'a', 'n', 'c', 'z', 'o', 's']
    } else {
        Seq::empty()
    })
}

/// Builds the transcoder's video filter chain.
pub fn video_filter_chain(sub_filter: &Option<String>, fps: u32, width: u32, lanczos: bool) -> (r:
    String)
    ensures
        r@ == filter_chain_spec(
            match sub_filter {
                Some(f) => Some(f@),
                None => None,
            },
            fps as int,
            width as int,
            lanczos,
        ),
{
    let ghost sub_view: Option<Seq<char>> = match sub_filter {
        Some(f) => Some(f@),
        None => None,
    };
    let mut out: Vec<char> = Vec::new();
    match sub_filter {
        Some(f) => {
            let fc = chars_of(f.as_str());
            crate::text::push_range(&mut out, &fc, 0, fc.len());
            out.push(',');
            proof {
                assert(fc@.subrange(0, fc@.len() as int) =~= fc@);
            }
        },
        None => {},
    }
    let ghost p0 = match sub_view {
        Some(f) => f + seq![','],
        None => Seq::<char>::empty(),
    };
    proof {
        assert(out@ =~= p0);
    }
    let fps_lit: Vec<char> = vec!['f', 'p', 's', '='];
    crate::text::push_range(&mut out, &fps_lit, 0, fps_lit.len());
    let ghost p1 = p0 + seq!['f', 'p', 's', '='];
    proof {
        assert(fps_lit@.subrange(0, fps_lit@.len() as int) =~= fps_lit@);
        assert(out@ =~= p1);
    }
    let fd = dec_chars(fps as u64);
    crate::text::push_range(&mut out, &fd, 0, fd.len());
    let ghost p2 = p1 + dec_digits(fps as int);
    proof {
        assert(fd@.subrange(0, fd@.len() as int) =~= fd@);
        assert(out@ =~= p2);
    }
    let scale_lit: Vec<char> = vec![',', 's', 'c', 'a', 'l', 'e', '='];
    crate::text::push_range(&mut out, &scale_lit, 0, scale_lit.len());
    let ghost p3 = p2 + seq![','] + seq!['s', 'c', 'a', 'l', 'e', '='];
    proof {
        assert(scale_lit@.subrange(0, scale_lit@.len() as int) =~= scale_lit@);
        assert(out@ =~= p3);
    }
    let wd = dec_chars(width as u64);
    crate::text::push_range(&mut out, &wd, 0, wd.len());
    let ghost p4 = p3 + dec_digits(width as int);
    proof {
        assert(wd@.subrange(0, wd@.len() as int) =~= wd@);
        assert(out@ =~= p4);
    }
    let tail_lit: Vec<char> = vec![':', '-', '1'];
    crate::text::push_range(&mut out, &tail_lit, 0, tail_lit.len());
    let ghost p5 = p4 + seq![':', '-', '1'];
    proof {
        assert(tail_lit@.subrange(0, tail_lit@.len() as int) =~= tail_lit@);
        assert(out@ =~= p5);
    }
    if lanczos {
        let flag_lit: Vec<char> = vec![
            ':',
            'f',
            'l',
            'a',
            'g',
            's',
            '=',
            'l',
            'a',
            'n',
            'c',
            'z',
            'o',
            's',
        ];
        crate::text::push_range(&mut out, &flag_lit, 0, flag_lit.len());
        proof {
            assert(flag_lit@.subrange(0, flag_lit@.len() as int) =~= flag_lit@);
            assert(out@ =~= filter_chain_spec(sub_view, fps as int, width as int, lanczos));
        }
    } else {
        proof {
            assert(out@ =~= filter_chain_spec(sub_view, fps as int, width as int, lanczos));
        }
    }
    string_of(&out)
}

} // verus!
