//! Dialogue resolution: locating the subtitle entry a free-text quote
//! denotes, and deriving a padded clip range from one or two matched entries.
//!
//! Matching is a three-tier cascade over the lowercased entry texts, each
//! tier scanning the entries in track order:
//! first the whole query as a contiguous substring, then the query's words in
//! order at non-decreasing positions, and last a fuzzy majority count that
//! accepts the first entry holding the most query words, provided that count
//! reaches half the word count (rounded down).

use vstd::prelude::*;

use crate::srt::{EntryView, SubtitleEntry, MAX_TIME_MS};
use crate::text::{
    chars_of, contains_sub, contains_vec, find_from, find_sub, lemma_find_from_none,
    lemma_find_from_some, split_ws_from, split_ws_vec, sub_at,
};

verus! {

/// The largest padding the clip computation accepts, in milliseconds.
pub const MAX_PAD_MS: u64 = 1000000000000;

/// Default padding around a single matched entry, in milliseconds.
pub const DEFAULT_SINGLE_PAD_MS: u64 = 2000;

/// Default padding around a from/to range, in milliseconds.
pub const DEFAULT_RANGE_PAD_MS: u64 = 500;

/// What `str::to_lowercase` returns for a string with these characters: a
/// function of the characters alone.
pub uninterp spec fn lower_of(s: Seq<char>) -> Seq<char>;

/// Relies on `str::to_lowercase`: the lowercase equivalent of `s`, a function
/// of the characters alone; an empty string stays empty.
#[verifier::external_body]
fn to_lower(s: &str) -> (r: String)
    ensures
        r@ == lower_of(s@),
        s@.len() == 0 ==> r@.len() == 0,
{
    s.to_lowercase()
}

/// The characters of the lowercase equivalent of `s`.
pub fn lower_chars(s: &str) -> (r: Vec<char>)
    ensures
        r@ == lower_of(s@),
{
    let l = to_lower(s);
    chars_of(l.as_str())
}

/// Why a lookup failed.
#[derive(Debug, Clone)]
pub enum ResolveError {
    /// No tier matched the quoted text; carries the query as given.
    NotFound { query: String },
    /// The `to` match ends before the `from` match starts; carries both
    /// matched entries' timings, in milliseconds.
    InvalidRange { from_start_ms: u64, from_end_ms: u64, to_start_ms: u64, to_end_ms: u64 },
}

/// The first entry at or after `e` whose text contains `q` as a contiguous
/// run: the exact-substring tier.
pub open spec fn first_idx_contains(texts: Seq<Seq<char>>, q: Seq<char>, e: int) -> Option<int>
    decreases texts.len() - e,
{
    if !(0 <= e < texts.len()) {
        None
    } else if contains_sub(texts[e], q) {
        Some(e)
    } else {
        first_idx_contains(texts, q, e + 1)
    }
}

/// The words `ws[k..]` all occur in `t`, in order, each at or after the end
/// of the one before, the first at or after `from`.
pub open spec fn words_in_order_from(t: Seq<char>, ws: Seq<Seq<char>>, k: int, from: int) -> bool
    decreases ws.len() - k,
{
    if !(0 <= k < ws.len()) {
        true
    } else {
        exists|p: int|
            from <= p && #[trigger] sub_at(t, ws[k], p) && words_in_order_from(
                t,
                ws,
                k + 1,
                p + ws[k].len(),
            )
    }
}

/// All words occur in order in `t`.
pub open spec fn words_in_order(t: Seq<char>, ws: Seq<Seq<char>>) -> bool {
    words_in_order_from(t, ws, 0, 0)
}

/// The first entry at or after `e` whose text holds all the words in order:
/// the ordered-word tier.
pub open spec fn first_idx_ordered(texts: Seq<Seq<char>>, ws: Seq<Seq<char>>, e: int) -> Option<
    int,
>
    decreases texts.len() - e,
{
    if !(0 <= e < texts.len()) {
        None
    } else if words_in_order(texts[e], ws) {
        Some(e)
    } else {
        first_idx_ordered(texts, ws, e + 1)
    }
}

/// How many of the words `ws[k..]` occur somewhere in `t`.
pub open spec fn count_matching(t: Seq<char>, ws: Seq<Seq<char>>, k: int) -> int
    decreases ws.len() - k,
{
    if !(0 <= k < ws.len()) {
        0
    } else {
        (if contains_sub(t, ws[k]) {
            1int
        } else {
            0int
        }) + count_matching(t, ws, k + 1)
    }
}

/// Folds the fuzzy tier over `texts[e..]` starting from the best hit `cur`
/// (an index and its count): an entry with at least one matching word
/// replaces the best only when its count is strictly greater, so the first
/// seen wins ties.
pub open spec fn fuzzy_best(
    texts: Seq<Seq<char>>,
    ws: Seq<Seq<char>>,
    e: int,
    cur: Option<(int, int)>,
) -> Option<(int, int)>
    decreases texts.len() - e,
{
    if !(0 <= e < texts.len()) {
        cur
    } else {
        let c = count_matching(texts[e], ws, 0);
        let nxt = match cur {
            Some((bi, bc)) => if c > 0 && c > bc {
                Some((e, c))
            } else {
                cur
            },
            None => if c > 0 {
                Some((e, c))
            } else {
                None
            },
        };
        fuzzy_best(texts, ws, e + 1, nxt)
    }
}

/// What the fuzzy tier picks: the best hit, accepted only when its count
/// reaches half the word count, rounded down.
pub open spec fn fuzzy_pick(texts: Seq<Seq<char>>, ws: Seq<Seq<char>>) -> Option<int> {
    match fuzzy_best(texts, ws, 0, None) {
        Some((e, c)) => if c >= ws.len() / 2 {
            Some(e)
        } else {
            None
        },
        None => None,
    }
}

/// The whole cascade over already-lowercased texts and query: exact
/// substring first, then ordered words, then the fuzzy majority.
pub open spec fn resolve_query(texts: Seq<Seq<char>>, q: Seq<char>) -> Option<int> {
    let ws = split_ws_from(q, 0);
    match first_idx_contains(texts, q, 0) {
        Some(e) => Some(e),
        None => match first_idx_ordered(texts, ws, 0) {
            Some(e) => Some(e),
            None => fuzzy_pick(texts, ws),
        },
    }
}

proof fn lemma_wio_mono(t: Seq<char>, ws: Seq<Seq<char>>, k: int, from1: int, from2: int)
    requires
        from1 <= from2,
        words_in_order_from(t, ws, k, from2),
    ensures
        words_in_order_from(t, ws, k, from1),
{
    if 0 <= k < ws.len() {
        let p = choose|p: int|
            from2 <= p && #[trigger] sub_at(t, ws[k], p) && words_in_order_from(
                t,
                ws,
                k + 1,
                p + ws[k].len(),
            );
        assert(from1 <= p && sub_at(t, ws[k], p) && words_in_order_from(
            t,
            ws,
            k + 1,
            p + ws[k].len(),
        ));
    }
}

/// The greedy scan is complete: when the words `ws[k..]` occur in order from
/// `from`, taking the leftmost occurrence of `ws[k]` still leaves the rest
/// placeable.
proof fn lemma_wio_greedy(t: Seq<char>, ws: Seq<Seq<char>>, k: int, from: int)
    requires
        0 <= k < ws.len(),
        0 <= from,
        words_in_order_from(t, ws, k, from),
    ensures
        find_from(t, ws[k], from) is Some,
        words_in_order_from(t, ws, k + 1, find_from(t, ws[k], from)->0 + ws[k].len()),
{
    let p = choose|p: int|
        from <= p && #[trigger] sub_at(t, ws[k], p) && words_in_order_from(
            t,
            ws,
            k + 1,
            p + ws[k].len(),
        );
    if find_from(t, ws[k], from) is None {
        lemma_find_from_none(t, ws[k], from);
        assert(false);
    }
    let g = find_from(t, ws[k], from)->0;
    lemma_find_from_some(t, ws[k], from, g);
    assert(g <= p);
    lemma_wio_mono(t, ws, k + 1, g + ws[k].len(), p + ws[k].len());
}

/// Decides `words_in_order` by the greedy scan: each word is looked for at
/// or after the end of the previous word's leftmost occurrence.
pub fn words_in_order_vec(t: &Vec<char>, ws: &Vec<Vec<char>>) -> (r: bool)
    ensures
        r == words_in_order(t@, ws.deep_view()),
{
    let ghost wsv = ws.deep_view();
    let mut k: usize = 0;
    let mut last_pos: usize = 0;
    loop
        invariant
            k <= ws@.len(),
            last_pos <= t@.len(),
            wsv == ws.deep_view(),
            words_in_order(t@, wsv) <==> words_in_order_from(t@, wsv, k as int, last_pos as int),
        decreases ws@.len() - k,
    {
        if k == ws.len() {
            return true;
        }
        proof {
            assert(wsv[k as int] == ws@[k as int]@);
        }
        match find_sub(t, &ws[k], last_pos) {
            Some(g) => {
                proof {
                    lemma_find_from_some(t@, wsv[k as int], last_pos as int, g as int);
                    if words_in_order(t@, wsv) {
                        lemma_wio_greedy(t@, wsv, k as int, last_pos as int);
                    }
                    if words_in_order_from(t@, wsv, k + 1, g + wsv[k as int].len()) {
                        assert(last_pos <= g as int && sub_at(t@, wsv[k as int], g as int)
                            && words_in_order_from(t@, wsv, k + 1, g + wsv[k as int].len()));
                        assert(words_in_order_from(t@, wsv, k as int, last_pos as int));
                    }
                }
                let tlen = t.len();
                proof {
                    assert(g + ws@[k as int]@.len() <= tlen);
                }
                last_pos = g + ws[k].len();
                k += 1;
            },
            None => {
                proof {
                    lemma_find_from_none(t@, wsv[k as int], last_pos as int);
                    if words_in_order_from(t@, wsv, k as int, last_pos as int) {
                        let p = choose|p: int|
                            last_pos <= p && #[trigger] sub_at(t@, wsv[k as int], p)
                                && words_in_order_from(t@, wsv, k + 1, p + wsv[k as int].len());
                        assert(false);
                    }
                }
                return false;
            },
        }
    }
}

/// How many of the words occur somewhere in `t`.
pub fn count_matching_vec(t: &Vec<char>, ws: &Vec<Vec<char>>) -> (r: usize)
    ensures
        r as int == count_matching(t@, ws.deep_view(), 0),
        r <= ws@.len(),
{
    let ghost wsv = ws.deep_view();
    let mut k: usize = 0;
    let mut cnt: usize = 0;
    while k < ws.len()
        invariant
            k <= ws@.len(),
            cnt <= k,
            wsv == ws.deep_view(),
            cnt + count_matching(t@, wsv, k as int) == count_matching(t@, wsv, 0),
        decreases ws@.len() - k,
    {
        proof {
            assert(wsv[k as int] == ws@[k as int]@);
        }
        if contains_vec(t, &ws[k]) {
            cnt += 1;
        }
        k += 1;
    }
    cnt
}

/// The ghost value of the running fuzzy best.
spec fn best_view(cur: Option<(usize, usize)>) -> Option<(int, int)> {
    match cur {
        Some((e, c)) => Some((e as int, c as int)),
        None => None,
    }
}

/// Runs the cascade over already-lowercased texts and query and returns the
/// index of the matched entry, if any tier matches.
pub fn resolve_lowered(texts: &Vec<Vec<char>>, q: &Vec<char>) -> (r: Option<usize>)
    ensures
        match r {
            Some(e) => resolve_query(texts.deep_view(), q@) == Some(e as int) && e < texts@.len(),
            None => resolve_query(texts.deep_view(), q@) is None,
        },
{
    let ghost tv = texts.deep_view();
    let ws = split_ws_vec(q);
    let ghost wsv = ws.deep_view();
    let n = texts.len();
    // exact substring tier
    let mut e: usize = 0;
    while e < n
        invariant
            e <= n,
            n == texts@.len(),
            tv == texts.deep_view(),
            first_idx_contains(tv, q@, 0) == first_idx_contains(tv, q@, e as int),
        decreases n - e,
    {
        proof {
            assert(tv[e as int] == texts@[e as int]@);
        }
        if contains_vec(&texts[e], q) {
            return Some(e);
        }
        e += 1;
    }
    // ordered-word tier
    let mut e2: usize = 0;
    while e2 < n
        invariant
            e2 <= n,
            n == texts@.len(),
            tv == texts.deep_view(),
            wsv == ws.deep_view(),
            wsv == split_ws_from(q@, 0),
            first_idx_contains(tv, q@, 0) is None,
            first_idx_ordered(tv, wsv, 0) == first_idx_ordered(tv, wsv, e2 as int),
        decreases n - e2,
    {
        proof {
            assert(tv[e2 as int] == texts@[e2 as int]@);
        }
        if words_in_order_vec(&texts[e2], &ws) {
            return Some(e2);
        }
        e2 += 1;
    }
    // fuzzy majority tier
    let mut e3: usize = 0;
    let mut best: Option<(usize, usize)> = None;
    while e3 < n
        invariant
            e3 <= n,
            n == texts@.len(),
            tv == texts.deep_view(),
            wsv == ws.deep_view(),
            wsv == split_ws_from(q@, 0),
            first_idx_contains(tv, q@, 0) is None,
            first_idx_ordered(tv, wsv, 0) is None,
            match best {
                Some((bi, bc)) => bi < n && bc <= ws@.len(),
                None => true,
            },
            fuzzy_best(tv, wsv, 0, None) == fuzzy_best(tv, wsv, e3 as int, best_view(best)),
        decreases n - e3,
    {
        proof {
            assert(tv[e3 as int] == texts@[e3 as int]@);
        }
        let c = count_matching_vec(&texts[e3], &ws);
        best = match best {
            Some((bi, bc)) => if c > 0 && c > bc {
                Some((e3, c))
            } else {
                Some((bi, bc))
            },
            None => if c > 0 {
                Some((e3, c))
            } else {
                None
            },
        };
        e3 += 1;
    }
    match best {
        Some((bi, bc)) => {
            if bc >= ws.len() / 2 {
                Some(bi)
            } else {
                None
            }
        },
        None => None,
    }
}

/// The lowercased texts of the entries, in track order.
pub open spec fn lowered_texts(evs: Seq<EntryView>) -> Seq<Seq<char>> {
    Seq::new(evs.len(), |i: int| lower_of(evs[i].text))
}

/// Finds the subtitle entry the quoted text denotes and returns its index.
///
/// The entry is the one the three-tier cascade picks over the lowercased
/// texts; when no tier matches, the lookup fails with the query it was given.
pub fn find_dialogue(entries: &Vec<SubtitleEntry>, query: &str) -> (r: Result<
    usize,
    ResolveError,
>)
    ensures
        match r {
            Ok(e) => e < entries@.len() && resolve_query(
                lowered_texts(entries.deep_view()),
                lower_of(query@),
            ) == Some(e as int),
            Err(err) => resolve_query(lowered_texts(entries.deep_view()), lower_of(query@))
                is None && (err matches ResolveError::NotFound { query: q } && q@ == query@),
        },
{
    let ghost evs = entries.deep_view();
    let mut lowered: Vec<Vec<char>> = Vec::new();
    let mut i: usize = 0;
    while i < entries.len()
        invariant
            i <= entries@.len(),
            evs == entries.deep_view(),
            lowered@.len() == i,
            forall|k: int| 0 <= k < i ==> lowered.deep_view()[k] == lower_of(evs[k].text),
        decreases entries@.len() - i,
    {
        let lc = lower_chars(entries[i].text.as_str());
        let ghost lold = lowered.deep_view();
        lowered.push(lc);
        proof {
            assert(entries@[i as int]@ == evs[i as int]);
            assert forall|k: int| 0 <= k < i + 1 implies lowered.deep_view()[k] == lower_of(
                evs[k].text,
            ) by {
                if k < i {
                    assert(lowered.deep_view()[k] == lold[k]);
                }
            }
        }
        i += 1;
    }
    proof {
        assert(lowered.deep_view() =~= lowered_texts(evs));
    }
    let q = lower_chars(query);
    match resolve_lowered(&lowered, &q) {
        Some(e) => Ok(e),
        None => Err(ResolveError::NotFound { query: query.to_owned() }),
    }
}

/// Padding around a resolved range, in milliseconds. A specific side
/// overrides the shared value, which overrides the mode's default.
#[derive(Debug, Clone, Copy)]
pub struct Padding {
    pub pad: Option<u64>,
    pub pad_before: Option<u64>,
    pub pad_after: Option<u64>,
}

impl Padding {
    /// No explicit padding: the mode's default applies on both sides.
    pub fn none() -> (r: Padding)
        ensures
            r.pad is None && r.pad_before is None && r.pad_after is None,
    {
        Padding { pad: None, pad_before: None, pad_after: None }
    }
}

/// The padding in force on one side: the side's own value if given, else the
/// shared value, else the mode's default.
pub open spec fn effective_pad(specific: Option<u64>, shared: Option<u64>, dflt: u64) -> u64 {
    match specific {
        Some(v) => v,
        None => match shared {
            Some(v) => v,
            None => dflt,
        },
    }
}

/// The padded start: the range start moved `pb` earlier, clamped at zero.
pub open spec fn padded_start(start_ms: int, pb: int) -> int {
    if start_ms >= pb {
        start_ms - pb
    } else {
        0
    }
}

/// Every explicit padding value is within what the arithmetic admits.
pub open spec fn padding_bounded(pads: Padding) -> bool {
    &&& (pads.pad matches Some(v) ==> v <= MAX_PAD_MS)
    &&& (pads.pad_before matches Some(v) ==> v <= MAX_PAD_MS)
    &&& (pads.pad_after matches Some(v) ==> v <= MAX_PAD_MS)
}

/// Every entry's times are within what a timing line can denote.
pub open spec fn times_bounded(evs: Seq<EntryView>) -> bool {
    forall|i: int|
        0 <= i < evs.len() ==> #[trigger] evs[i].start_ms <= MAX_TIME_MS && evs[i].end_ms
            <= MAX_TIME_MS
}

/// Picks the padding in force on one side.
fn pick_pad(specific: Option<u64>, shared: Option<u64>, dflt: u64) -> (r: u64)
    ensures
        r == effective_pad(specific, shared, dflt),
{
    match specific {
        Some(v) => v,
        None => match shared {
            Some(v) => v,
            None => dflt,
        },
    }
}

/// A resolved clip range, in milliseconds from the start of the track.
#[derive(Debug, Clone, Copy, PartialEq, Eq, Structural)]
pub struct ResolvedRange {
    pub start_ms: u64,
    pub end_ms: u64,
}

/// Resolves one or two quotes to a padded clip range.
///
/// The `from` quote is resolved by the cascade; with a `to` quote the range
/// runs from the `from` entry's start to the `to` entry's end, and the lookup
/// fails when the `to` entry ends before the `from` entry starts — the range
/// is never silently swapped. Without a `to` quote the range is the one
/// matched entry. The start is then moved earlier by the padding in force
/// before (clamped at zero) and the end later by the padding in force after;
/// the defaults are 2000 ms around a single quote and 500 ms around a range.
pub fn resolve_clip_range(
    entries: &Vec<SubtitleEntry>,
    from_query: &str,
    to_query: Option<&str>,
    pads: Padding,
) -> (r: Result<ResolvedRange, ResolveError>)
    requires
        times_bounded(entries.deep_view()),
        padding_bounded(pads),
    ensures
        ({
            let evs = entries.deep_view();
            let texts = lowered_texts(evs);
            let fi = resolve_query(texts, lower_of(from_query@));
            match r {
                Ok(rr) => {
                    &&& fi is Some
                    &&& (to_query is Some ==> rr.start_ms <= rr.end_ms)
                    &&& match to_query {
                        Some(tq) => {
                            let ti = resolve_query(texts, lower_of(tq@));
                            &&& ti is Some
                            &&& evs[ti->0].end_ms >= evs[fi->0].start_ms
                            &&& rr.start_ms == padded_start(
                                evs[fi->0].start_ms,
                                effective_pad(pads.pad_before, pads.pad, DEFAULT_RANGE_PAD_MS) as int,
                            )
                            &&& rr.end_ms == evs[ti->0].end_ms + effective_pad(
                                pads.pad_after,
                                pads.pad,
                                DEFAULT_RANGE_PAD_MS,
                            )
                        },
                        None => {
                            &&& rr.start_ms == padded_start(
                                evs[fi->0].start_ms,
                                effective_pad(pads.pad_before, pads.pad, DEFAULT_SINGLE_PAD_MS) as int,
                            )
                            &&& rr.end_ms == evs[fi->0].end_ms + effective_pad(
                                pads.pad_after,
                                pads.pad,
                                DEFAULT_SINGLE_PAD_MS,
                            )
                        },
                    }
                },
                Err(err) => match err {
                    ResolveError::NotFound { query: q } => {
                        if fi is None {
                            q@ == from_query@
                        } else {
                            &&& to_query matches Some(tq)
                            &&& resolve_query(texts, lower_of(tq@)) is None
                            &&& q@ == tq@
                        }
                    },
                    ResolveError::InvalidRange {
                        from_start_ms,
                        from_end_ms,
                        to_start_ms,
                        to_end_ms,
                    } => {
                        &&& fi is Some
                        &&& to_query matches Some(tq)
                        &&& {
                            let ti = resolve_query(texts, lower_of(tq@));
                            &&& ti is Some
                            &&& evs[ti->0].end_ms < evs[fi->0].start_ms
                            &&& from_start_ms == evs[fi->0].start_ms
                            &&& from_end_ms == evs[fi->0].end_ms
                            &&& to_start_ms == evs[ti->0].start_ms
                            &&& to_end_ms == evs[ti->0].end_ms
                        }
                    },
                },
            }
        }),
{
    let fidx = match find_dialogue(entries, from_query) {
        Ok(i) => i,
        Err(e) => {
            return Err(e);
        },
    };
    proof {
        assert(entries@[fidx as int]@ == entries.deep_view()[fidx as int]);
    }
    match to_query {
        Some(tq) => {
            let tidx = match find_dialogue(entries, tq) {
                Ok(i) => i,
                Err(e) => {
                    return Err(e);
                },
            };
            proof {
                assert(entries@[tidx as int]@ == entries.deep_view()[tidx as int]);
            }
            if entries[tidx].end_ms < entries[fidx].start_ms {
                return Err(
                    ResolveError::InvalidRange {
                        from_start_ms: entries[fidx].start_ms,
                        from_end_ms: entries[fidx].end_ms,
                        to_start_ms: entries[tidx].start_ms,
                        to_end_ms: entries[tidx].end_ms,
                    },
                );
            }
            let pb = pick_pad(pads.pad_before, pads.pad, DEFAULT_RANGE_PAD_MS);
            let pa = pick_pad(pads.pad_after, pads.pad, DEFAULT_RANGE_PAD_MS);
            let s = entries[fidx].start_ms;
            let start_ms = if s >= pb {
                s - pb
            } else {
                0
            };
            proof {
                assert(entries.deep_view()[tidx as int].start_ms <= MAX_TIME_MS);
                assert(pa <= MAX_PAD_MS);
            }
            let end_ms = entries[tidx].end_ms + pa;
            Ok(ResolvedRange { start_ms, end_ms })
        },
        None => {
            let pb = pick_pad(pads.pad_before, pads.pad, DEFAULT_SINGLE_PAD_MS);
            let pa = pick_pad(pads.pad_after, pads.pad, DEFAULT_SINGLE_PAD_MS);
            let s = entries[fidx].start_ms;
            let start_ms = if s >= pb {
                s - pb
            } else {
                0
            };
            proof {
                assert(entries.deep_view()[fidx as int].start_ms <= MAX_TIME_MS);
                assert(pa <= MAX_PAD_MS);
            }
            let end_ms = entries[fidx].end_ms + pa;
            Ok(ResolvedRange { start_ms, end_ms })
        },
    }
}

proof fn lemma_first_contains_some(texts: Seq<Seq<char>>, q: Seq<char>, e: int)
    requires
        0 <= e <= texts.len(),
        exists|i: int| e <= i < texts.len() && contains_sub(#[trigger] texts[i], q),
    ensures
        first_idx_contains(texts, q, e) is Some,
    decreases texts.len() - e,
{
    if !contains_sub(texts[e], q) {
        let i = choose|i: int| e <= i < texts.len() && contains_sub(#[trigger] texts[i], q);
        assert(e + 1 <= i);
        lemma_first_contains_some(texts, q, e + 1);
    }
}

/// Law (tier ordering): when some entry's text contains the query as a
/// contiguous run, the cascade returns the exact-substring tier's pick — the
/// first such entry — whatever the weaker tiers would choose.
pub proof fn lemma_exact_tier_wins(texts: Seq<Seq<char>>, q: Seq<char>)
    requires
        exists|i: int| 0 <= i < texts.len() && contains_sub(#[trigger] texts[i], q),
    ensures
        first_idx_contains(texts, q, 0) is Some,
        resolve_query(texts, q) == first_idx_contains(texts, q, 0),
{
    lemma_first_contains_some(texts, q, 0);
}

proof fn lemma_fuzzy_best_props(
    texts: Seq<Seq<char>>,
    ws: Seq<Seq<char>>,
    e: int,
    cur: Option<(int, int)>,
)
    requires
        0 <= e <= texts.len(),
        cur matches Some(bp) ==> bp.1 > 0,
    ensures
        ({
            let r = fuzzy_best(texts, ws, e, cur);
            &&& (cur is Some ==> r is Some && (r->0).1 >= (cur->0).1)
            &&& (r is Some ==> (r->0).1 > 0)
            &&& (r is Some ==> r == cur || exists|i: int|
                e <= i < texts.len() && r->0 == (i, count_matching(#[trigger] texts[i], ws, 0)))
            &&& forall|i: int|
                e <= i < texts.len() && count_matching(#[trigger] texts[i], ws, 0) > 0 ==> r is Some
                    && (r->0).1 >= count_matching(texts[i], ws, 0)
        }),
    decreases texts.len() - e,
{
    if e < texts.len() {
        let c = count_matching(texts[e], ws, 0);
        let nxt = match cur {
            Some((bi, bc)) => if c > 0 && c > bc {
                Some((e, c))
            } else {
                cur
            },
            None => if c > 0 {
                Some((e, c))
            } else {
                None
            },
        };
        lemma_fuzzy_best_props(texts, ws, e + 1, nxt);
        let r = fuzzy_best(texts, ws, e, cur);
        assert(r == fuzzy_best(texts, ws, e + 1, nxt));
        if r is Some && !(r == cur) {
            if r == nxt && !(nxt == cur) {
                assert(nxt->0 == (e, count_matching(texts[e], ws, 0)));
            }
        }
    }
}

/// Law (fuzzy acceptance): when some entry holds at least one of the query's
/// words and at least half of them (rounded down), the fuzzy tier accepts
/// some entry.
pub proof fn lemma_fuzzy_accepts(texts: Seq<Seq<char>>, ws: Seq<Seq<char>>, i: int)
    requires
        0 <= i < texts.len(),
        count_matching(texts[i], ws, 0) > 0,
        count_matching(texts[i], ws, 0) >= ws.len() / 2,
    ensures
        fuzzy_pick(texts, ws) is Some,
{
    lemma_fuzzy_best_props(texts, ws, 0, None);
}

/// Law (fuzzy rejection): when every entry holds fewer than half of the
/// query's words (rounded down), the fuzzy tier rejects, whatever the best
/// count was.
pub proof fn lemma_fuzzy_rejects(texts: Seq<Seq<char>>, ws: Seq<Seq<char>>)
    requires
        forall|i: int|
            0 <= i < texts.len() ==> count_matching(#[trigger] texts[i], ws, 0) < ws.len() / 2,
    ensures
        fuzzy_pick(texts, ws) is None,
{
    lemma_fuzzy_best_props(texts, ws, 0, None);
    let r = fuzzy_best(texts, ws, 0, None);
    if r is Some {
        let i = choose|i: int|
            0 <= i < texts.len() && r->0 == (i, count_matching(#[trigger] texts[i], ws, 0));
        assert((r->0).1 < ws.len() / 2);
    }
}

/// Law (padding defaults): with no explicit padding the mode's default is in
/// force; a side's own value always overrides both the shared value and the
/// default, and the shared value overrides the default.
pub proof fn lemma_padding_defaults(shared: Option<u64>, dflt: u64, v: u64)
    ensures
        effective_pad(None, None, dflt) == dflt,
        effective_pad(Some(v), shared, dflt) == v,
        effective_pad(None, Some(v), dflt) == v,
{
}

/// Law (clamping): the padded start never goes below zero; it is exactly the
/// range start minus the padding when that stays non-negative, and exactly
/// zero when the padding overshoots.
pub proof fn lemma_padded_start_clamps(start_ms: int, pb: int)
    requires
        0 <= start_ms,
        0 <= pb,
    ensures
        padded_start(start_ms, pb) >= 0,
        start_ms >= pb ==> padded_start(start_ms, pb) == start_ms - pb,
        start_ms < pb ==> padded_start(start_ms, pb) == 0,
{
}

} // verus!
