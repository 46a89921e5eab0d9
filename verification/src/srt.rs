//! SubRip subtitle parsing.
//!
//! A track is split into blocks at blank lines; each block that holds at
//! least three lines, one of them a timing line
//! `HH:MM:SS,mmm --> HH:MM:SS,mmm` (comma or dot before the milliseconds),
//! yields one entry: the lines after the timing line joined with spaces,
//! emphasis tags removed, and surrounding white space trimmed. Blocks that do
//! not fit that shape are skipped, never reported: subtitle files in the wild
//! carry style and metadata blocks that must not abort the parse. Times are
//! milliseconds from the start of the track.

use vstd::prelude::*;

use crate::text::{
    chars_of, contains_sub, find_from, join_sp_from, join_sp_vec,
    lemma_find_from_none, lemma_find_from_some, lemma_skip_spaces, lemma_sub_at_concat_l,
    lemma_sub_at_concat_r, lemma_sub_at_within, lines_from, lines_vec, remove_all_from,
    remove_all_vec, skip_spaces, split_on_from, split_on_vec, string_of, sub_at, trim_spec,
    trim_vec,
};

verus! {

/// The largest time a timing line can denote: `99:99:99,999` in milliseconds.
pub const MAX_TIME_MS: u64 = 362439999;

/// A timed caption: start and end in milliseconds from the start of the
/// track, and the cleaned display text.
#[derive(Debug, Clone)]
pub struct SubtitleEntry {
    pub start_ms: u64,
    pub end_ms: u64,
    pub text: String,
}

/// The mathematical content of a subtitle entry.
pub ghost struct EntryView {
    pub start_ms: int,
    pub end_ms: int,
    pub text: Seq<char>,
}

impl View for SubtitleEntry {
    type V = EntryView;

    open spec fn view(&self) -> EntryView {
        EntryView {
            start_ms: self.start_ms as int,
            end_ms: self.end_ms as int,
            text: self.text@,
        }
    }
}

impl DeepView for SubtitleEntry {
    type V = EntryView;

    open spec fn deep_view(&self) -> EntryView {
        self.view()
    }
}

/// Whether `c` is an ASCII decimal digit (the only digits a timecode may
/// hold).
pub open spec fn is_digit(c: char) -> bool {
    0x30 <= c as u32 && c as u32 <= 0x39
}

/// The value of an ASCII decimal digit.
pub open spec fn digit_val(c: char) -> int {
    (c as u32) - 0x30
}

/// A timecode `HH:MM:SS,mmm` (or with `.` before the milliseconds) starting
/// at position `i` of `l`, converted to milliseconds:
/// `((HH * 3600 + MM * 60 + SS) * 1000 + mmm)`.
pub open spec fn timecode_at(l: Seq<char>, i: int) -> Option<int> {
    if 0 <= i && i + 12 <= l.len() && is_digit(l[i]) && is_digit(l[i + 1]) && l[i + 2] == ':'
        && is_digit(l[i + 3]) && is_digit(l[i + 4]) && l[i + 5] == ':' && is_digit(l[i + 6])
        && is_digit(l[i + 7]) && (l[i + 8] == ',' || l[i + 8] == '.') && is_digit(l[i + 9])
        && is_digit(l[i + 10]) && is_digit(l[i + 11]) {
        Some(
            (digit_val(l[i]) * 10 + digit_val(l[i + 1])) * 3600000 + (digit_val(l[i + 3]) * 10
                + digit_val(l[i + 4])) * 60000 + (digit_val(l[i + 6]) * 10 + digit_val(
                l[i + 7],
            )) * 1000 + digit_val(l[i + 9]) * 100 + digit_val(l[i + 10]) * 10 + digit_val(
                l[i + 11],
            ),
        )
    } else {
        None
    }
}

/// A whole timing pair starting at position `i`: a timecode, optional white
/// space, an arrow `-->`, optional white space, and a second timecode.
pub open spec fn timing_at(l: Seq<char>, i: int) -> Option<(int, int)> {
    match timecode_at(l, i) {
        Some(s) => {
            let j = skip_spaces(l, i + 12);
            if j + 3 <= l.len() && l[j] == '-' && l[j + 1] == '-' && l[j + 2] == '>' {
                match timecode_at(l, skip_spaces(l, j + 3)) {
                    Some(e) => Some((s, e)),
                    None => None,
                }
            } else {
                None
            }
        },
        None => None,
    }
}

/// The timing pair of the leftmost position at or after `i` where one
/// matches, if any.
pub open spec fn line_timing_from(l: Seq<char>, i: int) -> Option<(int, int)>
    decreases l.len() - i,
{
    if !(0 <= i < l.len()) {
        None
    } else {
        match timing_at(l, i) {
            Some(se) => Some(se),
            None => line_timing_from(l, i + 1),
        }
    }
}

/// The digit at position `k`, if it is one.
fn digit_at(l: &Vec<char>, k: usize) -> (r: Option<u64>)
    requires
        k < l@.len(),
    ensures
        match r {
            Some(v) => is_digit(l@[k as int]) && v as int == digit_val(l@[k as int]) && v <= 9,
            None => !is_digit(l@[k as int]),
        },
{
    let u = l[k] as u32;
    if 0x30 <= u && u <= 0x39 {
        Some((u - 0x30) as u64)
    } else {
        None
    }
}

/// Parses a timecode at position `i`, in milliseconds.
fn timecode_at_exec(l: &Vec<char>, i: usize) -> (r: Option<u64>)
    ensures
        match r {
            Some(v) => timecode_at(l@, i as int) == Some(v as int) && v <= MAX_TIME_MS,
            None => timecode_at(l@, i as int) is None,
        },
{
    if l.len() < 12 || i > l.len() - 12 {
        return None;
    }
    if l[i + 2] != ':' || l[i + 5] != ':' {
        return None;
    }
    if l[i + 8] != ',' && l[i + 8] != '.' {
        return None;
    }
    let d0 = match digit_at(l, i) {
        Some(v) => v,
        None => {
            return None;
        },
    };
    let d1 = match digit_at(l, i + 1) {
        Some(v) => v,
        None => {
            return None;
        },
    };
    let d3 = match digit_at(l, i + 3) {
        Some(v) => v,
        None => {
            return None;
        },
    };
    let d4 = match digit_at(l, i + 4) {
        Some(v) => v,
        None => {
            return None;
        },
    };
    let d6 = match digit_at(l, i + 6) {
        Some(v) => v,
        None => {
            return None;
        },
    };
    let d7 = match digit_at(l, i + 7) {
        Some(v) => v,
        None => {
            return None;
        },
    };
    let d9 = match digit_at(l, i + 9) {
        Some(v) => v,
        None => {
            return None;
        },
    };
    let d10 = match digit_at(l, i + 10) {
        Some(v) => v,
        None => {
            return None;
        },
    };
    let d11 = match digit_at(l, i + 11) {
        Some(v) => v,
        None => {
            return None;
        },
    };
    let v = (d0 * 10 + d1) * 3600000 + (d3 * 10 + d4) * 60000 + (d6 * 10 + d7) * 1000 + d9 * 100
        + d10 * 10 + d11;
    Some(v)
}

/// Parses a whole timing pair at position `i`.
fn timing_at_exec(l: &Vec<char>, i: usize) -> (r: Option<(u64, u64)>)
    ensures
        match r {
            Some(se) => timing_at(l@, i as int) == Some((se.0 as int, se.1 as int)) && se.0
                <= MAX_TIME_MS && se.1 <= MAX_TIME_MS,
            None => timing_at(l@, i as int) is None,
        },
{
    let s = match timecode_at_exec(l, i) {
        Some(v) => v,
        None => {
            return None;
        },
    };
    let n = l.len();
    proof {
        assert(i + 12 <= l@.len());
        lemma_skip_spaces(l@, i + 12);
    }
    let mut j = i + 12;
    loop
        invariant
            i + 12 <= j <= l@.len(),
            skip_spaces(l@, i + 12) == skip_spaces(l@, j as int),
        ensures
            j as int == skip_spaces(l@, i + 12),
        decreases l@.len() - j,
    {
        if j == l.len() {
            break ;
        }
        if !crate::text::is_space_char(l[j]) {
            break ;
        }
        j += 1;
    }
    if l.len() < 3 || j > l.len() - 3 {
        return None;
    }
    if l[j] != '-' || l[j + 1] != '-' || l[j + 2] != '>' {
        return None;
    }
    proof {
        lemma_skip_spaces(l@, j + 3);
    }
    let mut k = j + 3;
    loop
        invariant
            j + 3 <= k <= l@.len(),
            skip_spaces(l@, j + 3) == skip_spaces(l@, k as int),
        ensures
            k as int == skip_spaces(l@, j + 3),
        decreases l@.len() - k,
    {
        if k == l.len() {
            break ;
        }
        if !crate::text::is_space_char(l[k]) {
            break ;
        }
        k += 1;
    }
    match timecode_at_exec(l, k) {
        Some(e) => Some((s, e)),
        None => None,
    }
}

/// The timing pair of the leftmost match in the line, if any: how a timing
/// line is recognised.
fn scan_timing(l: &Vec<char>) -> (r: Option<(u64, u64)>)
    ensures
        match r {
            Some(se) => line_timing_from(l@, 0) == Some((se.0 as int, se.1 as int)) && se.0
                <= MAX_TIME_MS && se.1 <= MAX_TIME_MS,
            None => line_timing_from(l@, 0) is None,
        },
{
    let mut i: usize = 0;
    while i < l.len()
        invariant
            i <= l@.len(),
            line_timing_from(l@, 0) == line_timing_from(l@, i as int),
        decreases l@.len() - i,
    {
        match timing_at_exec(l, i) {
            Some(se) => {
                return Some(se);
            },
            None => {
                i += 1;
            },
        }
    }
    None
}

/// Parses one timing line: the leftmost timing pair in `line`, in
/// milliseconds. For a line `HH:MM:SS,mmm --> HH:MM:SS,mmm` the start and end
/// are exactly `(HH*3600 + MM*60 + SS) * 1000 + mmm`.
pub fn parse_timing_line(line: &str) -> (r: Option<(u64, u64)>)
    ensures
        match r {
            Some(se) => line_timing_from(line@, 0) == Some((se.0 as int, se.1 as int)),
            None => line_timing_from(line@, 0) is None,
        },
{
    let cs = chars_of(line);
    scan_timing(&cs)
}

/// The six emphasis tag literals the parser removes, in removal order.
pub open spec fn tag_seqs() -> Seq<Seq<char>> {
    seq![
        seq!['<', 'i', '>'],
        seq!['<', '/', 'i', '>'],
        seq!['<', 'b', '>'],
        seq!['<', '/', 'b', '>'],
        seq!['<', 'u', '>'],
        seq!['<', '/', 'u', '>'],
    ]
}

/// `s` after the tags `tags[k..]` are each removed in turn, every occurrence
/// of one removed before the next is looked for.
pub open spec fn remove_tags_from(s: Seq<char>, tags: Seq<Seq<char>>, k: int) -> Seq<char>
    decreases tags.len() - k,
{
    if !(0 <= k < tags.len()) {
        s
    } else {
        remove_tags_from(remove_all_from(s, tags[k], 0), tags, k + 1)
    }
}

/// `s` with the six emphasis tag literals removed, in order.
pub open spec fn strip_tags_spec(s: Seq<char>) -> Seq<char> {
    remove_tags_from(s, tag_seqs(), 0)
}

/// Removes the six emphasis tag literals.
pub fn strip_tags_vec(s: &Vec<char>) -> (r: Vec<char>)
    ensures
        r@ == strip_tags_spec(s@),
{
    let t0: Vec<char> = vec!['<', 'i', '>'];
    let t1: Vec<char> = vec!['<', '/', 'i', '>'];
    let t2: Vec<char> = vec!['<', 'b', '>'];
    let t3: Vec<char> = vec!['<', '/', 'b', '>'];
    let t4: Vec<char> = vec!['<', 'u', '>'];
    let t5: Vec<char> = vec!['<', '/', 'u', '>'];
    proof {
        assert(t0@ =~= tag_seqs()[0]);
        assert(t1@ =~= tag_seqs()[1]);
        assert(t2@ =~= tag_seqs()[2]);
        assert(t3@ =~= tag_seqs()[3]);
        assert(t4@ =~= tag_seqs()[4]);
        assert(t5@ =~= tag_seqs()[5]);
    }
    let r0 = remove_all_vec(s, &t0);
    let r1 = remove_all_vec(&r0, &t1);
    let r2 = remove_all_vec(&r1, &t2);
    let r3 = remove_all_vec(&r2, &t3);
    let r4 = remove_all_vec(&r3, &t4);
    let r5 = remove_all_vec(&r4, &t5);
    proof {
        assert(remove_tags_from(s@, tag_seqs(), 0) == remove_tags_from(r0@, tag_seqs(), 1));
        assert(remove_tags_from(r0@, tag_seqs(), 1) == remove_tags_from(r1@, tag_seqs(), 2));
        assert(remove_tags_from(r1@, tag_seqs(), 2) == remove_tags_from(r2@, tag_seqs(), 3));
        assert(remove_tags_from(r2@, tag_seqs(), 3) == remove_tags_from(r3@, tag_seqs(), 4));
        assert(remove_tags_from(r3@, tag_seqs(), 4) == remove_tags_from(r4@, tag_seqs(), 5));
        assert(remove_tags_from(r4@, tag_seqs(), 5) == remove_tags_from(r5@, tag_seqs(), 6));
    }
    r5
}

/// The index of the first line at or after `k` holding a timing pair,
/// together with that pair.
pub open spec fn first_timing_line(ls: Seq<Seq<char>>, k: int) -> Option<(int, (int, int))>
    decreases ls.len() - k,
{
    if !(0 <= k < ls.len()) {
        None
    } else {
        match line_timing_from(ls[k], 0) {
            Some(se) => Some((k, se)),
            None => first_timing_line(ls, k + 1),
        }
    }
}

/// The caption text of a block whose timing line has index `ti`: the later
/// lines joined with single spaces, tags stripped, white space trimmed.
pub open spec fn block_text(ls: Seq<Seq<char>>, ti: int) -> Seq<char> {
    trim_spec(strip_tags_spec(join_sp_from(ls, ti + 1)))
}

/// The entry a block yields, if any: at least three lines, a timing line
/// among them, and nonempty caption text after cleaning.
pub open spec fn entry_of_block(b: Seq<char>) -> Option<EntryView> {
    let ls = lines_from(b, 0);
    if ls.len() < 3 {
        None
    } else {
        match first_timing_line(ls, 0) {
            Some((ti, se)) => {
                let text = block_text(ls, ti);
                if text.len() == 0 {
                    None
                } else {
                    Some(EntryView { start_ms: se.0, end_ms: se.1, text })
                }
            },
            None => None,
        }
    }
}

/// The entries of the blocks `bs[i..]`, in block order.
pub open spec fn entries_from_blocks(bs: Seq<Seq<char>>, i: int) -> Seq<EntryView>
    decreases bs.len() - i,
{
    if !(0 <= i < bs.len()) {
        Seq::empty()
    } else {
        match entry_of_block(bs[i]) {
            Some(e) => seq![e] + entries_from_blocks(bs, i + 1),
            None => entries_from_blocks(bs, i + 1),
        }
    }
}

/// The blank-line separator between blocks.
pub open spec fn blank_sep() -> Seq<char> {
    seq!['\n', '\n']
}

/// What parsing a whole track yields.
pub open spec fn parse_srt_spec(content: Seq<char>) -> Seq<EntryView> {
    entries_from_blocks(split_on_from(content, blank_sep(), 0), 0)
}

/// Parses one block.
fn entry_of_block_exec(b: &Vec<char>) -> (r: Option<SubtitleEntry>)
    ensures
        match r {
            Some(en) => entry_of_block(b@) == Some(en@) && en.start_ms <= MAX_TIME_MS && en.end_ms
                <= MAX_TIME_MS,
            None => entry_of_block(b@) is None,
        },
{
    let ls = lines_vec(b);
    if ls.len() < 3 {
        return None;
    }
    let ghost lsv = ls.deep_view();
    let mut ti: usize = 0;
    let found: (u64, u64);
    loop
        invariant
            ti <= ls@.len(),
            lsv == ls.deep_view(),
            lsv == lines_from(b@, 0),
            lsv.len() >= 3,
            first_timing_line(lsv, 0) == first_timing_line(lsv, ti as int),
        ensures
            ti < ls@.len(),
            first_timing_line(lsv, 0) == Some((
                ti as int,
                (found.0 as int, found.1 as int),
            )),
            found.0 <= MAX_TIME_MS,
            found.1 <= MAX_TIME_MS,
        decreases ls@.len() - ti,
    {
        if ti == ls.len() {
            proof {
                assert(first_timing_line(lsv, 0) is None);
            }
            return None;
        }
        proof {
            assert(ls.deep_view()[ti as int] == ls@[ti as int]@);
        }
        match scan_timing(&ls[ti]) {
            Some(se) => {
                found = se;
                break ;
            },
            None => {
                ti += 1;
            },
        }
    }
    let joined = join_sp_vec(&ls, ti + 1);
    let stripped = strip_tags_vec(&joined);
    let trimmed = trim_vec(&stripped);
    if trimmed.len() == 0 {
        return None;
    }
    let text = string_of(&trimmed);
    let entry = SubtitleEntry { start_ms: found.0, end_ms: found.1, text };
    proof {
        assert(entry@ == entry_of_block(b@).unwrap());
    }
    Some(entry)
}

/// Parses a whole SubRip track.
///
/// Every block between blank lines that looks like a timed caption yields one
/// entry, in file order, with its times in milliseconds and its text cleaned;
/// every other block is skipped. Parsing never fails.
pub fn parse_srt(content: &str) -> (r: Vec<SubtitleEntry>)
    ensures
        r.deep_view() == parse_srt_spec(content@),
        forall|i: int|
            0 <= i < r@.len() ==> r@[i].start_ms <= MAX_TIME_MS && r@[i].end_ms <= MAX_TIME_MS,
{
    let cs = chars_of(content);
    let sep: Vec<char> = vec!['\n', '\n'];
    proof {
        assert(sep@ =~= blank_sep());
    }
    let blocks = split_on_vec(&cs, &sep);
    let ghost bsv = blocks.deep_view();
    let mut out: Vec<SubtitleEntry> = Vec::new();
    let mut bi: usize = 0;
    while bi < blocks.len()
        invariant
            bi <= blocks@.len(),
            bsv == blocks.deep_view(),
            bsv == split_on_from(cs@, blank_sep(), 0),
            out.deep_view() + entries_from_blocks(bsv, bi as int) == entries_from_blocks(bsv, 0),
            forall|i: int|
                0 <= i < out@.len() ==> out@[i].start_ms <= MAX_TIME_MS && out@[i].end_ms
                    <= MAX_TIME_MS,
        decreases blocks@.len() - bi,
    {
        proof {
            assert(blocks.deep_view()[bi as int] == blocks@[bi as int]@);
        }
        match entry_of_block_exec(&blocks[bi]) {
            Some(en) => {
                let ghost dold = out.deep_view();
                out.push(en);
                proof {
                    assert(out.deep_view() =~~= dold.push(en@));
                    assert(out.deep_view() + entries_from_blocks(bsv, bi + 1) =~~= entries_from_blocks(
                        bsv,
                        0,
                    ));
                }
            },
            None => {
                proof {
                    assert(out.deep_view() + entries_from_blocks(bsv, bi + 1) =~~= entries_from_blocks(
                        bsv,
                        0,
                    ));
                }
            },
        }
        bi += 1;
    }
    proof {
        assert(out.deep_view() =~~= parse_srt_spec(content@));
    }
    out
}

/// The shape of a tag literal: nonempty, opened by `'<'`, with no `'<'`
/// later in it.
pub open spec fn tag_shape(p: Seq<char>) -> bool {
    p.len() > 0 && p[0] == '<' && (forall|x: int| 1 <= x < p.len() ==> p[x] != '<')
}

/// Every tag in `ts` has tag shape.
pub open spec fn tags_shaped(ts: Seq<Seq<char>>) -> bool {
    forall|m: int| 0 <= m < ts.len() ==> tag_shape(#[trigger] ts[m])
}

/// Every `'<'` at or after position `i` of `s` begins an occurrence of one
/// of the tags `ts[k..]`.
pub open spec fn lt_starts_tag_from(s: Seq<char>, ts: Seq<Seq<char>>, k: int, i: int) -> bool {
    forall|j: int|
        i <= j < s.len() && #[trigger] s[j] == '<' ==> exists|m: int|
            k <= m < ts.len() && sub_at(s, #[trigger] ts[m], j)
}

/// Text in which every `'<'` begins one of the six emphasis tag literals.
pub open spec fn only_whole_tags(s: Seq<char>) -> bool {
    lt_starts_tag_from(s, tag_seqs(), 0, 0)
}

/// Removing every occurrence of the tag `ts[k]` keeps every remaining `'<'`
/// at the start of one of the later tags: tag occurrences are disjoint, so a
/// removal never cuts into another tag or conjures a new `'<'`.
proof fn lemma_remove_all_clean(s: Seq<char>, ts: Seq<Seq<char>>, k: int, i: int)
    requires
        tags_shaped(ts),
        0 <= k < ts.len(),
        0 <= i <= s.len(),
        lt_starts_tag_from(s, ts, k, i),
    ensures
        lt_starts_tag_from(remove_all_from(s, ts[k], i), ts, k + 1, 0),
    decreases s.len() - i,
{
    let p = ts[k];
    assert(tag_shape(p));
    let r = remove_all_from(s, p, i);
    match find_from(s, p, i) {
        None => {
            lemma_find_from_none(s, p, i);
            assert(r == s.subrange(i, s.len() as int));
            assert forall|j: int| 0 <= j < r.len() && #[trigger] r[j] == '<' implies exists|m: int|
                k + 1 <= m < ts.len() && sub_at(r, #[trigger] ts[m], j) by {
                let q = i + j;
                assert(s[q] == '<');
                let m = choose|m: int| k <= m < ts.len() && sub_at(s, #[trigger] ts[m], q);
                if m == k {
                    assert(sub_at(s, p, q));
                    assert(false);
                }
                lemma_sub_at_within(s, ts[m], q, i, s.len() as int);
                assert(sub_at(r, ts[m], j));
            }
        },
        Some(jj) => {
            lemma_find_from_some(s, p, i, jj);
            let pre = s.subrange(i, jj);
            let rest = remove_all_from(s, p, jj + p.len());
            assert(r == pre + rest);
            lemma_remove_all_clean(s, ts, k, jj + p.len());
            assert(lt_starts_tag_from(rest, ts, k + 1, 0));
            assert(s.subrange(jj, jj + p.len() as int)[0] == s[jj]);
            assert(s[jj] == p[0]);
            assert forall|j: int| 0 <= j < r.len() && #[trigger] r[j] == '<' implies exists|m: int|
                k + 1 <= m < ts.len() && sub_at(r, #[trigger] ts[m], j) by {
                if j < pre.len() {
                    let q = i + j;
                    assert(r[j] == pre[j]);
                    assert(s[q] == '<');
                    let m = choose|m: int| k <= m < ts.len() && sub_at(s, #[trigger] ts[m], q);
                    if m == k {
                        assert(sub_at(s, p, q));
                        assert(false);
                    }
                    assert(tag_shape(ts[m]));
                    if q + ts[m].len() > jj {
                        assert(s.subrange(q, q + ts[m].len() as int)[jj - q] == s[jj]);
                        assert(ts[m][jj - q] == s[jj]);
                        assert(jj - q >= 1);
                        assert(false);
                    }
                    lemma_sub_at_within(s, ts[m], q, i, jj);
                    lemma_sub_at_concat_l(pre, rest, ts[m], j);
                    assert(sub_at(r, ts[m], j));
                } else {
                    let j2 = j - pre.len();
                    assert(rest[j2] == r[j]);
                    let m = choose|m: int| k + 1 <= m < ts.len() && sub_at(rest, #[trigger] ts[m], j2);
                    lemma_sub_at_concat_r(pre, rest, ts[m], j2);
                    assert(sub_at(r, ts[m], j));
                }
            }
        },
    }
}

/// After removing the tags `ts[k..]` in turn from text whose every `'<'`
/// begins one of them, no `'<'` is left.
proof fn lemma_remove_tags_no_lt(s: Seq<char>, ts: Seq<Seq<char>>, k: int)
    requires
        tags_shaped(ts),
        0 <= k <= ts.len(),
        lt_starts_tag_from(s, ts, k, 0),
    ensures
        forall|j: int|
            0 <= j < remove_tags_from(s, ts, k).len() ==> #[trigger] remove_tags_from(s, ts, k)[j]
                != '<',
    decreases ts.len() - k,
{
    if k < ts.len() {
        lemma_remove_all_clean(s, ts, k, 0);
        lemma_remove_tags_no_lt(remove_all_from(s, ts[k], 0), ts, k + 1);
        assert(remove_tags_from(s, ts, k) == remove_tags_from(remove_all_from(s, ts[k], 0), ts, k + 1));
    } else {
        assert(remove_tags_from(s, ts, k) == s);
        assert forall|j: int| 0 <= j < s.len() implies #[trigger] s[j] != '<' by {
            if s[j] == '<' {
                let m = choose|m: int| k <= m < ts.len() && sub_at(s, #[trigger] ts[m], j);
                assert(false);
            }
        }
    }
}

proof fn lemma_tag3_shape(a: char, b: char)
    requires
        a != '<',
        b != '<',
    ensures
        tag_shape(seq!['<', a, b]),
{
    let p = seq!['<', a, b];
    assert forall|x: int| 1 <= x < p.len() implies p[x] != '<' by {
        if x == 1 {
            assert(p[1] == a);
        } else {
            assert(x == 2);
            assert(p[2] == b);
        }
    }
}

proof fn lemma_tag4_shape(a: char, b: char, c: char)
    requires
        a != '<',
        b != '<',
        c != '<',
    ensures
        tag_shape(seq!['<', a, b, c]),
{
    let p = seq!['<', a, b, c];
    assert forall|x: int| 1 <= x < p.len() implies p[x] != '<' by {
        if x == 1 {
            assert(p[1] == a);
        } else if x == 2 {
            assert(p[2] == b);
        } else {
            assert(x == 3);
            assert(p[3] == c);
        }
    }
}

proof fn lemma_tags_shaped()
    ensures
        tags_shaped(tag_seqs()),
{
    assert(tags_shaped(tag_seqs())) by {
        lemma_tag3_shape('i', '>');
        lemma_tag4_shape('/', 'i', '>');
        lemma_tag3_shape('b', '>');
        lemma_tag4_shape('/', 'b', '>');
        lemma_tag3_shape('u', '>');
        lemma_tag4_shape('/', 'u', '>');
        assert forall|m: int| 0 <= m < tag_seqs().len() implies tag_shape(#[trigger] tag_seqs()[m]) by {
            if m == 0 {
                assert(tag_seqs()[0] == seq!['<', 'i', '>']);
            } else if m == 1 {
                assert(tag_seqs()[1] == seq!['<', '/', 'i', '>']);
            } else if m == 2 {
                assert(tag_seqs()[2] == seq!['<', 'b', '>']);
            } else if m == 3 {
                assert(tag_seqs()[3] == seq!['<', '/', 'b', '>']);
            } else if m == 4 {
                assert(tag_seqs()[4] == seq!['<', 'u', '>']);
            } else {
                assert(m == 5);
                assert(tag_seqs()[5] == seq!['<', '/', 'u', '>']);
            }
        }
    }
}

/// Law (tag stripping): in text whose every `'<'` begins one of the six
/// emphasis tag literals, stripping removes them completely — the stripped
/// text contains no occurrence of any of the six.
pub proof fn lemma_strip_tags_complete(s: Seq<char>)
    requires
        only_whole_tags(s),
    ensures
        forall|m: int|
            0 <= m < tag_seqs().len() ==> !contains_sub(strip_tags_spec(s), #[trigger] tag_seqs()[m]),
{
    lemma_tags_shaped();
    lemma_remove_tags_no_lt(s, tag_seqs(), 0);
    let r = strip_tags_spec(s);
    assert forall|m: int|
        0 <= m < tag_seqs().len() implies !contains_sub(r, #[trigger] tag_seqs()[m]) by {
        if contains_sub(r, tag_seqs()[m]) {
            let j = choose|j: int| sub_at(r, tag_seqs()[m], j);
            assert(r.subrange(j, j + tag_seqs()[m].len() as int)[0] == r[j]);
            assert(r[j] == tag_seqs()[m][0]);
            assert(tag_shape(tag_seqs()[m]));
            assert(false);
        }
    }
}

/// Removing tags from text without `'<'` changes nothing.
proof fn lemma_remove_tags_identity(s: Seq<char>, ts: Seq<Seq<char>>, k: int)
    requires
        tags_shaped(ts),
        0 <= k <= ts.len(),
        forall|j: int| 0 <= j < s.len() ==> #[trigger] s[j] != '<',
    ensures
        remove_tags_from(s, ts, k) == s,
    decreases ts.len() - k,
{
    if k < ts.len() {
        assert(tag_shape(ts[k]));
        if find_from(s, ts[k], 0) is Some {
            let j = find_from(s, ts[k], 0)->0;
            lemma_find_from_some(s, ts[k], 0, j);
            assert(s.subrange(j, j + ts[k].len() as int)[0] == s[j]);
            assert(false);
        }
        assert(remove_all_from(s, ts[k], 0) =~= s);
        lemma_remove_tags_identity(s, ts, k + 1);
    }
}

/// Law (tag stripping is idempotent): in text whose every `'<'` begins one
/// of the six emphasis tag literals, stripping a second time changes
/// nothing.
pub proof fn lemma_strip_tags_idempotent(s: Seq<char>)
    requires
        only_whole_tags(s),
    ensures
        strip_tags_spec(strip_tags_spec(s)) == strip_tags_spec(s),
{
    lemma_tags_shaped();
    lemma_remove_tags_no_lt(s, tag_seqs(), 0);
    lemma_remove_tags_identity(strip_tags_spec(s), tag_seqs(), 0);
}

} // verus!
