//! Character-level text utilities shared by the subtitle parser and the
//! dialogue resolver: white space, substring search, splitting, trimming and
//! literal removal, all specified over `Seq<char>`.

use vstd::prelude::*;
use vstd::std_specs::iter::IteratorSpec;

verus! {

broadcast use vstd::string::group_string_axioms;

/// Whether `c` is Unicode white space, the same set `char::is_whitespace`
/// recognises.
pub open spec fn is_space(c: char) -> bool {
    let u = c as u32;
    u == 0x20 || (0x09 <= u && u <= 0x0D) || u == 0x85 || u == 0xA0 || u == 0x1680 || (0x2000
        <= u && u <= 0x200A) || u == 0x2028 || u == 0x2029 || u == 0x202F || u == 0x205F || u
        == 0x3000
}

/// Decides `is_space` executably.
pub fn is_space_char(c: char) -> (r: bool)
    ensures
        r == is_space(c),
{
    let u = c as u32;
    u == 0x20 || (0x09 <= u && u <= 0x0D) || u == 0x85 || u == 0xA0 || u == 0x1680 || (0x2000
        <= u && u <= 0x200A) || u == 0x2028 || u == 0x2029 || u == 0x202F || u == 0x205F || u
        == 0x3000
}

/// The characters of `s`, in order, as a vector.
pub fn chars_of(s: &str) -> (r: Vec<char>)
    ensures
        r@ == s@,
{
    let mut it = s.chars();
    let mut v: Vec<char> = Vec::new();
    loop
        invariant
            it.obeys_prophetic_iter_laws(),
            it.decrease() is Some,
            v@ + it.remaining() == s@,
        ensures
            v@ == s@,
        decreases it.decrease()->0,
    {
        let ghost prev = it.remaining();
        let ghost vold = v@;
        match it.next() {
            Some(c) => {
                proof {
                    assert(prev.len() > 0 && c == prev[0] && it.remaining() == prev.drop_first());
                    assert(vold.push(c) + prev.drop_first() =~= vold + prev);
                }
                v.push(c);
            },
            None => {
                proof {
                    assert(it.remaining().len() == 0);
                    assert(v@ =~= s@);
                }
                break ;
            },
        }
    }
    v
}

/// Relies on `String::push`: appends the character to the end of the string.
#[verifier::external_body]
fn push_char(s: &mut String, c: char)
    ensures
        final(s)@ == old(s)@.push(c),
{
    s.push(c);
}

/// A string holding exactly the characters of `v`.
pub fn string_of(v: &Vec<char>) -> (r: String)
    ensures
        r@ == v@,
{
    let mut s = String::new();
    let mut i: usize = 0;
    while i < v.len()
        invariant
            i <= v@.len(),
            s@ == v@.subrange(0, i as int),
        decreases v@.len() - i,
    {
        let ghost sold = s@;
        push_char(&mut s, v[i]);
        proof {
            assert(sold.push(v@[i as int]) =~= v@.subrange(0, i + 1));
        }
        i += 1;
    }
    proof {
        assert(v@.subrange(0, v@.len() as int) =~= v@);
    }
    s
}

/// The pattern `p` occurs in `t` starting at position `i`.
pub open spec fn sub_at(t: Seq<char>, p: Seq<char>, i: int) -> bool {
    0 <= i && i + p.len() <= t.len() && t.subrange(i, i + p.len() as int) == p
}

/// The pattern `p` occurs somewhere in `t` as a contiguous run.
pub open spec fn contains_sub(t: Seq<char>, p: Seq<char>) -> bool {
    exists|i: int| sub_at(t, p, i)
}

/// The least position `j >= i` where `p` occurs in `t`, if any; an empty
/// pattern occurs at `i` itself.
pub open spec fn find_from(t: Seq<char>, p: Seq<char>, i: int) -> Option<int>
    decreases t.len() - i,
{
    if i < 0 || i + p.len() > t.len() {
        None
    } else if p.len() == 0 || t.subrange(i, i + p.len() as int) == p {
        Some(i)
    } else {
        find_from(t, p, i + 1)
    }
}

pub proof fn lemma_find_from_some(t: Seq<char>, p: Seq<char>, i: int, j: int)
    requires
        find_from(t, p, i) == Some(j),
    ensures
        i <= j,
        sub_at(t, p, j),
        forall|k: int| i <= k < j ==> !sub_at(t, p, k),
    decreases t.len() - i,
{
    if i < 0 || i + p.len() > t.len() {
        assert(false);
    } else if p.len() == 0 || t.subrange(i, i + p.len() as int) == p {
        assert(j == i);
        assert(t.subrange(i, i + p.len() as int) =~= p);
    } else {
        lemma_find_from_some(t, p, i + 1, j);
        assert(!sub_at(t, p, i));
    }
}

pub proof fn lemma_find_from_none(t: Seq<char>, p: Seq<char>, i: int)
    requires
        0 <= i,
        find_from(t, p, i) is None,
    ensures
        forall|k: int| k >= i ==> !sub_at(t, p, k),
    decreases t.len() - i,
{
    if i + p.len() > t.len() {
        assert forall|k: int| k >= i implies !sub_at(t, p, k) by {
            assert(k + p.len() > t.len());
        }
    } else if p.len() == 0 || t.subrange(i, i + p.len() as int) == p {
        assert(false);
    } else {
        lemma_find_from_none(t, p, i + 1);
        assert(!sub_at(t, p, i));
    }
}

pub proof fn lemma_contains_iff_find(t: Seq<char>, p: Seq<char>)
    ensures
        contains_sub(t, p) <==> find_from(t, p, 0) is Some,
{
    if contains_sub(t, p) {
        if find_from(t, p, 0) is None {
            lemma_find_from_none(t, p, 0);
            let i = choose|i: int| sub_at(t, p, i);
            assert(!sub_at(t, p, i));
        }
    } else {
        if let Some(j) = find_from(t, p, 0) {
            lemma_find_from_some(t, p, 0, j);
        }
    }
}

/// The characters of `p` appear at position `i` of `t`.
pub fn match_at(t: &Vec<char>, p: &Vec<char>, i: usize) -> (r: bool)
    requires
        i + p@.len() <= t@.len(),
    ensures
        r == sub_at(t@, p@, i as int),
{
    let m = p.len();
    let n = t.len();
    let mut k: usize = 0;
    while k < m
        invariant
            k <= m,
            m == p@.len(),
            n == t@.len(),
            i + m <= t@.len(),
            forall|q: int| 0 <= q < k ==> t@[i + q] == p@[q],
        decreases m - k,
    {
        if t[i + k] != p[k] {
            proof {
                assert(t@.subrange(i as int, i + m as int)[k as int] == t@[i + k]);
            }
            return false;
        }
        k += 1;
    }
    proof {
        assert(t@.subrange(i as int, i + m as int) =~= p@);
    }
    true
}

/// The least position at or after `from` where `p` occurs in `t`.
pub fn find_sub(t: &Vec<char>, p: &Vec<char>, from: usize) -> (r: Option<usize>)
    ensures
        match r {
            Some(j) => find_from(t@, p@, from as int) == Some(j as int) && from <= j && j + p@.len()
                <= t@.len(),
            None => find_from(t@, p@, from as int) is None,
        },
{
    let n = t.len();
    let m = p.len();
    if from > n {
        return None;
    }
    if m == 0 {
        return Some(from);
    }
    if m > n {
        return None;
    }
    let mut i = from;
    while i <= n - m
        invariant
            from <= i,
            i <= n,
            m == p@.len(),
            n == t@.len(),
            m >= 1,
            m <= n,
            find_from(t@, p@, from as int) == find_from(t@, p@, i as int),
        decreases n - i,
    {
        if match_at(t, p, i) {
            return Some(i);
        }
        proof {
            assert(t@.subrange(i as int, i + m as int) != p@);
        }
        i += 1;
    }
    None
}

/// Whether `p` occurs in `t` as a contiguous run.
pub fn contains_vec(t: &Vec<char>, p: &Vec<char>) -> (r: bool)
    ensures
        r == contains_sub(t@, p@),
{
    proof {
        lemma_contains_iff_find(t@, p@);
    }
    find_sub(t, p, 0).is_some()
}

/// Whether `t` begins with `p`.
pub open spec fn starts_with(t: Seq<char>, p: Seq<char>) -> bool {
    sub_at(t, p, 0)
}

/// Decides `starts_with` executably.
pub fn starts_with_vec(t: &Vec<char>, p: &Vec<char>) -> (r: bool)
    ensures
        r == starts_with(t@, p@),
{
    if p.len() > t.len() {
        return false;
    }
    match_at(t, p, 0)
}

/// Appends `s[a..b]` to `out`.
pub fn push_range(out: &mut Vec<char>, s: &Vec<char>, a: usize, b: usize)
    requires
        a <= b <= s@.len(),
    ensures
        final(out)@ == old(out)@ + s@.subrange(a as int, b as int),
{
    let mut k = a;
    while k < b
        invariant
            a <= k <= b <= s@.len(),
            out@ == old(out)@ + s@.subrange(a as int, k as int),
        decreases b - k,
    {
        let ghost oold = out@;
        out.push(s[k]);
        proof {
            assert(oold.push(s@[k as int]) =~= old(out)@ + s@.subrange(a as int, k + 1));
        }
        k += 1;
    }
    proof {
        assert(old(out)@ + s@.subrange(a as int, b as int) =~= out@);
    }
}

/// The first position at or after `i` that is not white space (or the end).
pub open spec fn skip_spaces(s: Seq<char>, i: int) -> int
    decreases s.len() - i,
{
    if 0 <= i < s.len() && is_space(s[i]) {
        skip_spaces(s, i + 1)
    } else {
        i
    }
}

pub proof fn lemma_skip_spaces(s: Seq<char>, i: int)
    requires
        0 <= i <= s.len(),
    ensures
        i <= skip_spaces(s, i) <= s.len(),
        skip_spaces(s, i) == s.len() || !is_space(s[skip_spaces(s, i)]),
        forall|k: int| i <= k < skip_spaces(s, i) ==> is_space(s[k]),
    decreases s.len() - i,
{
    if 0 <= i < s.len() && is_space(s[i]) {
        lemma_skip_spaces(s, i + 1);
    }
}

/// The first position at or after `i` that is white space (or the end).
pub open spec fn word_end(s: Seq<char>, i: int) -> int
    decreases s.len() - i,
{
    if 0 <= i < s.len() && !is_space(s[i]) {
        word_end(s, i + 1)
    } else {
        i
    }
}

pub proof fn lemma_word_end(s: Seq<char>, i: int)
    requires
        0 <= i <= s.len(),
    ensures
        i <= word_end(s, i) <= s.len(),
        word_end(s, i) == s.len() || is_space(s[word_end(s, i)]),
        forall|k: int| i <= k < word_end(s, i) ==> !is_space(s[k]),
    decreases s.len() - i,
{
    if 0 <= i < s.len() && !is_space(s[i]) {
        lemma_word_end(s, i + 1);
    }
}

/// The position before which trailing white space starts, scanning back
/// from `j`.
pub open spec fn trim_end_idx(s: Seq<char>, j: int) -> int
    decreases j,
{
    if 0 < j <= s.len() && is_space(s[j - 1]) {
        trim_end_idx(s, j - 1)
    } else {
        j
    }
}

pub proof fn lemma_trim_end_idx(s: Seq<char>, j: int)
    requires
        0 <= j <= s.len(),
    ensures
        0 <= trim_end_idx(s, j) <= j,
        trim_end_idx(s, j) == 0 || !is_space(s[trim_end_idx(s, j) - 1]),
        forall|k: int| trim_end_idx(s, j) <= k < j ==> is_space(s[k]),
    decreases j,
{
    if 0 < j <= s.len() && is_space(s[j - 1]) {
        lemma_trim_end_idx(s, j - 1);
    }
}

/// `s` with leading and trailing white space removed, as `str::trim` does.
pub open spec fn trim_spec(s: Seq<char>) -> Seq<char> {
    let a = skip_spaces(s, 0);
    if a == s.len() {
        Seq::empty()
    } else {
        s.subrange(a, trim_end_idx(s, s.len() as int))
    }
}

/// Removes leading and trailing white space.
pub fn trim_vec(s: &Vec<char>) -> (r: Vec<char>)
    ensures
        r@ == trim_spec(s@),
{
    proof {
        lemma_skip_spaces(s@, 0);
        lemma_trim_end_idx(s@, s@.len() as int);
    }
    let n = s.len();
    let mut a: usize = 0;
    loop
        invariant
            a <= n,
            n == s@.len(),
            skip_spaces(s@, 0) == skip_spaces(s@, a as int),
        ensures
            a as int == skip_spaces(s@, 0),
        decreases n - a,
    {
        if a == n {
            break ;
        }
        if !is_space_char(s[a]) {
            break ;
        }
        a += 1;
    }
    if a == n {
        return Vec::new();
    }
    let mut b: usize = n;
    loop
        invariant
            0 <= b <= n,
            n == s@.len(),
            trim_end_idx(s@, n as int) == trim_end_idx(s@, b as int),
        ensures
            b as int == trim_end_idx(s@, n as int),
        decreases b,
    {
        if b == 0 {
            break ;
        }
        if !is_space_char(s[b - 1]) {
            break ;
        }
        b -= 1;
    }
    proof {
        if b <= a {
            assert(is_space(s@[a as int]));
        }
    }
    let mut out: Vec<char> = Vec::new();
    push_range(&mut out, s, a, b);
    out
}

/// The white-space-delimited words of `s` from position `i` on, as
/// `str::split_whitespace` yields them.
pub open spec fn split_ws_from(s: Seq<char>, i: int) -> Seq<Seq<char>>
    decreases s.len() - i,
    via split_ws_from_decreases
{
    if !(0 <= i < s.len()) {
        Seq::empty()
    } else if is_space(s[i]) {
        split_ws_from(s, i + 1)
    } else {
        seq![s.subrange(i, word_end(s, i))] + split_ws_from(s, word_end(s, i))
    }
}

#[via_fn]
proof fn split_ws_from_decreases(s: Seq<char>, i: int) {
    if 0 <= i < s.len() && !is_space(s[i]) {
        lemma_word_end(s, i);
        assert(word_end(s, i) == word_end(s, i + 1));
    }
}

/// Splits into white-space-delimited words.
pub fn split_ws_vec(s: &Vec<char>) -> (r: Vec<Vec<char>>)
    ensures
        r.deep_view() == split_ws_from(s@, 0),
{
    let n = s.len();
    let mut out: Vec<Vec<char>> = Vec::new();
    let mut i: usize = 0;
    while i < n
        invariant
            i <= n,
            n == s@.len(),
            out.deep_view() + split_ws_from(s@, i as int) == split_ws_from(s@, 0),
        decreases n - i,
    {
        if is_space_char(s[i]) {
            i += 1;
        } else {
            proof {
                lemma_word_end(s@, i as int);
            }
            let mut e = i;
            loop
                invariant
                    i <= e <= n,
                    n == s@.len(),
                    word_end(s@, i as int) == word_end(s@, e as int),
                ensures
                    e as int == word_end(s@, i as int),
                decreases n - e,
            {
                if e == n {
                    break ;
                }
                if is_space_char(s[e]) {
                    break ;
                }
                e += 1;
            }
            let mut w: Vec<char> = Vec::new();
            push_range(&mut w, s, i, e);
            let ghost dold = out.deep_view();
            out.push(w);
            proof {
                assert(out.deep_view() =~~= dold.push(w@));
                assert(out.deep_view() + split_ws_from(s@, e as int) =~~= split_ws_from(s@, 0));
            }
            i = e;
        }
    }
    proof {
        assert(out.deep_view() =~~= split_ws_from(s@, 0));
    }
    out
}

/// `s` with every occurrence of `p` removed, scanning left to right past
/// each removed occurrence, as `str::replace(p, "")` does.
pub open spec fn remove_all_from(s: Seq<char>, p: Seq<char>, i: int) -> Seq<char>
    decreases s.len() - i,
    via remove_all_from_decreases
{
    if !(0 <= i <= s.len()) || p.len() == 0 {
        Seq::empty()
    } else {
        match find_from(s, p, i) {
            Some(j) => s.subrange(i, j) + remove_all_from(s, p, j + p.len() as int),
            None => s.subrange(i, s.len() as int),
        }
    }
}

#[via_fn]
proof fn remove_all_from_decreases(s: Seq<char>, p: Seq<char>, i: int) {
    if 0 <= i <= s.len() && p.len() > 0 {
        if let Some(j) = find_from(s, p, i) {
            lemma_find_from_some(s, p, i, j);
        }
    }
}

/// Removes every occurrence of `p` from `s`.
pub fn remove_all_vec(s: &Vec<char>, p: &Vec<char>) -> (r: Vec<char>)
    requires
        p@.len() > 0,
    ensures
        r@ == remove_all_from(s@, p@, 0),
{
    let n = s.len();
    let mut out: Vec<char> = Vec::new();
    let mut i: usize = 0;
    loop
        invariant_except_break
            out@ + remove_all_from(s@, p@, i as int) == remove_all_from(s@, p@, 0),
        invariant
            i <= n,
            n == s@.len(),
            p@.len() > 0,
        ensures
            out@ == remove_all_from(s@, p@, 0),
        decreases n - i,
    {
        match find_sub(s, p, i) {
            Some(j) => {
                proof {
                    lemma_find_from_some(s@, p@, i as int, j as int);
                }
                push_range(&mut out, s, i, j);
                proof {
                    assert(out@ + remove_all_from(s@, p@, j + p@.len()) =~= remove_all_from(
                        s@,
                        p@,
                        0,
                    ));
                }
                i = j + p.len();
            },
            None => {
                push_range(&mut out, s, i, n);
                proof {
                    assert(out@ =~= remove_all_from(s@, p@, 0));
                }
                break ;
            },
        }
    }
    out
}

/// The lines of `s` from position `i` on, as `str::lines` yields them: split
/// at `'\n'`, a carriage return dropped before each split point, and no empty
/// final line.
pub open spec fn lines_from(s: Seq<char>, i: int) -> Seq<Seq<char>>
    decreases s.len() - i,
    via lines_from_decreases
{
    if !(0 <= i < s.len()) {
        Seq::empty()
    } else {
        match find_from(s, seq!['\n'], i) {
            Some(j) => seq![strip_cr(s.subrange(i, j))] + lines_from(s, j + 1),
            None => seq![s.subrange(i, s.len() as int)],
        }
    }
}

#[via_fn]
proof fn lines_from_decreases(s: Seq<char>, i: int) {
    if 0 <= i < s.len() {
        if let Some(j) = find_from(s, seq!['\n'], i) {
            lemma_find_from_some(s, seq!['\n'], i, j);
        }
    }
}

/// Drops one trailing carriage return, if present.
pub open spec fn strip_cr(l: Seq<char>) -> Seq<char> {
    if l.len() > 0 && l[l.len() - 1] == '\r' {
        l.drop_last()
    } else {
        l
    }
}

/// Splits `s` into lines.
pub fn lines_vec(s: &Vec<char>) -> (r: Vec<Vec<char>>)
    ensures
        r.deep_view() == lines_from(s@, 0),
{
    let nl: Vec<char> = vec!['\n'];
    proof {
        assert(nl@ =~= seq!['\n']);
    }
    let n = s.len();
    let mut out: Vec<Vec<char>> = Vec::new();
    let mut i: usize = 0;
    loop
        invariant_except_break
            out.deep_view() + lines_from(s@, i as int) == lines_from(s@, 0),
        invariant
            i <= n,
            n == s@.len(),
            nl@ == seq!['\n'],
        ensures
            out.deep_view() == lines_from(s@, 0),
        decreases n - i,
    {
        if i == n {
            proof {
                assert(out.deep_view() =~~= lines_from(s@, 0));
            }
            break ;
        }
        match find_sub(s, &nl, i) {
            Some(j) => {
                proof {
                    lemma_find_from_some(s@, nl@, i as int, j as int);
                }
                let mut line: Vec<char> = Vec::new();
                if j > i && s[j - 1] == '\r' {
                    push_range(&mut line, s, i, j - 1);
                    proof {
                        assert(line@ =~= strip_cr(s@.subrange(i as int, j as int)));
                    }
                } else {
                    push_range(&mut line, s, i, j);
                    proof {
                        assert(line@ =~= strip_cr(s@.subrange(i as int, j as int)));
                    }
                }
                let ghost dold = out.deep_view();
                out.push(line);
                proof {
                    assert(out.deep_view() =~~= dold.push(line@));
                    assert(out.deep_view() + lines_from(s@, j + 1) =~~= lines_from(s@, 0));
                }
                i = j + 1;
            },
            None => {
                let mut line: Vec<char> = Vec::new();
                push_range(&mut line, s, i, n);
                let ghost dold = out.deep_view();
                out.push(line);
                proof {
                    assert(out.deep_view() =~~= dold.push(line@));
                    assert(out.deep_view() =~~= lines_from(s@, 0));
                }
                break ;
            },
        }
    }
    out
}

/// The pieces of `s` from position `i` on, split at each occurrence of `sep`
/// scanning left to right, as `str::split` yields them.
pub open spec fn split_on_from(s: Seq<char>, sep: Seq<char>, i: int) -> Seq<Seq<char>>
    decreases s.len() - i,
    via split_on_from_decreases
{
    if !(0 <= i <= s.len()) || sep.len() == 0 {
        Seq::empty()
    } else {
        match find_from(s, sep, i) {
            Some(j) => seq![s.subrange(i, j)] + split_on_from(s, sep, j + sep.len() as int),
            None => seq![s.subrange(i, s.len() as int)],
        }
    }
}

#[via_fn]
proof fn split_on_from_decreases(s: Seq<char>, sep: Seq<char>, i: int) {
    if 0 <= i <= s.len() && sep.len() > 0 {
        if let Some(j) = find_from(s, sep, i) {
            lemma_find_from_some(s, sep, i, j);
        }
    }
}

/// Splits `s` at each occurrence of `sep`.
pub fn split_on_vec(s: &Vec<char>, sep: &Vec<char>) -> (r: Vec<Vec<char>>)
    requires
        sep@.len() > 0,
    ensures
        r.deep_view() == split_on_from(s@, sep@, 0),
{
    let n = s.len();
    let mut out: Vec<Vec<char>> = Vec::new();
    let mut i: usize = 0;
    loop
        invariant_except_break
            out.deep_view() + split_on_from(s@, sep@, i as int) == split_on_from(s@, sep@, 0),
        invariant
            i <= n,
            n == s@.len(),
            sep@.len() > 0,
        ensures
            out.deep_view() == split_on_from(s@, sep@, 0),
        decreases n - i,
    {
        match find_sub(s, sep, i) {
            Some(j) => {
                proof {
                    lemma_find_from_some(s@, sep@, i as int, j as int);
                }
                let mut piece: Vec<char> = Vec::new();
                push_range(&mut piece, s, i, j);
                let ghost dold = out.deep_view();
                out.push(piece);
                proof {
                    assert(out.deep_view() =~~= dold.push(piece@));
                    assert(out.deep_view() + split_on_from(s@, sep@, j + sep@.len()) =~~= split_on_from(
                        s@,
                        sep@,
                        0,
                    ));
                }
                i = j + sep.len();
            },
            None => {
                let mut piece: Vec<char> = Vec::new();
                push_range(&mut piece, s, i, n);
                let ghost dold = out.deep_view();
                out.push(piece);
                proof {
                    assert(out.deep_view() =~~= dold.push(piece@));
                    assert(out.deep_view() =~~= split_on_from(s@, sep@, 0));
                }
                break ;
            },
        }
    }
    out
}

/// The pieces of `ls` from index `i` on, joined with single spaces, as
/// `[&str]::join(" ")` builds them.
pub open spec fn join_sp_from(ls: Seq<Seq<char>>, i: int) -> Seq<char>
    decreases ls.len() - i,
{
    if !(0 <= i < ls.len()) {
        Seq::empty()
    } else if i == ls.len() - 1 {
        ls[i]
    } else {
        ls[i] + seq![' '] + join_sp_from(ls, i + 1)
    }
}

/// Joins `ls[from..]` with single spaces.
pub fn join_sp_vec(ls: &Vec<Vec<char>>, from: usize) -> (r: Vec<char>)
    requires
        from <= ls@.len(),
    ensures
        r@ == join_sp_from(ls.deep_view(), from as int),
{
    let n = ls.len();
    let mut out: Vec<char> = Vec::new();
    let mut i = from;
    while i < n
        invariant
            from <= i <= n,
            n == ls@.len(),
            out@ + join_sp_from(ls.deep_view(), i as int) == join_sp_from(
                ls.deep_view(),
                from as int,
            ),
        decreases n - i,
    {
        let piece = &ls[i];
        push_range(&mut out, piece, 0, piece.len());
        proof {
            assert(piece@.subrange(0, piece@.len() as int) =~= piece@);
            assert(piece@ == ls.deep_view()[i as int]);
        }
        if i + 1 < n {
            out.push(' ');
            proof {
                assert(out@ + join_sp_from(ls.deep_view(), i + 1) =~= join_sp_from(
                    ls.deep_view(),
                    from as int,
                ));
            }
        } else {
            proof {
                assert(out@ + join_sp_from(ls.deep_view(), i + 1) =~= join_sp_from(
                    ls.deep_view(),
                    from as int,
                ));
            }
        }
        i += 1;
    }
    proof {
        assert(out@ =~= join_sp_from(ls.deep_view(), from as int));
    }
    out
}

pub proof fn lemma_sub_at_concat_l(a: Seq<char>, b: Seq<char>, p: Seq<char>, i: int)
    requires
        sub_at(a, p, i),
    ensures
        sub_at(a + b, p, i),
{
    assert((a + b).subrange(i, i + p.len() as int) =~= a.subrange(i, i + p.len() as int));
}

pub proof fn lemma_sub_at_concat_r(a: Seq<char>, b: Seq<char>, p: Seq<char>, i: int)
    requires
        sub_at(b, p, i),
    ensures
        sub_at(a + b, p, a.len() + i),
{
    assert((a + b).subrange(a.len() + i, a.len() + i + p.len() as int) =~= b.subrange(
        i,
        i + p.len() as int,
    ));
}

/// An occurrence wholly inside a window of `s` is an occurrence in the
/// window.
pub proof fn lemma_sub_at_within(s: Seq<char>, p: Seq<char>, q: int, lo: int, hi: int)
    requires
        sub_at(s, p, q),
        0 <= lo <= q,
        q + p.len() <= hi <= s.len(),
    ensures
        sub_at(s.subrange(lo, hi), p, q - lo),
{
    assert(s.subrange(lo, hi).subrange(q - lo, q - lo + p.len() as int) =~= s.subrange(
        q,
        q + p.len() as int,
    ));
}

} // verus!
