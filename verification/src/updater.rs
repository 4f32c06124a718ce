//! The source fetcher's pure half: turning the raw blocklist text into
//! the canonical domain list, and choosing between the remote payload and
//! the local fallback.
//!
//! The network request and the fallback file read happen outside the
//! library; their outcomes come in as plain values. `fetch_from_sources`
//! prefers the remote payload, falls back to the local copy, and fails
//! only when both are unavailable, carrying the fallback failure.

use vstd::prelude::*;
use vstd::string::*;
use crate::blocklist::{parse_blocklist, spec_parse};
use crate::hosts_modifier::{is_space, is_space_char};

verus! {

/// The index of the first occurrence of `c` at or after `i`;
/// the length of `s` when there is none.
pub open spec fn find_char_from(s: Seq<char>, c: char, i: int) -> int
    decreases s.len() - i,
{
    if i < 0 || i >= s.len() {
        s.len() as int
    } else if s[i] == c {
        i
    } else {
        find_char_from(s, c, i + 1)
    }
}

/// A position with no occurrence before it, that matches or is the end,
/// is exactly what `find_char_from` returns.
proof fn lemma_find_char_at(s: Seq<char>, c: char, i: int, j: int)
    requires
        0 <= i <= j <= s.len(),
        forall|k: int| i <= k < j ==> s[k] != c,
        j == s.len() || s[j] == c,
    ensures
        find_char_from(s, c, i) == j,
    decreases j - i,
{
    if i < j {
        lemma_find_char_at(s, c, i + 1, j);
    }
}

/// A line segment with one trailing carriage return removed, so that
/// text with either line ending splits into the same lines.
pub open spec fn chop_cr(s: Seq<char>) -> Seq<char> {
    if s.len() > 0 && s.last() == '\r' {
        s.drop_last()
    } else {
        s
    }
}

/// The lines of a text: segments between newlines, each with a trailing
/// carriage return removed; a final newline opens no further line.
pub open spec fn spec_split_lines(s: Seq<char>) -> Seq<Seq<char>>
    decreases s.len(),
{
    if s.len() == 0 {
        Seq::empty()
    } else {
        let k = find_char_from(s, '\n', 0);
        if 0 <= k && k < s.len() {
            seq![chop_cr(s.take(k))] + spec_split_lines(s.skip(k + 1))
        } else {
            seq![s]
        }
    }
}

/// Splits the text into lines at newlines, removing a carriage return
/// at the end of each line.
pub fn split_lines(text: &String) -> (r: Vec<String>)
    ensures
        r.deep_view() == spec_split_lines(text@),
{
    let ghost tv = text@;
    let s = text.as_str();
    let n = s.unicode_len();
    let mut out: Vec<String> = Vec::new();
    let mut st: usize = 0;
    let mut i: usize = 0;
    proof {
        assert(tv.skip(0) =~= tv);
        assert(out.deep_view() =~= Seq::<Seq<char>>::empty());
        assert(Seq::<Seq<char>>::empty() + spec_split_lines(tv) =~= spec_split_lines(tv));
    }
    while i < n
        invariant
            st <= i <= n,
            n == tv.len(),
            tv == text@,
            s@ == tv,
            spec_split_lines(tv) == out.deep_view() + spec_split_lines(tv.skip(st as int)),
            forall|k: int| st <= k < i ==> tv[k] != '\n',
        decreases n - i,
    {
        let c = s.get_char(i);
        if c == '\n' {
            let line_end = if i > st && s.get_char(i - 1) == '\r' {
                i - 1
            } else {
                i
            };
            let line = s.substring_char(st, line_end).to_owned();
            let ghost prev = out.deep_view();
            out.push(line);
            proof {
                let suf = tv.skip(st as int);
                assert(forall|k: int| 0 <= k < i - st ==> suf[k] == tv[k + st] && suf[k] != '\n');
                assert(suf[i - st] == '\n');
                lemma_find_char_at(suf, '\n', 0, i - st);
                assert(suf.take(i - st) =~= tv.subrange(st as int, i as int));
                if i > st && tv[i - 1] == '\r' {
                    assert(suf.take(i - st).last() == tv[i - 1]);
                    assert(chop_cr(suf.take(i - st)) =~= tv.subrange(st as int, line_end as int));
                } else {
                    assert(chop_cr(suf.take(i - st)) =~= tv.subrange(st as int, line_end as int));
                }
                assert(out.deep_view() =~= prev + seq![chop_cr(suf.take(i - st))]);
                assert(suf.skip(i - st + 1) =~= tv.skip(i + 1));
                assert(prev + (seq![chop_cr(suf.take(i - st))] + spec_split_lines(tv.skip(i + 1)))
                    =~= out.deep_view() + spec_split_lines(tv.skip(i + 1)));
            }
            st = i + 1;
        }
        i += 1;
    }
    if st < n {
        let line = s.substring_char(st, n).to_owned();
        let ghost prev = out.deep_view();
        out.push(line);
        proof {
            let suf = tv.skip(st as int);
            assert(forall|k: int| 0 <= k < suf.len() ==> suf[k] == tv[k + st] && suf[k] != '\n');
            lemma_find_char_at(suf, '\n', 0, suf.len() as int);
            assert(suf =~= tv.subrange(st as int, n as int));
            assert(out.deep_view() =~= prev + seq![suf]);
        }
    } else {
        proof {
            assert(tv.skip(st as int) =~= Seq::<char>::empty());
            assert(out.deep_view() + spec_split_lines(Seq::<char>::empty()) =~= out.deep_view());
        }
    }
    out
}

/// The text with leading blank characters removed.
pub open spec fn trim_front(s: Seq<char>) -> Seq<char>
    decreases s.len(),
{
    if s.len() > 0 && is_space_char(s[0]) {
        trim_front(s.drop_first())
    } else {
        s
    }
}

/// The text with trailing blank characters removed.
pub open spec fn trim_back(s: Seq<char>) -> Seq<char>
    decreases s.len(),
{
    if s.len() > 0 && is_space_char(s.last()) {
        trim_back(s.drop_last())
    } else {
        s
    }
}

/// The text with surrounding blank characters removed.
pub open spec fn spec_trim(s: Seq<char>) -> Seq<char> {
    trim_back(trim_front(s))
}

/// Removing leading blanks is skipping to the first non-blank position.
proof fn lemma_trim_front_at(s: Seq<char>, a: int)
    requires
        0 <= a <= s.len(),
        forall|k: int| 0 <= k < a ==> is_space_char(s[k]),
        a < s.len() ==> !is_space_char(s[a]),
    ensures
        trim_front(s) == s.skip(a),
    decreases s.len(),
{
    if s.len() > 0 && is_space_char(s[0]) {
        assert(a >= 1);
        lemma_trim_front_at(s.drop_first(), a - 1);
        assert(s.drop_first() =~= s.skip(1));
        assert(s.skip(1).skip(a - 1) =~= s.skip(a));
    } else {
        assert(a == 0);
        assert(s.skip(0) =~= s);
    }
}

/// Removing trailing blanks is taking up to the last non-blank position.
proof fn lemma_trim_back_at(s: Seq<char>, b: int)
    requires
        0 <= b <= s.len(),
        forall|k: int| b <= k < s.len() ==> is_space_char(s[k]),
        b > 0 ==> !is_space_char(s[b - 1]),
    ensures
        trim_back(s) == s.take(b),
    decreases s.len(),
{
    if s.len() > 0 && is_space_char(s.last()) {
        assert(b < s.len());
        lemma_trim_back_at(s.drop_last(), b);
        assert(s.drop_last().take(b) =~= s.take(b));
    } else {
        assert(b == s.len());
        assert(s.take(b) =~= s);
    }
}

/// The first position in `st` that holds no blank character.
fn first_non_space(st: &str) -> (a: usize)
    ensures
        a <= st@.len(),
        forall|k: int| 0 <= k < a ==> is_space_char(st@[k]),
        a < st@.len() ==> !is_space_char(st@[a as int]),
{
    let n = st.unicode_len();
    let mut a: usize = 0;
    while a < n
        invariant
            a <= n,
            n == st@.len(),
            forall|k: int| 0 <= k < a ==> is_space_char(st@[k]),
        decreases n - a,
    {
        if !is_space(st.get_char(a)) {
            return a;
        }
        a += 1;
    }
    a
}

/// The position after the last non-blank character of `st` at or after
/// `from`; `from` itself when everything after it is blank.
fn last_non_space(st: &str, from: usize) -> (b: usize)
    requires
        from <= st@.len(),
    ensures
        from <= b <= st@.len(),
        forall|k: int| b <= k < st@.len() ==> is_space_char(st@[k]),
        b > from ==> !is_space_char(st@[b - 1]),
{
    let mut b: usize = st.unicode_len();
    while b > from
        invariant
            from <= b <= st@.len(),
            forall|k: int| b <= k < st@.len() ==> is_space_char(st@[k]),
        decreases b,
    {
        if !is_space(st.get_char(b - 1)) {
            return b;
        }
        b -= 1;
    }
    b
}

/// Removes surrounding blank characters from a line.
pub fn trim_line(s: &String) -> (r: String)
    ensures
        r@ == spec_trim(s@),
{
    let ghost sv = s@;
    let st = s.as_str();
    let a = first_non_space(st);
    let b = last_non_space(st, a);
    proof {
        lemma_trim_front_at(sv, a as int);
        let tf = sv.skip(a as int);
        if b == a {
            lemma_trim_back_at(tf, 0);
        } else {
            assert(tf[b - a - 1] == sv[b - 1]);
            assert(forall|k: int| b - a <= k < tf.len() ==> tf[k] == sv[k + a]);
            lemma_trim_back_at(tf, b - a);
        }
        assert(tf.take(b - a) =~= sv.subrange(a as int, b as int));
    }
    st.substring_char(a, b).to_owned()
}

/// The canonical domain list of a raw blocklist text: its lines, each
/// trimmed, with blank and `#`-prefixed lines dropped, in order.
pub open spec fn spec_normalize(text: Seq<char>) -> Seq<Seq<char>> {
    spec_parse(spec_split_lines(text).map_values(|l: Seq<char>| spec_trim(l)))
}

/// Normalizes a raw blocklist text into the domain list: split into
/// lines, trim each, drop blank lines and comments, keep the order.
pub fn normalize_blocklist(text: &String) -> (r: Vec<String>)
    ensures
        r.deep_view() == spec_normalize(text@),
{
    let lines = split_lines(text);
    let ghost lv = lines.deep_view();
    let mut trimmed: Vec<String> = Vec::new();
    let mut i: usize = 0;
    proof {
        assert(trimmed.deep_view() =~= lv.take(0).map_values(|l: Seq<char>| spec_trim(l)));
    }
    while i < lines.len()
        invariant
            i <= lines@.len(),
            lv == lines.deep_view(),
            trimmed.deep_view() == lv.take(i as int).map_values(|l: Seq<char>| spec_trim(l)),
        decreases lines@.len() - i,
    {
        let ghost prev = trimmed.deep_view();
        trimmed.push(trim_line(&lines[i]));
        i += 1;
        proof {
            assert(trimmed.deep_view() =~= prev.push(spec_trim(lv[i - 1])));
            assert(prev.push(spec_trim(lv[i - 1])) =~= lv.take(i as int).map_values(
                |l: Seq<char>| spec_trim(l),
            ));
        }
    }
    proof {
        assert(lv.take(lines@.len() as int) =~= lv);
    }
    parse_blocklist(&trimmed)
}

/// The failure of a fetch: both the remote endpoint and the local
/// fallback were unavailable. Carries the fallback failure, the final
/// attempt.
#[derive(Debug)]
pub struct FetchError {
    pub message: String,
}

impl FetchError {
    /// The carried failure text.
    pub fn message(&self) -> (r: &String)
        ensures
            r@ == self.message@,
    {
        &self.message
    }
}

/// Resolves one fetch from the outcomes of its two sources: the remote
/// payload when the request succeeded, else the fallback file's content,
/// else failure carrying the fallback error. A successful outcome is
/// normalized into the domain list.
pub fn fetch_from_sources(remote: Option<String>, fallback: Result<String, String>) -> (r: Result<
    Vec<String>,
    FetchError,
>)
    ensures
        remote matches Some(t) ==> (r matches Ok(v) && v.deep_view() == spec_normalize(t@)),
        remote is None ==> (fallback matches Ok(t) ==> (r matches Ok(v) && v.deep_view()
            == spec_normalize(t@))),
        remote is None ==> (fallback matches Err(m) ==> (r matches Err(e) && e.message@ == m@)),
{
    match remote {
        Option::Some(t) => Result::Ok(normalize_blocklist(&t)),
        Option::None => match fallback {
            Result::Ok(t) => Result::Ok(normalize_blocklist(&t)),
            Result::Err(m) => Result::Err(FetchError { message: m }),
        },
    }
}

} // verus!
