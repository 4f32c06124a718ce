//! Normalization of raw blocklist entries into the canonical domain list.
//!
//! A raw entry survives when it is non-empty and does not start with `#`
//! (the comment convention). Order is preserved; no deduplication and no
//! case folding take place.

use vstd::prelude::*;

verus! {

/// A line survives normalization: it is non-empty and is not a comment.
pub open spec fn keep_line(s: Seq<char>) -> bool {
    s.len() > 0 && s[0] != '#'
}

/// The canonical domain list: the entries that survive, in order.
pub open spec fn spec_parse(lines: Seq<Seq<char>>) -> Seq<Seq<char>> {
    lines.filter(|s: Seq<char>| keep_line(s))
}

/// Does this entry survive normalization?
pub fn line_survives(s: &String) -> (r: bool)
    ensures
        r == keep_line(s@),
{
    if s.as_str().is_empty() {
        false
    } else {
        s.as_str().get_char(0) != '#'
    }
}

/// Drops empty and `#`-prefixed entries; keeps the rest in their
/// original relative order, without deduplication.
pub fn parse_blocklist(domains: &Vec<String>) -> (r: Vec<String>)
    ensures
        r.deep_view() == spec_parse(domains.deep_view()),
{
    let mut out: Vec<String> = Vec::new();
    let mut i: usize = 0;
    while i < domains.len()
        invariant
            i <= domains@.len(),
            out.deep_view() == domains.deep_view().take(i as int).filter(|s: Seq<char>| keep_line(s)),
        decreases domains@.len() - i,
    {
        let ghost dv = domains.deep_view();
        let ghost prev = out.deep_view();
        let d = &domains[i];
        if line_survives(d) {
            out.push(d.clone());
            proof {
                assert(out.deep_view() =~= prev.push(d@));
            }
        }
        i += 1;
        proof {
            reveal(Seq::filter);
            assert(dv.take(i as int).drop_last() =~= dv.take(i - 1));
            assert(dv.take(i as int).last() == dv[i - 1]);
        }
    }
    proof {
        assert(domains.deep_view().take(domains@.len() as int) =~= domains.deep_view());
    }
    out
}

} // verus!
