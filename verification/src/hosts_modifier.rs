//! The managed-block patcher.
//!
//! The hosts file is modelled as a sequence of lines. The managed block is
//! the span from the start-marker line through the end-marker line,
//! inclusive. `apply_blocklist` excises any existing block, trims trailing
//! blank lines, and appends a freshly built block: four loopback mapping
//! lines per domain between the two markers. `cleanup_hosts` removes the
//! block and every line inside it, keeping all other lines verbatim.

use vstd::prelude::*;
use vstd::string::*;

verus! {

/// The sentinel line that opens the managed block.
pub open spec fn start_tag() -> Seq<char> {
    "# BEGIN GAMBLEGUARD"@
}

/// The sentinel line that closes the managed block.
pub open spec fn end_tag() -> Seq<char> {
    "# END GAMBLEGUARD"@
}

/// The start-marker line as an owned string.
pub fn start_tag_string() -> (r: String)
    ensures
        r@ == start_tag(),
{
    "# BEGIN GAMBLEGUARD".to_owned()
}

/// The end-marker line as an owned string.
pub fn end_tag_string() -> (r: String)
    ensures
        r@ == end_tag(),
{
    "# END GAMBLEGUARD".to_owned()
}

/// The four mapping lines that neutralize one domain: IPv4 and IPv6
/// loopback, each for the bare domain and for its `www.` variant.
pub open spec fn block_lines_for(d: Seq<char>) -> Seq<Seq<char>> {
    seq![
        "127.0.0.1 "@ + d,
        "127.0.0.1 www."@ + d,
        "::1 "@ + d,
        "::1 www."@ + d,
    ]
}

/// The mapping lines for a whole domain list, four per domain, in order.
pub open spec fn block_lines(domains: Seq<Seq<char>>) -> Seq<Seq<char>>
    decreases domains.len(),
{
    if domains.len() == 0 {
        Seq::empty()
    } else {
        block_lines(domains.drop_last()) + block_lines_for(domains.last())
    }
}

/// The full managed block: start marker, mapping lines, end marker.
pub open spec fn managed_block(domains: Seq<Seq<char>>) -> Seq<Seq<char>> {
    seq![start_tag()] + block_lines(domains) + seq![end_tag()]
}

/// Appends the four mapping lines for one domain.
fn push_block_lines(out: &mut Vec<String>, domain: &String)
    ensures
        final(out).deep_view() == old(out).deep_view() + block_lines_for(domain@),
{
    let ghost prev = out.deep_view();
    let mut l1 = "127.0.0.1 ".to_owned();
    l1.append(domain.as_str());
    out.push(l1);
    let mut l2 = "127.0.0.1 www.".to_owned();
    l2.append(domain.as_str());
    out.push(l2);
    let mut l3 = "::1 ".to_owned();
    l3.append(domain.as_str());
    out.push(l3);
    let mut l4 = "::1 www.".to_owned();
    l4.append(domain.as_str());
    out.push(l4);
    proof {
        assert(out.deep_view() =~= prev + block_lines_for(domain@));
    }
}

/// Builds the managed block for the given domains, markers included.
pub fn build_managed_block(domains: &Vec<String>) -> (r: Vec<String>)
    ensures
        r.deep_view() == managed_block(domains.deep_view()),
{
    let ghost dv = domains.deep_view();
    let mut out: Vec<String> = Vec::new();
    out.push(start_tag_string());
    proof {
        assert(out.deep_view() =~= seq![start_tag()] + block_lines(dv.take(0)));
    }
    let mut i: usize = 0;
    while i < domains.len()
        invariant
            i <= domains@.len(),
            dv == domains.deep_view(),
            out.deep_view() == seq![start_tag()] + block_lines(dv.take(i as int)),
        decreases domains@.len() - i,
    {
        let ghost prev = out.deep_view();
        push_block_lines(&mut out, &domains[i]);
        i += 1;
        proof {
            assert(dv.take(i as int).drop_last() =~= dv.take(i - 1));
            assert(dv.take(i as int).last() == dv[i - 1]);
            assert(out.deep_view() =~= seq![start_tag()] + block_lines(dv.take(i as int)));
        }
    }
    proof {
        assert(dv.take(domains@.len() as int) =~= dv);
    }
    out.push(end_tag_string());
    proof {
        assert(out.deep_view() =~= managed_block(dv));
    }
    out
}

/// No line of the sequence is a marker line. This holds of all content
/// the patcher does not own: the markers are reserved sentinels.
pub open spec fn marker_free(lines: Seq<Seq<char>>) -> bool {
    forall|k: int| 0 <= k < lines.len() ==> lines[k] != start_tag() && lines[k] != end_tag()
}

/// The index of the first line at or after `i` equal to `tag`;
/// the length of `lines` when no such line exists.
pub open spec fn find_from(lines: Seq<Seq<char>>, tag: Seq<char>, i: int) -> int
    decreases lines.len() - i,
{
    if i < 0 || i >= lines.len() {
        lines.len() as int
    } else if lines[i] == tag {
        i
    } else {
        find_from(lines, tag, i + 1)
    }
}

/// A position with no match before it, that matches or is the end,
/// is exactly what `find_from` returns.
pub proof fn lemma_find_from_at(lines: Seq<Seq<char>>, tag: Seq<char>, i: int, j: int)
    requires
        0 <= i <= j <= lines.len(),
        forall|k: int| i <= k < j ==> lines[k] != tag,
        j == lines.len() || lines[j] == tag,
    ensures
        find_from(lines, tag, i) == j,
    decreases j - i,
{
    if i < j {
        lemma_find_from_at(lines, tag, i + 1, j);
    }
}

/// Finds the first line at or after `from` equal to `tag`;
/// returns the length of `lines` when none matches.
pub fn find_line(lines: &Vec<String>, tag: &String, from: usize) -> (r: usize)
    requires
        from <= lines@.len(),
    ensures
        r == find_from(lines.deep_view(), tag@, from as int),
        from <= r <= lines@.len(),
{
    let ghost dv = lines.deep_view();
    let mut j: usize = from;
    while j < lines.len()
        invariant
            from <= j <= lines@.len(),
            dv == lines.deep_view(),
            find_from(dv, tag@, from as int) == find_from(dv, tag@, j as int),
        decreases lines@.len() - j,
    {
        if lines[j].eq(tag) {
            return j;
        }
        j += 1;
    }
    j
}

/// Is the character one of the blank characters: space, tab,
/// carriage return?
pub open spec fn is_space_char(c: char) -> bool {
    c == ' ' || c == '\t' || c == '\r'
}

/// Is the character one of the blank characters?
pub fn is_space(c: char) -> (r: bool)
    ensures
        r == is_space_char(c),
{
    c == ' ' || c == '\t' || c == '\r'
}

/// A line is blank when every character in it is a blank character;
/// the empty line is blank.
pub open spec fn is_blank(s: Seq<char>) -> bool {
    forall|k: int| 0 <= k < s.len() ==> is_space_char(s[k])
}

/// Is this line blank?
pub fn line_is_blank(s: &String) -> (r: bool)
    ensures
        r == is_blank(s@),
{
    let n = s.as_str().unicode_len();
    let mut k: usize = 0;
    while k < n
        invariant
            k <= n,
            n == s@.len(),
            forall|m: int| 0 <= m < k ==> is_space_char(s@[m]),
        decreases n - k,
    {
        if !is_space(s.as_str().get_char(k)) {
            return false;
        }
        k += 1;
    }
    true
}

/// The lines with every trailing blank line removed.
pub open spec fn strip_trailing_blank(lines: Seq<Seq<char>>) -> Seq<Seq<char>>
    decreases lines.len(),
{
    if lines.len() > 0 && is_blank(lines.last()) {
        strip_trailing_blank(lines.drop_last())
    } else {
        lines
    }
}

/// The lines with any existing managed block excised, markers included.
/// Without a start marker followed (at or after it) by an end marker,
/// no managed block is present and the lines are returned unchanged.
pub open spec fn spec_remove_block(lines: Seq<Seq<char>>) -> Seq<Seq<char>> {
    let s = find_from(lines, start_tag(), 0);
    let e = find_from(lines, end_tag(), s);
    if s < lines.len() && e < lines.len() {
        lines.take(s) + lines.skip(e + 1)
    } else {
        lines
    }
}

/// The new hosts content: the old content with any previous managed
/// block excised and trailing blank lines trimmed, followed by a fresh
/// managed block for exactly the given domains.
pub open spec fn spec_apply(domains: Seq<Seq<char>>, hosts: Seq<Seq<char>>) -> Seq<Seq<char>> {
    strip_trailing_blank(spec_remove_block(hosts)) + managed_block(domains)
}

/// Appends clones of `src[from..to]` to `out`.
fn push_range(out: &mut Vec<String>, src: &Vec<String>, from: usize, to: usize)
    requires
        from <= to <= src@.len(),
    ensures
        final(out).deep_view() == old(out).deep_view() + src.deep_view().subrange(
            from as int,
            to as int,
        ),
{
    let ghost prev = out.deep_view();
    let ghost sv = src.deep_view();
    let mut j: usize = from;
    while j < to
        invariant
            from <= j <= to <= src@.len(),
            sv == src.deep_view(),
            prev == old(out).deep_view(),
            out.deep_view() == prev + sv.subrange(from as int, j as int),
        decreases to - j,
    {
        let ghost before = out.deep_view();
        out.push(src[j].clone());
        proof {
            assert(out.deep_view() =~= before.push(sv[j as int]));
            assert(before.push(sv[j as int]) =~= prev + sv.subrange(from as int, j + 1));
        }
        j += 1;
    }
}

/// Removes every trailing blank line of `lines` in place.
fn truncate_trailing_blank(lines: &mut Vec<String>)
    ensures
        final(lines).deep_view() == strip_trailing_blank(old(lines).deep_view()),
{
    let ghost dv = lines.deep_view();
    let mut n: usize = lines.len();
    proof {
        assert(dv.take(lines@.len() as int) =~= dv);
    }
    while n > 0 && line_is_blank(&lines[n - 1])
        invariant
            n <= lines@.len(),
            dv == lines.deep_view(),
            strip_trailing_blank(dv) == strip_trailing_blank(dv.take(n as int)),
        decreases n,
    {
        proof {
            assert(dv.take(n as int).last() == dv[n - 1]);
            assert(dv.take(n as int).drop_last() =~= dv.take(n - 1));
        }
        n -= 1;
    }
    proof {
        if n > 0 {
            assert(dv.take(n as int).last() == dv[n - 1]);
        }
        assert(strip_trailing_blank(dv.take(n as int)) == dv.take(n as int));
    }
    lines.truncate(n);
    proof {
        assert(lines.deep_view() =~= dv.take(n as int));
    }
}

/// Replaces any existing managed block with a fresh one for exactly the
/// given domains: the previous block (if any) is excised, trailing blank
/// lines are trimmed, and the new block is appended.
pub fn apply_blocklist(domains: &Vec<String>, hosts: &Vec<String>) -> (r: Vec<String>)
    ensures
        r.deep_view() == spec_apply(domains.deep_view(), hosts.deep_view()),
{
    let ghost hv = hosts.deep_view();
    let start = start_tag_string();
    let end = end_tag_string();
    let s = find_line(hosts, &start, 0);
    let e = find_line(hosts, &end, s);
    let mut base: Vec<String> = Vec::new();
    if s < hosts.len() && e < hosts.len() {
        push_range(&mut base, hosts, 0, s);
        push_range(&mut base, hosts, e + 1, hosts.len());
        proof {
            assert(hv.subrange(0, s as int) =~= hv.take(s as int));
            assert(hv.subrange(e + 1, hv.len() as int) =~= hv.skip(e + 1));
            assert(base.deep_view() =~= spec_remove_block(hv));
        }
    } else {
        push_range(&mut base, hosts, 0, hosts.len());
        proof {
            assert(hv.subrange(0, hv.len() as int) =~= hv);
            assert(base.deep_view() =~= spec_remove_block(hv));
        }
    }
    truncate_trailing_blank(&mut base);
    let mut block = build_managed_block(domains);
    let ghost basev = base.deep_view();
    base.append(&mut block);
    proof {
        assert(base.deep_view() =~= basev + managed_block(domains.deep_view()));
    }
    base
}

/// The reversal scan: drops a start-marker line and everything up to and
/// including the next end-marker line; keeps every other line verbatim.
/// `inside` records whether the scan currently stands inside the block.
pub open spec fn spec_cleanup_from(lines: Seq<Seq<char>>, inside: bool) -> Seq<Seq<char>>
    decreases lines.len(),
{
    if lines.len() == 0 {
        Seq::empty()
    } else if lines[0] == start_tag() {
        spec_cleanup_from(lines.drop_first(), true)
    } else if lines[0] == end_tag() {
        spec_cleanup_from(lines.drop_first(), false)
    } else if inside {
        spec_cleanup_from(lines.drop_first(), inside)
    } else {
        seq![lines[0]] + spec_cleanup_from(lines.drop_first(), inside)
    }
}

/// The hosts content with the managed block and all its lines removed.
pub open spec fn spec_cleanup(lines: Seq<Seq<char>>) -> Seq<Seq<char>> {
    spec_cleanup_from(lines, false)
}

/// Strips the managed block from the hosts content: both marker lines
/// and every line between them are dropped; all other lines are kept
/// verbatim, in order.
pub fn cleanup_hosts(hosts: &Vec<String>) -> (r: Vec<String>)
    ensures
        r.deep_view() == spec_cleanup(hosts.deep_view()),
{
    let ghost hv = hosts.deep_view();
    let start = start_tag_string();
    let end = end_tag_string();
    let mut out: Vec<String> = Vec::new();
    let mut inside = false;
    let mut i: usize = 0;
    proof {
        assert(out.deep_view() =~= Seq::<Seq<char>>::empty());
        assert(hv.skip(0) =~= hv);
        assert(Seq::<Seq<char>>::empty() + spec_cleanup_from(hv, false) =~= spec_cleanup_from(
            hv,
            false,
        ));
    }
    while i < hosts.len()
        invariant
            i <= hosts@.len(),
            hv == hosts.deep_view(),
            start@ == start_tag(),
            end@ == end_tag(),
            spec_cleanup(hv) == out.deep_view() + spec_cleanup_from(hv.skip(i as int), inside),
        decreases hosts@.len() - i,
    {
        let ghost prev = out.deep_view();
        proof {
            assert(hv.skip(i as int)[0] == hv[i as int]);
            assert(hv.skip(i as int).drop_first() =~= hv.skip(i + 1));
        }
        let line = &hosts[i];
        if line.eq(&start) {
            inside = true;
        } else if line.eq(&end) {
            inside = false;
        } else if !inside {
            out.push(line.clone());
            proof {
                assert(out.deep_view() =~= prev + seq![hv[i as int]]);
            }
        }
        i += 1;
    }
    proof {
        assert(hv.skip(hv.len() as int) =~= Seq::<Seq<char>>::empty());
        assert(out.deep_view() =~= out.deep_view() + spec_cleanup_from(
            hv.skip(hv.len() as int),
            inside,
        ));
    }
    out
}

} // verus!
