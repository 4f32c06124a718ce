//! The guarantees of the patcher, stated and proved once and for all:
//! repeated application converges to a single managed block instead of
//! accumulating content, and the reversal scan restores exactly the
//! content that the patcher never owned.

use vstd::prelude::*;
use crate::hosts_modifier::{
    block_lines, block_lines_for, end_tag, find_from, is_blank, lemma_find_from_at, managed_block,
    marker_free, spec_apply, spec_cleanup, spec_cleanup_from, spec_remove_block, start_tag,
    strip_trailing_blank,
};

verus! {

/// The two sentinel lines are distinct.
proof fn lemma_tags_distinct()
    ensures
        start_tag() != end_tag(),
{
    reveal_strlit("# BEGIN GAMBLEGUARD");
    reveal_strlit("# END GAMBLEGUARD");
    assert(start_tag().len() != end_tag().len());
}

/// No mapping line for a domain is a marker line: mapping lines open
/// with a loopback address, markers with `#`.
proof fn lemma_block_lines_for_no_marker(d: Seq<char>)
    ensures
        forall|k: int|
            0 <= k < block_lines_for(d).len() ==> block_lines_for(d)[k] != start_tag()
                && block_lines_for(d)[k] != end_tag(),
{
    reveal_strlit("# BEGIN GAMBLEGUARD");
    reveal_strlit("# END GAMBLEGUARD");
    reveal_strlit("127.0.0.1 ");
    reveal_strlit("127.0.0.1 www.");
    reveal_strlit("::1 ");
    reveal_strlit("::1 www.");
    let b = block_lines_for(d);
    assert(b[0][0] == '1');
    assert(b[1][0] == '1');
    assert(b[2][0] == ':');
    assert(b[3][0] == ':');
    assert(start_tag()[0] == '#');
    assert(end_tag()[0] == '#');
}

/// No line of the mapping-line section is a marker line.
proof fn lemma_block_lines_no_marker(d: Seq<Seq<char>>)
    ensures
        marker_free(block_lines(d)),
    decreases d.len(),
{
    if d.len() == 0 {
    } else {
        lemma_block_lines_no_marker(d.drop_last());
        lemma_block_lines_for_no_marker(d.last());
    }
}

/// Stripping trailing blank lines keeps a prefix of the lines unchanged.
proof fn lemma_strip_prefix(x: Seq<Seq<char>>)
    ensures
        strip_trailing_blank(x).len() <= x.len(),
        forall|k: int|
            0 <= k < strip_trailing_blank(x).len() ==> strip_trailing_blank(x)[k] == x[k],
    decreases x.len(),
{
    if x.len() > 0 && is_blank(x.last()) {
        lemma_strip_prefix(x.drop_last());
        assert forall|k: int|
            0 <= k < strip_trailing_blank(x).len() implies strip_trailing_blank(x)[k] == x[k] by {
            assert(strip_trailing_blank(x)[k] == strip_trailing_blank(x.drop_last())[k]);
            assert(x.drop_last()[k] == x[k]);
        }
    }
}

/// After stripping, the last line (if any) is not blank, so stripping
/// again changes nothing.
proof fn lemma_strip_stripped(x: Seq<Seq<char>>)
    ensures
        strip_trailing_blank(strip_trailing_blank(x)) == strip_trailing_blank(x),
    decreases x.len(),
{
    if x.len() > 0 && is_blank(x.last()) {
        lemma_strip_stripped(x.drop_last());
    }
}

/// The settled remainder of a hosts file: the old block excised and
/// trailing blank lines trimmed. Everything `apply` preserves.
pub open spec fn settled(hosts: Seq<Seq<char>>) -> Seq<Seq<char>> {
    strip_trailing_blank(spec_remove_block(hosts))
}

/// Applying a blocklist leaves the settled remainder exactly as it was:
/// excising the fresh block recovers it. Holds whenever the content the
/// patcher does not own carries no marker lines.
pub proof fn lemma_remove_after_apply(d: Seq<Seq<char>>, f: Seq<Seq<char>>)
    requires
        marker_free(spec_remove_block(f)),
    ensures
        settled(spec_apply(d, f)) == settled(f),
{
    let rr = settled(f);
    let bl = block_lines(d);
    let g = spec_apply(d, f);
    lemma_strip_prefix(spec_remove_block(f));
    assert forall|k: int|
        0 <= k < rr.len() implies rr[k] != start_tag() && rr[k] != end_tag() by {
        assert(rr[k] == spec_remove_block(f)[k]);
    }
    assert(marker_free(rr));
    lemma_tags_distinct();
    lemma_block_lines_no_marker(d);
    assert(g.len() == rr.len() + bl.len() + 2);
    assert(g[rr.len() as int] == start_tag());
    assert(g[g.len() - 1] == end_tag());
    assert(forall|k: int| 0 <= k < rr.len() ==> g[k] == rr[k]);
    assert(forall|k: int|
        rr.len() < k < g.len() - 1 ==> g[k] == bl[k - rr.len() - 1] && g[k] != start_tag()
            && g[k] != end_tag());
    lemma_find_from_at(g, start_tag(), 0, rr.len() as int);
    lemma_find_from_at(g, end_tag(), rr.len() as int, g.len() - 1);
    assert(g.take(rr.len() as int) =~= rr);
    assert(g.skip(g.len() as int) =~= Seq::<Seq<char>>::empty());
    assert(spec_remove_block(g) =~= rr);
    lemma_strip_stripped(spec_remove_block(f));
}

/// After an application exactly one managed block exists: the one start
/// marker stands right after the settled remainder, the one end marker
/// stands last, and the block holds exactly the mapping lines of the
/// domains just supplied.
pub proof fn lemma_apply_single_block(d: Seq<Seq<char>>, f: Seq<Seq<char>>)
    requires
        marker_free(spec_remove_block(f)),
    ensures
        spec_apply(d, f) == settled(f) + managed_block(d),
        forall|k: int|
            0 <= k < spec_apply(d, f).len() ==> ((spec_apply(d, f)[k] == start_tag()) <==> k
                == settled(f).len()),
        forall|k: int|
            0 <= k < spec_apply(d, f).len() ==> ((spec_apply(d, f)[k] == end_tag()) <==> k
                == spec_apply(d, f).len() - 1),
{
    let rr = settled(f);
    let bl = block_lines(d);
    let g = spec_apply(d, f);
    lemma_strip_prefix(spec_remove_block(f));
    assert forall|k: int|
        0 <= k < rr.len() implies rr[k] != start_tag() && rr[k] != end_tag() by {
        assert(rr[k] == spec_remove_block(f)[k]);
    }
    lemma_tags_distinct();
    lemma_block_lines_no_marker(d);
    assert(g.len() == rr.len() + bl.len() + 2);
    assert(g[rr.len() as int] == start_tag());
    assert(g[g.len() - 1] == end_tag());
    assert(forall|k: int| 0 <= k < rr.len() ==> g[k] == rr[k]);
    assert(forall|k: int|
        rr.len() < k < g.len() - 1 ==> g[k] == bl[k - rr.len() - 1] && g[k] != start_tag()
            && g[k] != end_tag());
}

/// Idempotence: applying the same domain list twice yields exactly the
/// file the first application produced — one managed block, identical
/// content, no accumulation.
pub proof fn lemma_apply_idempotent(d: Seq<Seq<char>>, f: Seq<Seq<char>>)
    requires
        marker_free(spec_remove_block(f)),
    ensures
        spec_apply(d, spec_apply(d, f)) == spec_apply(d, f),
{
    lemma_remove_after_apply(d, f);
}

/// Convergence, not accumulation: applying one domain list and then
/// another leaves exactly the file the second list alone would have
/// produced — no residue of the first list, and the content the patcher
/// does not own is unchanged.
pub proof fn lemma_apply_converges(d1: Seq<Seq<char>>, d2: Seq<Seq<char>>, f: Seq<Seq<char>>)
    requires
        marker_free(spec_remove_block(f)),
    ensures
        spec_apply(d2, spec_apply(d1, f)) == spec_apply(d2, f),
{
    lemma_remove_after_apply(d1, f);
}

/// Outside the managed block, the reversal scan keeps lines verbatim.
proof fn lemma_cleanup_keeps_outside(xs: Seq<Seq<char>>, rest: Seq<Seq<char>>)
    requires
        marker_free(xs),
    ensures
        spec_cleanup_from(xs + rest, false) == xs + spec_cleanup_from(rest, false),
    decreases xs.len(),
{
    if xs.len() == 0 {
        assert(xs + rest =~= rest);
        assert(xs + spec_cleanup_from(rest, false) =~= spec_cleanup_from(rest, false));
    } else {
        assert((xs + rest)[0] == xs[0]);
        assert((xs + rest).drop_first() =~= xs.drop_first() + rest);
        lemma_cleanup_keeps_outside(xs.drop_first(), rest);
        assert(seq![xs[0]] + (xs.drop_first() + spec_cleanup_from(rest, false)) =~= xs
            + spec_cleanup_from(rest, false));
    }
}

/// Inside the managed block, the reversal scan drops every line until
/// the end marker.
proof fn lemma_cleanup_drops_inside(xs: Seq<Seq<char>>, rest: Seq<Seq<char>>)
    requires
        marker_free(xs),
    ensures
        spec_cleanup_from(xs + rest, true) == spec_cleanup_from(rest, true),
    decreases xs.len(),
{
    if xs.len() == 0 {
        assert(xs + rest =~= rest);
    } else {
        assert((xs + rest)[0] == xs[0]);
        assert((xs + rest).drop_first() =~= xs.drop_first() + rest);
        lemma_cleanup_drops_inside(xs.drop_first(), rest);
    }
}

/// The reversal scan leaves marker-free content unchanged.
proof fn lemma_cleanup_no_block(xs: Seq<Seq<char>>)
    requires
        marker_free(xs),
    ensures
        spec_cleanup_from(xs, false) == xs,
{
    lemma_cleanup_keeps_outside(xs, Seq::empty());
    assert(xs + Seq::<Seq<char>>::empty() =~= xs);
}

/// Round-trip cleanup: on a file of unrelated lines around a well-formed
/// managed block, reversal returns exactly the unrelated lines — no
/// marker and no mapping line remains.
pub proof fn lemma_cleanup_round_trip(
    pre: Seq<Seq<char>>,
    d: Seq<Seq<char>>,
    post: Seq<Seq<char>>,
)
    requires
        marker_free(pre),
        marker_free(post),
    ensures
        spec_cleanup(pre + managed_block(d) + post) == pre + post,
{
    let bl = block_lines(d);
    let tail = seq![end_tag()] + post;
    lemma_tags_distinct();
    lemma_block_lines_no_marker(d);
    assert(pre + managed_block(d) + post =~= pre + (seq![start_tag()] + (bl + tail)));
    lemma_cleanup_keeps_outside(pre, seq![start_tag()] + (bl + tail));
    let m = seq![start_tag()] + (bl + tail);
    assert(m[0] == start_tag());
    assert(m.drop_first() =~= bl + tail);
    lemma_cleanup_drops_inside(bl, tail);
    assert(tail[0] == end_tag());
    assert(tail.drop_first() =~= post);
    lemma_cleanup_no_block(post);
}

} // verus!
