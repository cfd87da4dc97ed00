use crate::model::{
    alts_lack_group, lacks_group, match_alts, match_pat, match_repeat, match_seq, match_whole,
    seq_lacks_group, Captures, MatchResult, Pat,
};
use crate::regex::{captures_opt, Regex};
use vstd::prelude::*;

verus! {

/// A match is a function of the tree and the subject alone: two matches of one regex against
/// one subject give the same result.
pub proof fn lemma_match_deterministic(
    r: Regex,
    s: Seq<char>,
    first: Option<MatchResult>,
    second: Option<MatchResult>,
)
    requires
        captures_opt(first) == match_whole(r@, s),
        captures_opt(second) == match_whole(r@, s),
    ensures
        captures_opt(first) == captures_opt(second),
{
}

/// A match must take the whole subject: when the tree stops before the end, there is no match,
/// even though the tree matched a prefix.
pub proof fn lemma_prefix_match_is_no_match(p: Pat, s: Seq<char>)
    ensures
        match_pat(p, s, 0, Map::empty()).0 matches Some(e) && e < s.len() ==> match_whole(
            p,
            s,
        ) is None,
        match_whole(p, s) is Some <==> match_pat(p, s, 0, Map::empty()).0 == Some(s.len() as int),
{
}

/// Whenever a regex matches, group 0 holds the whole subject.
pub proof fn lemma_group_zero_is_subject(r: Regex, s: Seq<char>)
    requires
        r.wf(),
    ensures
        match_whole(r@, s) matches Some(caps) ==> caps.contains_key(0) && caps[0] == s,
{
    if match_whole(r@, s) is Some {
        assert(s.subrange(0, s.len() as int) =~= s);
    }
}

/// `a` and `b` agree on group `n`: both lack it, or both hold the same text for it.
pub open spec fn same_at(a: Captures, b: Captures, n: usize) -> bool {
    a.contains_key(n) == b.contains_key(n) && (a.contains_key(n) ==> a[n] == b[n])
}

/// A pattern that matches ends between where it started and the end of the subject.
pub proof fn lemma_match_bounds(p: Pat, s: Seq<char>, pos: int, caps: Captures)
    requires
        0 <= pos <= s.len(),
    ensures
        match_pat(p, s, pos, caps).0 matches Some(e) ==> pos <= e <= s.len(),
    decreases p, 0nat, 0int,
{
    match p {
        Pat::Group(_, alts) => lemma_alts_bounds(alts, 0, s, pos, caps),
        Pat::Repeat(inner) => lemma_repeat_bounds(*inner, s, pos, caps),
        _ => {},
    }
}

proof fn lemma_alts_bounds(alts: Seq<Seq<Pat>>, i: nat, s: Seq<char>, pos: int, caps: Captures)
    requires
        0 <= pos <= s.len(),
    ensures
        match_alts(alts, i, s, pos, caps).0 matches Some(e) ==> pos <= e <= s.len(),
    decreases alts, 0nat, alts.len() - i,
{
    if i < alts.len() {
        lemma_seq_bounds(alts[i as int], 0, s, pos, caps);
        let (end, after) = match_seq(alts[i as int], 0, s, pos, caps);
        if end is None {
            lemma_alts_bounds(alts, i + 1, s, pos, after);
        }
    }
}

proof fn lemma_seq_bounds(items: Seq<Pat>, i: nat, s: Seq<char>, pos: int, caps: Captures)
    requires
        0 <= pos <= s.len(),
    ensures
        match_seq(items, i, s, pos, caps).0 matches Some(e) ==> pos <= e <= s.len(),
    decreases items, 0nat, items.len() - i,
{
    if i < items.len() {
        lemma_match_bounds(items[i as int], s, pos, caps);
        let (end, after) = match_pat(items[i as int], s, pos, caps);
        if let Some(e) = end {
            lemma_seq_bounds(items, i + 1, s, e, after);
        }
    }
}

/// A repeat always matches, and ends between where it started and the end of the subject.
pub proof fn lemma_repeat_bounds(inner: Pat, s: Seq<char>, pos: int, caps: Captures)
    requires
        0 <= pos <= s.len(),
    ensures
        match_repeat(inner, s, pos, caps).0 matches Some(e) && pos <= e <= s.len(),
    decreases inner, 1nat, s.len() - pos,
{
    lemma_match_bounds(inner, s, pos, caps);
    let (end, after) = match_pat(inner, s, pos, caps);
    if let Some(e) = end {
        if pos < e <= s.len() {
            lemma_repeat_bounds(inner, s, e, after);
        }
    }
}

/// Matching a pattern with no group numbered `n` leaves the capture of `n` as it was.
pub proof fn lemma_match_keeps(p: Pat, s: Seq<char>, pos: int, caps: Captures, n: usize)
    requires
        lacks_group(p, n),
    ensures
        same_at(match_pat(p, s, pos, caps).1, caps, n),
    decreases p, 0nat, 0int,
{
    match p {
        Pat::Group(_, alts) => lemma_alts_keep(alts, 0, s, pos, caps, n),
        Pat::Repeat(inner) => lemma_repeat_keeps(*inner, s, pos, caps, n),
        _ => {},
    }
}

proof fn lemma_alts_keep(
    alts: Seq<Seq<Pat>>,
    i: nat,
    s: Seq<char>,
    pos: int,
    caps: Captures,
    n: usize,
)
    requires
        alts_lack_group(alts, i, n),
    ensures
        same_at(match_alts(alts, i, s, pos, caps).1, caps, n),
    decreases alts, 0nat, alts.len() - i,
{
    if i < alts.len() {
        lemma_seq_keeps(alts[i as int], 0, s, pos, caps, n);
        let (end, after) = match_seq(alts[i as int], 0, s, pos, caps);
        if end is None {
            lemma_alts_keep(alts, i + 1, s, pos, after, n);
        }
    }
}

proof fn lemma_seq_keeps(items: Seq<Pat>, i: nat, s: Seq<char>, pos: int, caps: Captures, n: usize)
    requires
        seq_lacks_group(items, i, n),
    ensures
        same_at(match_seq(items, i, s, pos, caps).1, caps, n),
    decreases items, 0nat, items.len() - i,
{
    if i < items.len() {
        lemma_match_keeps(items[i as int], s, pos, caps, n);
        let (end, after) = match_pat(items[i as int], s, pos, caps);
        if let Some(e) = end {
            lemma_seq_keeps(items, i + 1, s, e, after, n);
        }
    }
}

proof fn lemma_repeat_keeps(inner: Pat, s: Seq<char>, pos: int, caps: Captures, n: usize)
    requires
        lacks_group(inner, n),
    ensures
        same_at(match_repeat(inner, s, pos, caps).1, caps, n),
    decreases inner, 1nat, s.len() - pos,
{
    lemma_match_keeps(inner, s, pos, caps, n);
    let (end, after) = match_pat(inner, s, pos, caps);
    if let Some(e) = end {
        if pos < e <= s.len() {
            lemma_repeat_keeps(inner, s, e, after, n);
        }
    }
}

/// A group directly under a repeat keeps only what its last round matched, not all that the
/// repeat took: when the repeat consumes text, the group holds the text of a single match of its
/// own branches that ends where the repeat ends. Groups nested inside it are numbered otherwise.
pub proof fn lemma_repeat_keeps_last_round(
    n: usize,
    alts: Seq<Seq<Pat>>,
    s: Seq<char>,
    pos: int,
    caps: Captures,
)
    requires
        0 <= pos <= s.len(),
        alts_lack_group(alts, 0, n),
    ensures
        ({
            let (end, after) = match_pat(
                Pat::Repeat(Box::new(Pat::Group(n, alts))),
                s,
                pos,
                caps,
            );
            let e = end->0;
            end is Some && pos < e ==> exists|q: int, c: Captures|
                pos <= q <= e && #[trigger] match_alts(alts, 0, s, q, c).0 == Some(e)
                    && after.contains_key(n) && after[n] == s.subrange(q, e)
        }),
    decreases s.len() - pos,
{
    let g = Pat::Group(n, alts);
    lemma_match_bounds(g, s, pos, caps);
    let (r1, c1) = match_pat(g, s, pos, caps);
    if let Some(e1) = r1 {
        if pos < e1 {
            lemma_repeat_keeps_last_round(n, alts, s, e1, c1);
            lemma_repeat_bounds(g, s, e1, c1);
            let (end, after) = match_repeat(g, s, e1, c1);
            let e = end->0;
            if e == e1 {
                lemma_match_bounds(g, s, e1, c1);
                let (r2, c2) = match_pat(g, s, e1, c1);
                match r2 {
                    Some(e2) => {
                        if e1 < e2 {
                            lemma_repeat_bounds(g, s, e2, c2);
                        } else {
                            let c = c1;
                            assert(match_alts(alts, 0, s, e1, c).0 == Some(e1));
                        }
                    },
                    None => {
                        lemma_alts_keep(alts, 0, s, e1, c1, n);
                        assert(match_alts(alts, 0, s, pos, caps).0 == Some(e1));
                    },
                }
            }
        }
    }
}

} // verus!
