use crate::model::{increasing_codes, render_alts, render_pat, render_seq, sorted_chars};
use crate::tree::{alts_pat, chars_with_codes, items_pat, AltNode, CharClassNode, GrpNode, Node, SeqNode};
use vstd::prelude::*;
use vstd::std_specs::btree::{increasing_seq, spec_btree_keys_iter};
use vstd::std_specs::cmp::OrdSpec;
use vstd::std_specs::iter::IteratorSpec;
use vstd::string::StringExecFns;

verus! {

broadcast use vstd::std_specs::btree::group_btree_axioms, vstd::laws_cmp::group_laws_cmp;

/// Relies on `char::from_u32`: the character whose code point is `i`; `None` only when `i` is
/// not a Unicode scalar value.
pub assume_specification[ core::char::from_u32 ](i: u32) -> (r: Option<char>)
    ensures
        r matches Some(c) ==> c as u32 == i,
        r is None ==> !vstd::utf8::is_scalar(i),
;

/// Characters with the same code point are the same character.
proof fn lemma_code_injective(x: char, y: char)
    requires
        x as u32 == y as u32,
    ensures
        x == y,
{
    vstd::utf8::char_u32_cast(x, x as u32);
    vstd::utf8::char_u32_cast(y, y as u32);
}

/// A set of characters has at most one listing in increasing order of code point.
pub proof fn lemma_sorted_listing_unique(a: Seq<char>, b: Seq<char>)
    requires
        increasing_codes(a),
        increasing_codes(b),
        a.to_set() == b.to_set(),
    ensures
        a == b,
    decreases a.len(),
{
    if a.len() == 0 {
        if b.len() > 0 {
            assert(b.to_set().contains(b[0]));
        }
        assert(a =~= b);
    } else {
        assert(a.to_set().contains(a[0]));
        assert(b.to_set().contains(a[0]));
        let j = choose|j: int| 0 <= j < b.len() && b[j] == a[0];
        assert(a.to_set().contains(b[0]));
        let i = choose|i: int| 0 <= i < a.len() && a[i] == b[0];
        if j > 0 {
            assert((b[0] as u32) < (b[j] as u32));
            if i > 0 {
                assert((a[0] as u32) < (a[i] as u32));
            }
            assert(false);
        }
        let ta = a.drop_first();
        let tb = b.drop_first();
        assert forall|c: char| ta.to_set().contains(c) == tb.to_set().contains(c) by {
            if ta.to_set().contains(c) {
                let k = choose|k: int| 0 <= k < ta.len() && ta[k] == c;
                assert(a[k + 1] == c);
                assert(a.to_set().contains(c));
                assert(b.to_set().contains(c));
                let m = choose|m: int| 0 <= m < b.len() && b[m] == c;
                if m == 0 {
                    assert((a[0] as u32) < (a[k + 1] as u32));
                }
                assert(tb[m - 1] == c);
            }
            if tb.to_set().contains(c) {
                let k = choose|k: int| 0 <= k < tb.len() && tb[k] == c;
                assert(b[k + 1] == c);
                assert(b.to_set().contains(c));
                assert(a.to_set().contains(c));
                let m = choose|m: int| 0 <= m < a.len() && a[m] == c;
                if m == 0 {
                    assert((b[0] as u32) < (b[k + 1] as u32));
                }
                assert(ta[m - 1] == c);
            }
        }
        assert(ta.to_set() =~= tb.to_set());
        lemma_sorted_listing_unique(ta, tb);
        assert(b[0] == a[0]);
        assert forall|n: int| 0 < n < a.len() implies a[n] == b[n] by {
            assert(a[n] == ta[n - 1]);
            assert(b[n] == tb[n - 1]);
        }
        assert(a =~= b);
    }
}

impl CharClassNode {
    /// Renders the class with its members in increasing order of code point.
    pub fn debug(&self) -> (r: String)
        ensures
            r@ == render_pat(self@),
    {
        let mut s = String::new();
        s.push('[');
        if self.negated {
            s.push('^');
        }
        let ghost head = s@;
        let ghost mut listed: Seq<char> = Seq::empty();
        let ghost all = spec_btree_keys_iter(&self.elems).remaining();
        proof {
            assert(increasing_seq(all));
            assert(vstd::laws_cmp::obeys_cmp::<u32>());
            assert(vstd::laws_cmp::obeys_cmp::<&u32>());
            vstd::std_specs::btree::axiom_increasing_seq_meaning::<&u32>(all);
            assert forall|i: int, j: int| 0 <= i < j < all.len() implies *all[i] < *all[j] by {
                assert(<&u32 as OrdSpec>::cmp_spec(&all[i], &all[j]) is Less);
            }
        }
        for u in iter: self.elems.iter()
            invariant
                iter.seq() == all,
                all.unref().to_set() == self.elems@,
                forall|i: int, j: int| 0 <= i < j < all.len() ==> *all[i] < *all[j],
                s@ == head + listed,
                increasing_codes(listed),
                forall|j: int, m: int|
                    0 <= j < listed.len() && iter.index() <= m < iter.seq().len() ==> (
                    listed[j] as u32) < *iter.seq()[m],
                forall|c: char|
                    listed.contains(c) <==> exists|i: int|
                        0 <= i < iter.index() && *iter.seq()[i] == c as u32,
        {
            let ghost k = iter.index();
            assert(*u == *all[k]);
            match core::char::from_u32(*u) {
                Some(c) => {
                    s.push(c);
                    proof {
                        let before = listed;
                        listed = listed.push(c);
                        assert(listed[listed.len() - 1] == c);
                        assert forall|x: char|
                            listed.contains(x) <==> exists|i: int|
                                0 <= i < k + 1 && *all[i] == x as u32 by {
                            if listed.contains(x) {
                                let j = choose|j: int| 0 <= j < listed.len() && listed[j] == x;
                                if j < before.len() {
                                    assert(before[j] == x);
                                    assert(before.contains(x));
                                    let i = choose|i: int| 0 <= i < k && *all[i] == x as u32;
                                    assert(0 <= i < k + 1 && *all[i] == x as u32);
                                } else {
                                    assert(x == c);
                                    assert(0 <= k < k + 1 && *all[k] == x as u32);
                                }
                            }
                            if exists|i: int| 0 <= i < k + 1 && *all[i] == x as u32 {
                                let i = choose|i: int| 0 <= i < k + 1 && *all[i] == x as u32;
                                if i == k {
                                    lemma_code_injective(x, c);
                                    assert(listed[listed.len() - 1] == x);
                                } else {
                                    assert(exists|i: int| 0 <= i < k && *all[i] == x as u32);
                                    assert(before.contains(x));
                                    let j = choose|j: int| 0 <= j < before.len() && before[j] == x;
                                    assert(listed[j] == x);
                                }
                            }
                        }
                    }
                },
                None => {
                    proof {
                        assert forall|x: char|
                            listed.contains(x) <==> exists|i: int|
                                0 <= i < k + 1 && *all[i] == x as u32 by {
                            if exists|i: int| 0 <= i < k + 1 && *all[i] == x as u32 {
                                let i = choose|i: int| 0 <= i < k + 1 && *all[i] == x as u32;
                                vstd::utf8::char_is_scalar(x);
                                assert(x as u32 != *u);
                                assert(0 <= i < k && *all[i] == x as u32);
                            }
                        }
                    }
                },
            }
        }
        proof {
            assert forall|x: char| #[trigger]
                listed.to_set().contains(x) == chars_with_codes(self.elems@).contains(x) by {
                if chars_with_codes(self.elems@).contains(x) {
                    assert(all.unref().to_set().contains(x as u32));
                    let i = choose|i: int| 0 <= i < all.unref().len() && all.unref()[i] == x as u32;
                    assert(*all[i] == x as u32);
                }
                if listed.contains(x) {
                    let i = choose|i: int| 0 <= i < all.len() && *all[i] == x as u32;
                    assert(all.unref()[i] == x as u32);
                    assert(all.unref().to_set().contains(x as u32));
                }
            }
            assert(listed.to_set() =~= chars_with_codes(self.elems@));
            lemma_sorted_listing_unique(listed, sorted_chars(chars_with_codes(self.elems@)));
        }
        s.push(']');
        proof {
            assert(s@ =~= render_pat(self@));
        }
        s
    }
}

impl Node {
    /// Renders the subtree rooted at this node.
    pub fn debug(&self) -> (r: String)
        ensures
            r@ == render_pat(self@),
        decreases self@, 1nat, 0int,
    {
        match self {
            Node::Char(c) => {
                let mut s = String::new();
                s.push('C');
                s.push('h');
                s.push('a');
                s.push('r');
                s.push('{');
                s.push(*c);
                s.push('}');
                proof {
                    assert(s@ =~= render_pat(self@));
                }
                s
            },
            Node::Class(k) => k.debug(),
            Node::Grp(g) => g.debug(),
            Node::Rpt(inner) => {
                proof {
                    assert(decreases_to!(self@ => self@->Repeat_0));
                }
                let mut s = inner.debug();
                s.push('*');
                s
            },
        }
    }
}

impl GrpNode {
    /// Renders the group; group 0 stands without its delimiters.
    pub fn debug(&self) -> (r: String)
        ensures
            r@ == render_pat(self@),
        decreases self@, 0nat, 0int,
    {
        proof {
            assert(decreases_to!(self@ => self@->Group_1));
        }
        let body = self.alt.debug();
        if self.num == 0 {
            body
        } else {
            let mut s = String::new();
            s.push('G');
            s.push('r');
            s.push('p');
            s.push('{');
            s.append(body.as_str());
            s.push('}');
            proof {
                assert(s@ =~= render_pat(self@));
            }
            s
        }
    }
}

impl AltNode {
    /// Renders the branches joined by `|`.
    pub fn debug(&self) -> (r: String)
        ensures
            r@ == render_alts(self@, 0),
        decreases self@, 0nat, 0int,
    {
        proof {
            crate::tree::lemma_alts_pat(self.alts@);
        }
        let mut s = String::new();
        let mut i: usize = 0;
        while i < self.alts.len()
            invariant
                i <= self.alts.len(),
                alts_pat(self.alts@).len() == self.alts.len(),
                forall|j: int|
                    0 <= j < self.alts.len() ==> #[trigger] alts_pat(self.alts@)[j]
                        == self.alts@[j]@,
                i == 0 ==> s@ == Seq::<char>::empty(),
                0 < i < self.alts.len() ==> s@ + seq!['|'] + render_alts(self@, i as nat)
                    == render_alts(self@, 0),
                0 < i == self.alts.len() ==> s@ == render_alts(self@, 0),
            decreases self.alts.len() - i,
        {
            let ghost before = s@;
            if i > 0 {
                s.push('|');
            }
            let part = self.alts[i].debug();
            s.append(part.as_str());
            proof {
                if i + 1 < self.alts.len() {
                    assert(render_alts(self@, i as nat) == render_seq(self@[i as int], 0) + seq![
                        '|',
                    ] + render_alts(self@, (i + 1) as nat));
                } else {
                    assert(render_alts(self@, i as nat) == render_seq(self@[i as int], 0));
                }
                if i == 0 {
                    assert(before =~= Seq::<char>::empty());
                    assert(s@ =~= render_seq(self@[0], 0));
                    if i + 1 < self.alts.len() {
                        assert(s@ + seq!['|'] + render_alts(self@, 1) =~= render_alts(self@, 0));
                    }
                } else {
                    if i + 1 < self.alts.len() {
                        assert(s@ + seq!['|'] + render_alts(self@, (i + 1) as nat) =~= before
                            + seq!['|'] + render_alts(self@, i as nat));
                    } else {
                        assert(s@ =~= before + seq!['|'] + render_alts(self@, i as nat));
                    }
                }
            }
            i += 1;
        }
        proof {
            if self.alts.len() == 0 {
                assert(s@ =~= render_alts(self@, 0));
            }
        }
        s
    }
}

impl SeqNode {
    /// Renders the nodes one after another.
    pub fn debug(&self) -> (r: String)
        ensures
            r@ == render_seq(self@, 0),
        decreases self@, 0nat, 0int,
    {
        proof {
            crate::tree::lemma_items_pat(self.nodes@);
        }
        let mut s = String::new();
        let mut i: usize = 0;
        while i < self.nodes.len()
            invariant
                i <= self.nodes.len(),
                items_pat(self.nodes@).len() == self.nodes.len(),
                forall|j: int|
                    0 <= j < self.nodes.len() ==> #[trigger] items_pat(self.nodes@)[j]
                        == (*self.nodes@[j])@,
                s@ + render_seq(self@, i as nat) == render_seq(self@, 0),
            decreases self.nodes.len() - i,
        {
            let part = self.nodes[i].debug();
            let ghost before = s@;
            s.append(part.as_str());
            proof {
                assert(s@ + render_seq(self@, (i + 1) as nat) =~= before + render_seq(
                    self@,
                    i as nat,
                ));
            }
            i += 1;
        }
        proof {
            assert(s@ =~= s@ + render_seq(self@, i as nat));
        }
        s
    }
}

} // verus!
