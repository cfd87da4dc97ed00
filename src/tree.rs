use crate::model::{
    blank_chars, captures_of, escape_pat, literal_escape, match_alts, match_pat, match_repeat,
    match_seq, MatchResult, Pat,
};
use crate::text::substring;
use std::collections::BTreeSet;
use std::rc::Rc;
use vstd::prelude::*;

verus! {

broadcast use vstd::std_specs::btree::group_btree_axioms, vstd::laws_cmp::group_laws_cmp;

/// A node of a pattern tree. Sequences and alternations stand inside groups.
pub enum Node {
    /// A literal character.
    Char(char),
    /// A character class.
    Class(CharClassNode),
    /// A capture group.
    Grp(GrpNode),
    /// Zero or more greedy repetitions of a node, which it may share with its neighbour.
    Rpt(Rc<Node>),
}

/// A character class; an element is held by its code point.
pub struct CharClassNode {
    pub elems: BTreeSet<u32>,
    pub negated: bool,
}

/// Nodes that match one after another.
pub struct SeqNode {
    pub nodes: Vec<Rc<Node>>,
}

/// Branches of which the first that matches is taken.
pub struct AltNode {
    pub alts: Vec<SeqNode>,
}

/// A capture group.
pub struct GrpNode {
    pub num: usize,
    pub alt: AltNode,
}

/// The characters whose code points are in `codes`.
pub open spec fn chars_with_codes(codes: Set<u32>) -> Set<char> {
    Set::new(|c: char| codes.contains(c as u32))
}

/// The pattern that a node stands for.
pub open spec fn node_pat(n: Node) -> Pat
    decreases n,
{
    match n {
        Node::Char(c) => Pat::Char(c),
        Node::Class(k) => Pat::Class(chars_with_codes(k.elems@), k.negated),
        Node::Grp(g) => {
            proof {
                broadcast use vstd::std_specs::vec::axiom_vec_decreases_to_view;

                assert(decreases_to!(n => g.alt.alts@));
            }
            Pat::Group(g.num, alts_pat(g.alt.alts@))
        },
        Node::Rpt(r) => Pat::Repeat(Box::new(node_pat(*r))),
    }
}

/// The branches that a list of sequences stands for.
pub open spec fn alts_pat(alts: Seq<SeqNode>) -> Seq<Seq<Pat>>
    decreases alts,
{
    if alts.len() == 0 {
        Seq::empty()
    } else {
        proof {
            broadcast use vstd::std_specs::vec::axiom_vec_decreases_to_view;

            assert(decreases_to!(alts => alts.drop_last()));
            assert(decreases_to!(alts => alts.last().nodes@));
        }
        alts_pat(alts.drop_last()).push(items_pat(alts.last().nodes@))
    }
}

/// The items that a list of nodes stands for.
pub open spec fn items_pat(items: Seq<Rc<Node>>) -> Seq<Pat>
    decreases items,
{
    if items.len() == 0 {
        Seq::empty()
    } else {
        proof {
            assert(decreases_to!(items => items.drop_last()));
        }
        items_pat(items.drop_last()).push(node_pat(*items.last()))
    }
}

impl View for Node {
    type V = Pat;

    open spec fn view(&self) -> Pat {
        node_pat(*self)
    }
}

impl View for SeqNode {
    type V = Seq<Pat>;

    open spec fn view(&self) -> Seq<Pat> {
        items_pat(self.nodes@)
    }
}

impl View for AltNode {
    type V = Seq<Seq<Pat>>;

    open spec fn view(&self) -> Seq<Seq<Pat>> {
        alts_pat(self.alts@)
    }
}

impl View for GrpNode {
    type V = Pat;

    open spec fn view(&self) -> Pat {
        Pat::Group(self.num, self.alt@)
    }
}

impl View for CharClassNode {
    type V = Pat;

    open spec fn view(&self) -> Pat {
        Pat::Class(chars_with_codes(self.elems@), self.negated)
    }
}

/// The end position of a match, as the model states it.
pub open spec fn end_of(r: Option<usize>) -> Option<int> {
    match r {
        Some(e) => Some(e as int),
        None => None,
    }
}

/// The items of a list of nodes correspond one to one with its nodes.
pub proof fn lemma_items_pat(items: Seq<Rc<Node>>)
    ensures
        items_pat(items).len() == items.len(),
        forall|i: int| 0 <= i < items.len() ==> #[trigger] items_pat(items)[i] == (*items[i])@,
    decreases items.len(),
{
    if items.len() > 0 {
        lemma_items_pat(items.drop_last());
    }
}

/// The branches of a list of sequences correspond one to one with its sequences.
pub proof fn lemma_alts_pat(alts: Seq<SeqNode>)
    ensures
        alts_pat(alts).len() == alts.len(),
        forall|i: int| 0 <= i < alts.len() ==> #[trigger] alts_pat(alts)[i] == alts[i]@,
    decreases alts.len(),
{
    if alts.len() > 0 {
        lemma_alts_pat(alts.drop_last());
    }
}

/// Recording a capture in a match result records its text in the captures.
proof fn lemma_captures_insert(m: Map<usize, String>, k: usize, v: String)
    ensures
        captures_of(m.insert(k, v)) == captures_of(m).insert(k, v@),
{
    assert(captures_of(m.insert(k, v)) =~= captures_of(m).insert(k, v@));
}

impl CharClassNode {
    /// Whether the class admits `c`.
    pub fn admits(&self, c: char) -> (r: bool)
        ensures
            r == (chars_with_codes(self.elems@).contains(c) != self.negated),
    {
        let in_elems = self.elems.contains(&(c as u32));
        (self.negated && !in_elems) || (!self.negated && in_elems)
    }
}

impl Node {
    /// Matches this node against `s` from `pos`, recording group captures in `mr`.
    pub fn match_at(&self, s: &Vec<char>, pos: usize, mr: &mut MatchResult) -> (r: Option<usize>)
        requires
            pos <= s.len(),
        ensures
            r matches Some(e) ==> pos <= e <= s.len(),
            (end_of(r), captures_of(final(mr)@)) == match_pat(
                self@,
                s@,
                pos as int,
                captures_of(old(mr)@),
            ),
        decreases self@, 1nat, 0int,
    {
        match self {
            Node::Char(c) => {
                if pos < s.len() && s[pos] == *c {
                    Some(pos + 1)
                } else {
                    None
                }
            },
            Node::Class(k) => {
                if pos < s.len() && k.admits(s[pos]) {
                    Some(pos + 1)
                } else {
                    None
                }
            },
            Node::Grp(g) => g.match_at(s, pos, mr),
            Node::Rpt(inner) => {
                // Each round that consumes text moves the savepoint `cur` forward; a round that
                // fails or consumes nothing ends the repeat at the last savepoint.
                let ghost p = (**inner)@;
                let mut cur = pos;
                loop
                    invariant
                        pos <= cur <= s.len(),
                        p == (**inner)@,
                        self@ == Pat::Repeat(Box::new(p)),
                        match_repeat(p, s@, cur as int, captures_of(mr@)) == match_repeat(
                            p,
                            s@,
                            pos as int,
                            captures_of(old(mr)@),
                        ),
                    decreases s.len() - cur,
                {
                    proof {
                        assert(decreases_to!(self@ => self@->Repeat_0));
                    }
                    match inner.match_at(s, cur, mr) {
                        Some(e) => {
                            if cur < e {
                                cur = e;
                            } else {
                                return Some(cur);
                            }
                        },
                        None => {
                            return Some(cur);
                        },
                    }
                }
            },
        }
    }
}

impl GrpNode {
    /// Matches the group's alternation and, on success, records what it took.
    pub fn match_at(&self, s: &Vec<char>, pos: usize, mr: &mut MatchResult) -> (r: Option<usize>)
        requires
            pos <= s.len(),
        ensures
            r matches Some(e) ==> pos <= e <= s.len(),
            (end_of(r), captures_of(final(mr)@)) == match_pat(
                self@,
                s@,
                pos as int,
                captures_of(old(mr)@),
            ),
        decreases self@, 0nat, 0int,
    {
        proof {
            assert(decreases_to!(self@ => self@->Group_1));
        }
        let r = self.alt.match_at(s, pos, mr);
        match r {
            Some(e) => {
                let text = substring(s, pos, e);
                proof {
                    lemma_captures_insert(mr@, self.num, text);
                }
                mr.insert(self.num, text);
                Some(e)
            },
            None => None,
        }
    }
}

impl AltNode {
    /// Tries each branch in order against `s` from `pos`; the first that matches decides.
    pub fn match_at(&self, s: &Vec<char>, pos: usize, mr: &mut MatchResult) -> (r: Option<usize>)
        requires
            pos <= s.len(),
        ensures
            r matches Some(e) ==> pos <= e <= s.len(),
            (end_of(r), captures_of(final(mr)@)) == match_alts(
                self@,
                0,
                s@,
                pos as int,
                captures_of(old(mr)@),
            ),
        decreases self@, 0nat, 0int,
    {
        proof {
            lemma_alts_pat(self.alts@);
        }
        let mut i: usize = 0;
        while i < self.alts.len()
            invariant
                i <= self.alts.len(),
                pos <= s.len(),
                alts_pat(self.alts@).len() == self.alts.len(),
                forall|j: int|
                    0 <= j < self.alts.len() ==> #[trigger] alts_pat(self.alts@)[j]
                        == self.alts@[j]@,
                match_alts(self@, i as nat, s@, pos as int, captures_of(mr@)) == match_alts(
                    self@,
                    0,
                    s@,
                    pos as int,
                    captures_of(old(mr)@),
                ),
            decreases self.alts.len() - i,
        {
            let r = self.alts[i].match_at(s, pos, mr);
            if r.is_some() {
                return r;
            }
            i += 1;
        }
        None
    }
}

impl SeqNode {
    /// Matches the nodes one after another against `s` from `pos`.
    pub fn match_at(&self, s: &Vec<char>, pos: usize, mr: &mut MatchResult) -> (r: Option<usize>)
        requires
            pos <= s.len(),
        ensures
            r matches Some(e) ==> pos <= e <= s.len(),
            (end_of(r), captures_of(final(mr)@)) == match_seq(
                self@,
                0,
                s@,
                pos as int,
                captures_of(old(mr)@),
            ),
        decreases self@, 0nat, 0int,
    {
        proof {
            lemma_items_pat(self.nodes@);
        }
        let mut i: usize = 0;
        let mut cur = pos;
        while i < self.nodes.len()
            invariant
                i <= self.nodes.len(),
                pos <= cur <= s.len(),
                items_pat(self.nodes@).len() == self.nodes.len(),
                forall|j: int|
                    0 <= j < self.nodes.len() ==> #[trigger] items_pat(self.nodes@)[j]
                        == (*self.nodes@[j])@,
                match_seq(self@, i as nat, s@, cur as int, captures_of(mr@)) == match_seq(
                    self@,
                    0,
                    s@,
                    pos as int,
                    captures_of(old(mr)@),
                ),
            decreases self.nodes.len() - i,
        {
            match self.nodes[i].match_at(s, cur, mr) {
                Some(e) => {
                    cur = e;
                },
                None => {
                    return None;
                },
            }
            i += 1;
        }
        Some(cur)
    }
}

/// Adding a character's code point adds that character, and no other: distinct characters have
/// distinct code points.
pub proof fn lemma_codes_insert(codes: Set<u32>, c: char)
    ensures
        chars_with_codes(codes.insert(c as u32)) == chars_with_codes(codes).insert(c),
{
    assert forall|x: char| #[trigger]
        chars_with_codes(codes.insert(c as u32)).contains(x) == chars_with_codes(codes).insert(
            c,
        ).contains(x) by {
        if x as u32 == c as u32 {
            vstd::utf8::char_u32_cast(x, x as u32);
            vstd::utf8::char_u32_cast(c, c as u32);
        }
    }
    assert(chars_with_codes(codes.insert(c as u32)) =~= chars_with_codes(codes).insert(c));
}

/// Appending a node appends its pattern.
pub proof fn lemma_items_pat_push(items: Seq<Rc<Node>>, n: Rc<Node>)
    ensures
        items_pat(items.push(n)) == items_pat(items).push((*n)@),
{
    assert(items.push(n).drop_last() =~= items);
}

/// Appending a sequence appends its branch.
pub proof fn lemma_alts_pat_push(alts: Seq<SeqNode>, a: SeqNode)
    ensures
        alts_pat(alts.push(a)) == alts_pat(alts).push(a@),
{
    assert(alts.push(a).drop_last() =~= alts);
}

impl CharClassNode {
    /// The class of the given characters.
    pub fn from_vec(elems: Vec<char>, negated: bool) -> (r: CharClassNode)
        ensures
            r@ == Pat::Class(elems@.to_set(), negated),
    {
        let mut codes: BTreeSet<u32> = BTreeSet::new();
        let mut i: usize = 0;
        while i < elems.len()
            invariant
                i <= elems.len(),
                forall|x: char| #[trigger]
                    chars_with_codes(codes@).contains(x) <==> exists|j: int|
                        0 <= j < i && elems@[j] == x,
            decreases elems.len() - i,
        {
            proof {
                lemma_codes_insert(codes@, elems@[i as int]);
            }
            codes.insert(elems[i] as u32);
            i += 1;
            assert forall|x: char| #[trigger]
                chars_with_codes(codes@).contains(x) <==> exists|j: int|
                    0 <= j < i && elems@[j] == x by {
                if x == elems@[i - 1] {
                    assert(elems@[i - 1] == x);
                }
            }
        }
        assert(chars_with_codes(codes@) =~= elems@.to_set());
        CharClassNode { elems: codes, negated }
    }
}

impl SeqNode {
    /// An empty sequence.
    pub fn new() -> (r: SeqNode)
        ensures
            r@ == Seq::<Pat>::empty(),
    {
        SeqNode { nodes: Vec::new() }
    }

    /// Appends a node.
    pub fn push(&mut self, node: Rc<Node>)
        ensures
            final(self)@ == old(self)@.push((*node)@),
    {
        proof {
            lemma_items_pat_push(self.nodes@, node);
        }
        self.nodes.push(node);
    }

    /// Appends a literal character.
    pub fn push_char(&mut self, c: char)
        ensures
            final(self)@ == old(self)@.push(Pat::Char(c)),
    {
        self.push(Rc::new(Node::Char(c)));
    }

    /// Appends a group.
    pub fn push_grp(&mut self, grp: GrpNode)
        ensures
            final(self)@ == old(self)@.push(grp@),
    {
        self.push(Rc::new(Node::Grp(grp)));
    }

    /// Removes and returns the last node, if any.
    pub fn pop(&mut self) -> (r: Option<Rc<Node>>)
        ensures
            old(self)@.len() == 0 ==> r is None && final(self)@ == old(self)@,
            old(self)@.len() > 0 ==> (r matches Some(n) && (*n)@ == old(self)@.last()
                && final(self)@ == old(self)@.drop_last()),
    {
        proof {
            lemma_items_pat(self.nodes@);
        }
        let r = self.nodes.pop();
        proof {
            if old(self).nodes@.len() > 0 {
                assert(old(self).nodes@.drop_last() == self.nodes@);
            }
        }
        r
    }

    /// A second handle to the last node, if any; the sequence is left as it is.
    pub fn clone_back(&self) -> (r: Option<Rc<Node>>)
        ensures
            self@.len() == 0 ==> r is None,
            self@.len() > 0 ==> (r matches Some(n) && (*n)@ == self@.last()),
    {
        proof {
            lemma_items_pat(self.nodes@);
        }
        let len = self.nodes.len();
        if len == 0 {
            None
        } else {
            Some(crate::text::share(&self.nodes[len - 1]))
        }
    }
}

/// The character that `\c` stands for, where it stands for a single literal.
pub fn parse_escape_char(c: char) -> (r: Option<char>)
    ensures
        r == literal_escape(c),
{
    if c == '\\' || c == '(' || c == ')' || c == '[' || c == ']' || c == '*' || c == '+' || c
        == '^' {
        Some(c)
    } else if c == 't' {
        Some('\t')
    } else {
        None
    }
}

/// The node that `\c` stands for outside a class.
pub fn parse_escape(c: char) -> (r: Option<Rc<Node>>)
    ensures
        match escape_pat(c) {
            Some(p) => r matches Some(n) && (*n)@ == p,
            None => r is None,
        },
{
    if c == 's' || c == 'S' {
        let k = CharClassNode::from_vec(vec![' ', '\t'], c == 'S');
        proof {
            let v = seq![' ', '\t'];
            assert(v[0] == ' ' && v[1] == '\t');
            assert(v.to_set() =~= blank_chars());
        }
        Some(Rc::new(Node::Class(k)))
    } else {
        match parse_escape_char(c) {
            Some(d) => Some(Rc::new(Node::Char(d))),
            None => None,
        }
    }
}

} // verus!
