use crate::model::{
    append_item, class_rest, parse_body, parse_class, replace_item, ParseError, Pat,
};
use crate::tree::{
    alts_pat, chars_with_codes, lemma_alts_pat_push, parse_escape, parse_escape_char,
    AltNode, CharClassNode, GrpNode, Node, SeqNode,
};
use std::collections::BTreeSet;
use std::rc::Rc;
use vstd::prelude::*;

verus! {

broadcast use vstd::std_specs::btree::group_btree_axioms, vstd::laws_cmp::group_laws_cmp;

/// The branches of a group being read: those closed so far, then the open one.
pub open spec fn open_alts(done: Seq<SeqNode>, cur: SeqNode) -> Seq<Seq<Pat>> {
    alts_pat(done).push(cur@)
}

impl CharClassNode {
    /// Reads a class whose `[` stands just before `*pos`, and moves `*pos` past its `]`.
    pub fn parse(s: &Vec<char>, pos: &mut usize) -> (r: Result<CharClassNode, ParseError>)
        requires
            *old(pos) <= s.len(),
        ensures
            match parse_class(s@, *old(pos) as int) {
                Ok((p, end)) => (r matches Ok(k) && k@ == p && *final(pos) == end),
                Err(e) => r == Err::<CharClassNode, ParseError>(e),
            },
            r is Ok ==> *old(pos) < *final(pos) <= s.len(),
    {
        let mut elems: BTreeSet<u32> = BTreeSet::new();
        let mut negated = false;
        let mut seen = false;
        if *pos < s.len() && s[*pos] == '^' {
            negated = true;
            *pos = *pos + 1;
        }
        let ghost start = *pos as int;
        assert(chars_with_codes(elems@) =~= Set::<char>::empty());
        loop
            invariant_except_break
                class_rest(s@, *pos as int, chars_with_codes(elems@)) == class_rest(
                    s@,
                    start,
                    Set::empty(),
                ),
            invariant
                start <= *pos <= s.len(),
                *old(pos) <= start,
                negated == (*old(pos) < s.len() && s@[*old(pos) as int] == '^'),
                start == if negated {
                    *old(pos) + 1
                } else {
                    *old(pos) as int
                },
                seen == !chars_with_codes(elems@).is_empty(),
            ensures
                start < *pos <= s.len(),
                class_rest(s@, start, Set::empty()) == Ok::<(Set<char>, int), ParseError>(
                    (chars_with_codes(elems@), *pos as int),
                ),
            decreases s.len() - *pos,
        {
            if *pos >= s.len() {
                return Err(ParseError::UnterminatedClass);
            }
            let c = s[*pos];
            if c == ']' {
                *pos = *pos + 1;
                break;
            } else if c == '\\' {
                if *pos + 1 >= s.len() {
                    return Err(ParseError::MissingEscapedChar);
                }
                match parse_escape_char(s[*pos + 1]) {
                    Some(d) => {
                        proof {
                            crate::tree::lemma_codes_insert(elems@, d);
                        }
                        elems.insert(d as u32);
                        seen = true;
                        *pos = *pos + 2;
                    },
                    None => {
                        return Err(ParseError::InvalidEscape);
                    },
                }
            } else {
                proof {
                    crate::tree::lemma_codes_insert(elems@, c);
                }
                elems.insert(c as u32);
                seen = true;
                *pos = *pos + 1;
            }
        }
        if !seen {
            return Err(ParseError::EmptyClass);
        }
        Ok(CharClassNode { elems, negated })
    }
}

impl GrpNode {
    /// Reads the body of a group numbered `*num` from `*pos`, up to and past its `)` or to the
    /// end of the pattern. Nested groups take the next numbers, and `*num` ends as the highest
    /// number handed out. Only the root group refuses a `)`.
    pub fn parse(s: &Vec<char>, pos: &mut usize, num: &mut usize, root: bool) -> (r: Result<
        GrpNode,
        ParseError,
    >)
        requires
            *old(pos) <= s.len(),
            *old(num) <= *old(pos),
        ensures
            match parse_body(s@, *old(pos) as int, *old(num) as nat, root, seq![Seq::empty()]) {
                Ok((alts, end, count)) => (r matches Ok(g) && g@ == Pat::Group(*old(num), alts)
                    && *final(pos) == end && *final(num) == count),
                Err(e) => r == Err::<GrpNode, ParseError>(e),
            },
            r is Ok ==> *old(pos) <= *final(pos) <= s.len() && *final(num) <= *final(pos),
        decreases s.len() - *old(pos),
    {
        let number = *num;
        let mut done: Vec<SeqNode> = Vec::new();
        let mut cur = SeqNode::new();
        let ghost start = *pos as int;
        assert(open_alts(done@, cur) =~= seq![Seq::<Pat>::empty()]);
        loop
            invariant_except_break
                parse_body(s@, *pos as int, *num as nat, root, open_alts(done@, cur)) == parse_body(
                    s@,
                    start,
                    number as nat,
                    root,
                    seq![Seq::empty()],
                ),
            invariant
                start <= *pos <= s.len(),
                start == *old(pos),
                number == *old(num),
                *num <= *pos,
            ensures
                start <= *pos <= s.len(),
                *num <= *pos,
                parse_body(s@, start, number as nat, root, seq![Seq::empty()]) == Ok::<
                    (Seq<Seq<Pat>>, int, nat),
                    ParseError,
                >((open_alts(done@, cur), *pos as int, *num as nat)),
            decreases s.len() - *pos,
        {
            let ghost alts = open_alts(done@, cur);
            if *pos >= s.len() {
                break;
            }
            let c = s[*pos];
            if c == '(' {
                *pos = *pos + 1;
                *num = *num + 1;
                match GrpNode::parse(s, pos, num, false) {
                    Ok(g) => {
                        cur.push_grp(g);
                        assert(open_alts(done@, cur) =~= append_item(alts, g@));
                    },
                    Err(e) => {
                        return Err(e);
                    },
                }
            } else if c == '|' {
                proof {
                    lemma_alts_pat_push(done@, cur);
                }
                done.push(cur);
                cur = SeqNode::new();
                *pos = *pos + 1;
                assert(open_alts(done@, cur) =~= alts.push(Seq::empty()));
            } else if c == ')' {
                if root {
                    return Err(ParseError::UnmatchedClose);
                }
                *pos = *pos + 1;
                break;
            } else if c == '*' {
                match cur.pop() {
                    Some(n) => {
                        let ghost p = (*n)@;
                        cur.push(Rc::new(Node::Rpt(n)));
                        *pos = *pos + 1;
                        assert(open_alts(done@, cur) =~= replace_item(
                            alts,
                            Pat::Repeat(Box::new(p)),
                        ));
                    },
                    None => {
                        return Err(ParseError::NothingToRepeat);
                    },
                }
            } else if c == '+' {
                match cur.clone_back() {
                    Some(n) => {
                        let ghost p = (*n)@;
                        cur.push(Rc::new(Node::Rpt(n)));
                        *pos = *pos + 1;
                        assert(open_alts(done@, cur) =~= append_item(
                            alts,
                            Pat::Repeat(Box::new(p)),
                        ));
                    },
                    None => {
                        return Err(ParseError::NothingToRepeat);
                    },
                }
            } else if c == '[' {
                *pos = *pos + 1;
                match CharClassNode::parse(s, pos) {
                    Ok(k) => {
                        let ghost p = k@;
                        cur.push(Rc::new(Node::Class(k)));
                        assert(open_alts(done@, cur) =~= append_item(alts, p));
                    },
                    Err(e) => {
                        return Err(e);
                    },
                }
            } else if c == '\\' {
                if *pos + 1 >= s.len() {
                    return Err(ParseError::MissingEscapedChar);
                }
                match parse_escape(s[*pos + 1]) {
                    Some(n) => {
                        let ghost p = (*n)@;
                        cur.push(n);
                        *pos = *pos + 2;
                        assert(open_alts(done@, cur) =~= append_item(alts, p));
                    },
                    None => {
                        return Err(ParseError::InvalidEscape);
                    },
                }
            } else {
                cur.push_char(c);
                *pos = *pos + 1;
                assert(open_alts(done@, cur) =~= append_item(alts, Pat::Char(c)));
            }
        }
        proof {
            lemma_alts_pat_push(done@, cur);
        }
        done.push(cur);
        Ok(GrpNode { num: number, alt: AltNode { alts: done } })
    }
}

} // verus!
