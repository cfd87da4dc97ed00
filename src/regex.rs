use crate::model::{
    captures_of, match_whole, parse_pattern, render_pat, Captures, MatchResult, ParseError,
    Pat,
};
use crate::text::{chars_of, drain_chars};
use crate::tree::GrpNode;
use std::collections::BTreeMap;
use std::str::Chars;
use vstd::prelude::*;
use vstd::std_specs::iter::IteratorSpec;

verus! {

broadcast use vstd::std_specs::btree::group_btree_axioms, vstd::laws_cmp::group_laws_cmp;

/// A parsed regular expression. The pattern is the body of an implicit group 0.
pub struct Regex {
    root: GrpNode,
}

impl View for Regex {
    type V = Pat;

    /// The pattern tree, rooted at its group 0.
    closed spec fn view(&self) -> Pat {
        self.root@
    }
}

/// The captures of a match, if there is one.
pub open spec fn captures_opt(r: Option<MatchResult>) -> Option<Captures> {
    match r {
        Some(m) => Some(captures_of(m@)),
        None => None,
    }
}

impl Regex {
    /// The tree is rooted at group 0, as parsing makes every tree.
    pub open spec fn wf(&self) -> bool {
        self@ matches Pat::Group(n, _) && n == 0
    }

    /// Parses a pattern. Fails with the first grammar violation met scanning left to right.
    pub fn from_str(s: &str) -> (r: Result<Regex, ParseError>)
        ensures
            match parse_pattern(s@) {
                Ok(p) => (r matches Ok(x) && x@ == p),
                Err(e) => r == Err::<Regex, ParseError>(e),
            },
            r matches Ok(x) ==> x.wf(),
    {
        let chars = chars_of(s);
        let mut pos: usize = 0;
        let mut num: usize = 0;
        match GrpNode::parse(&chars, &mut pos, &mut num, true) {
            Ok(root) => Ok(Regex { root }),
            Err(e) => Err(e),
        }
    }

    /// A textual rendering of the pattern tree, for diagnostics. It does not give back the
    /// pattern: `+` shows as the node followed by its repeat.
    pub fn debug_render(&self) -> (r: String)
        ensures
            r@ == render_pat(self@),
    {
        self.root.debug()
    }

    /// Matches the regex against the whole of `s`.
    fn match_vec(&self, s: &Vec<char>) -> (r: Option<MatchResult>)
        ensures
            captures_opt(r) == match_whole(self@, s@),
    {
        let mut mr: MatchResult = BTreeMap::new();
        proof {
            assert(captures_of(mr@) =~= Map::empty());
        }
        match self.root.match_at(s, 0, &mut mr) {
            Some(e) => {
                if e == s.len() {
                    Some(mr)
                } else {
                    None
                }
            },
            None => None,
        }
    }

    /// Matches a string against the regex; succeeds only when the whole string is consumed.
    pub fn match_str(&self, s: &str) -> (r: Option<MatchResult>)
        ensures
            captures_opt(r) == match_whole(self@, s@),
    {
        let chars = chars_of(s);
        self.match_vec(&chars)
    }

    /// Matches what is left in a character iterator against the regex; succeeds only when all
    /// of it is consumed. The iterator is left exhausted.
    pub fn match_chars(&self, itr: &mut Chars) -> (r: Option<MatchResult>)
        requires
            <Chars as IteratorSpec>::decrease(old(itr)) is Some,
        ensures
            captures_opt(r) == match_whole(self@, <Chars as IteratorSpec>::remaining(old(itr))),
            <Chars as IteratorSpec>::remaining(final(itr)).len() == 0,
    {
        let chars = drain_chars(itr);
        self.match_vec(&chars)
    }
}

} // verus!
