use std::collections::BTreeMap;
use vstd::prelude::*;

verus! {

/// The abstract pattern tree that a parsed regex denotes.
pub enum Pat {
    /// Exactly one occurrence of the character.
    Char(char),
    /// One character that is in the set, or outside it when the flag (negated) is set.
    Class(Set<char>, bool),
    /// A numbered capture group over its alternation; each branch is a sequence of patterns.
    Group(usize, Seq<Seq<Pat>>),
    /// Zero or more occurrences, taken greedily and never given back.
    Repeat(Box<Pat>),
}

/// Group number to the text that group last matched.
pub type Captures = Map<usize, Seq<char>>;

/// Group number to the text that group last matched, as a match hands it out.
pub type MatchResult = BTreeMap<usize, String>;

/// The captures that a match result holds.
pub open spec fn captures_of(m: Map<usize, String>) -> Captures {
    m.map_values(|v: String| v@)
}

/// Runs `p` on `s` from position `pos`. Gives the position after the consumed text, or `None`
/// when `p` does not match there, together with the captures as they stand afterwards. Captures
/// written by a group that succeeded inside an attempt that later failed are kept.
pub open spec fn match_pat(p: Pat, s: Seq<char>, pos: int, caps: Captures) -> (Option<int>, Captures)
    decreases p, 0nat, 0int,
{
    match p {
        Pat::Char(c) => {
            if 0 <= pos < s.len() && s[pos] == c {
                (Some(pos + 1), caps)
            } else {
                (None, caps)
            }
        },
        Pat::Class(elems, negated) => {
            if 0 <= pos < s.len() && elems.contains(s[pos]) != negated {
                (Some(pos + 1), caps)
            } else {
                (None, caps)
            }
        },
        Pat::Group(num, alts) => {
            let (end, after) = match_alts(alts, 0, s, pos, caps);
            match end {
                Some(e) => (Some(e), after.insert(num, s.subrange(pos, e))),
                None => (None, after),
            }
        },
        Pat::Repeat(inner) => match_repeat(*inner, s, pos, caps),
    }
}

/// Tries the branches from index `i` on, in order; the first that matches decides.
pub open spec fn match_alts(alts: Seq<Seq<Pat>>, i: nat, s: Seq<char>, pos: int, caps: Captures) -> (
    Option<int>,
    Captures,
)
    decreases alts, 0nat, alts.len() - i,
{
    if i >= alts.len() {
        (None, caps)
    } else {
        let (end, after) = match_seq(alts[i as int], 0, s, pos, caps);
        if end is Some {
            (end, after)
        } else {
            match_alts(alts, i + 1, s, pos, after)
        }
    }
}

/// Matches the items from index `i` on one after another; the first failure fails the whole.
pub open spec fn match_seq(items: Seq<Pat>, i: nat, s: Seq<char>, pos: int, caps: Captures) -> (
    Option<int>,
    Captures,
)
    decreases items, 0nat, items.len() - i,
{
    if i >= items.len() {
        (Some(pos), caps)
    } else {
        let (end, after) = match_pat(items[i as int], s, pos, caps);
        match end {
            Some(e) => match_seq(items, i + 1, s, e, after),
            None => (None, after),
        }
    }
}

/// Matches `inner` again and again from `pos`, and stops at the first attempt that fails or
/// consumes nothing; always succeeds, at the end of the last attempt that consumed text.
pub open spec fn match_repeat(inner: Pat, s: Seq<char>, pos: int, caps: Captures) -> (
    Option<int>,
    Captures,
)
    decreases inner, 1nat, s.len() - pos,
{
    let (end, after) = match_pat(inner, s, pos, caps);
    match end {
        Some(e) => {
            if pos < e <= s.len() {
                match_repeat(inner, s, e, after)
            } else {
                (Some(pos), after)
            }
        },
        None => (Some(pos), after),
    }
}

/// The captures of a match of `p` that consumes the whole of `s`, or `None`.
pub open spec fn match_whole(p: Pat, s: Seq<char>) -> Option<Captures> {
    let (end, caps) = match_pat(p, s, 0, Map::empty());
    if end == Some(s.len() as int) {
        Some(caps)
    } else {
        None
    }
}

/// Why a pattern is not well formed.
#[derive(Debug, Clone, Copy, PartialEq, Eq, Structural)]
pub enum ParseError {
    /// A `)` with no `(` open.
    UnmatchedClose,
    /// A `*` or `+` with nothing before it in its branch.
    NothingToRepeat,
    /// A class with no element: `[]` or `[^]`.
    EmptyClass,
    /// The pattern ends inside a class.
    UnterminatedClass,
    /// A `\` followed by a character that has no escape meaning.
    InvalidEscape,
    /// The pattern ends right after a `\`.
    MissingEscapedChar,
}

/// The character that `\c` stands for, where it stands for a single literal.
pub open spec fn literal_escape(c: char) -> Option<char> {
    if c == '\\' || c == '(' || c == ')' || c == '[' || c == ']' || c == '*' || c == '+' || c
        == '^' {
        Some(c)
    } else if c == 't' {
        Some('\t')
    } else {
        None
    }
}

/// Space and tab, the class behind `\s` and `\S`.
pub open spec fn blank_chars() -> Set<char> {
    set![' ', '\t']
}

/// The pattern that `\c` stands for outside a class.
pub open spec fn escape_pat(c: char) -> Option<Pat> {
    if c == 's' {
        Some(Pat::Class(blank_chars(), false))
    } else if c == 'S' {
        Some(Pat::Class(blank_chars(), true))
    } else {
        match literal_escape(c) {
            Some(d) => Some(Pat::Char(d)),
            None => None,
        }
    }
}

/// Reads class elements from `pos` up to the first unescaped `]`; gives the elements and the
/// position after the `]`.
pub open spec fn class_rest(s: Seq<char>, pos: int, elems: Set<char>) -> Result<
    (Set<char>, int),
    ParseError,
>
    decreases s.len() - pos,
{
    if pos < 0 || pos >= s.len() {
        Err(ParseError::UnterminatedClass)
    } else if s[pos] == ']' {
        Ok((elems, pos + 1))
    } else if s[pos] == '\\' {
        if pos + 1 >= s.len() {
            Err(ParseError::MissingEscapedChar)
        } else {
            match literal_escape(s[pos + 1]) {
                Some(d) => class_rest(s, pos + 2, elems.insert(d)),
                None => Err(ParseError::InvalidEscape),
            }
        }
    } else {
        class_rest(s, pos + 1, elems.insert(s[pos]))
    }
}

/// The class whose `[` stands just before `pos`, and the position after its `]`.
pub open spec fn parse_class(s: Seq<char>, pos: int) -> Result<(Pat, int), ParseError> {
    let negated = 0 <= pos < s.len() && s[pos] == '^';
    let start = if negated {
        pos + 1
    } else {
        pos
    };
    match class_rest(s, start, Set::empty()) {
        Err(e) => Err(e),
        Ok((elems, end)) => {
            if elems.is_empty() {
                Err(ParseError::EmptyClass)
            } else {
                Ok((Pat::Class(elems, negated), end))
            }
        },
    }
}

/// `alts` with `p` appended to its last branch.
pub open spec fn append_item(alts: Seq<Seq<Pat>>, p: Pat) -> Seq<Seq<Pat>> {
    alts.update(alts.len() - 1, alts.last().push(p))
}

/// `alts` with the last item of its last branch replaced by `p`.
pub open spec fn replace_item(alts: Seq<Seq<Pat>>, p: Pat) -> Seq<Seq<Pat>> {
    alts.update(alts.len() - 1, alts.last().drop_last().push(p))
}

/// Parses the body of a group from `pos`. `alts` holds the branches read so far, the last one
/// still open; `count` is the highest group number handed out so far. Gives the branches, the
/// position after the group's `)` (or the end of the pattern) and the new highest number. Only
/// the root group refuses a `)`; the end of the pattern closes any group.
pub open spec fn parse_body(s: Seq<char>, pos: int, count: nat, root: bool, alts: Seq<Seq<Pat>>) -> Result<
    (Seq<Seq<Pat>>, int, nat),
    ParseError,
>
    decreases s.len() - pos,
{
    if pos < 0 || pos >= s.len() {
        Ok((alts, pos, count))
    } else {
        let c = s[pos];
        let branch = alts.last();
        if c == '(' {
            match parse_body(s, pos + 1, count + 1, false, seq![Seq::empty()]) {
                Err(e) => Err(e),
                Ok((inner, next, count2)) => {
                    if pos < next <= s.len() {
                        parse_body(
                            s,
                            next,
                            count2,
                            root,
                            append_item(alts, Pat::Group((count + 1) as usize, inner)),
                        )
                    } else {
                        Err(ParseError::UnmatchedClose)
                    }
                },
            }
        } else if c == '|' {
            parse_body(s, pos + 1, count, root, alts.push(Seq::empty()))
        } else if c == ')' {
            if root {
                Err(ParseError::UnmatchedClose)
            } else {
                Ok((alts, pos + 1, count))
            }
        } else if c == '*' {
            if branch.len() == 0 {
                Err(ParseError::NothingToRepeat)
            } else {
                parse_body(
                    s,
                    pos + 1,
                    count,
                    root,
                    replace_item(alts, Pat::Repeat(Box::new(branch.last()))),
                )
            }
        } else if c == '+' {
            if branch.len() == 0 {
                Err(ParseError::NothingToRepeat)
            } else {
                parse_body(
                    s,
                    pos + 1,
                    count,
                    root,
                    append_item(alts, Pat::Repeat(Box::new(branch.last()))),
                )
            }
        } else if c == '[' {
            match parse_class(s, pos + 1) {
                Err(e) => Err(e),
                Ok((p, next)) => {
                    if pos < next <= s.len() {
                        parse_body(s, next, count, root, append_item(alts, p))
                    } else {
                        Err(ParseError::UnterminatedClass)
                    }
                },
            }
        } else if c == '\\' {
            if pos + 1 >= s.len() {
                Err(ParseError::MissingEscapedChar)
            } else {
                match escape_pat(s[pos + 1]) {
                    Some(p) => parse_body(s, pos + 2, count, root, append_item(alts, p)),
                    None => Err(ParseError::InvalidEscape),
                }
            }
        } else {
            parse_body(s, pos + 1, count, root, append_item(alts, Pat::Char(c)))
        }
    }
}

/// The tree of a whole pattern: the root group, number 0, over the whole text.
pub open spec fn parse_pattern(s: Seq<char>) -> Result<Pat, ParseError> {
    match parse_body(s, 0, 0, true, seq![Seq::empty()]) {
        Ok((alts, _end, _count)) => Ok(Pat::Group(0, alts)),
        Err(e) => Err(e),
    }
}

/// Code points strictly increase along `q`.
pub open spec fn increasing_codes(q: Seq<char>) -> bool {
    forall|i: int, j: int| 0 <= i < j < q.len() ==> (q[i] as u32) < (q[j] as u32)
}

/// The members of a finite set of characters, in increasing order of code point.
pub open spec fn sorted_chars(set: Set<char>) -> Seq<char> {
    choose|q: Seq<char>| q.to_set() == set && increasing_codes(q)
}

/// A textual rendering of a tree: `Char{c}` for a literal, `[...]` or `[^...]` for a class
/// with its members in code point order, `Grp{...}` around a group other than group 0, `|`
/// between branches and a trailing `*` for a repeat.
pub open spec fn render_pat(p: Pat) -> Seq<char>
    decreases p, 0nat, 0int,
{
    match p {
        Pat::Char(c) => seq!['C', 'h', 'a', 'r', '{', c, '}'],
        Pat::Class(elems, negated) => {
            let open = if negated {
                seq!['[', '^']
            } else {
                seq!['[']
            };
            open + sorted_chars(elems) + seq![']']
        },
        Pat::Group(num, alts) => {
            if num == 0 {
                render_alts(alts, 0)
            } else {
                seq!['G', 'r', 'p', '{'] + render_alts(alts, 0) + seq!['}']
            }
        },
        Pat::Repeat(inner) => render_pat(*inner).push('*'),
    }
}

/// The branches from index `i` on, rendered and joined by `|`.
pub open spec fn render_alts(alts: Seq<Seq<Pat>>, i: nat) -> Seq<char>
    decreases alts, 0nat, alts.len() - i,
{
    if i >= alts.len() {
        Seq::empty()
    } else if i + 1 == alts.len() {
        render_seq(alts[i as int], 0)
    } else {
        render_seq(alts[i as int], 0) + seq!['|'] + render_alts(alts, i + 1)
    }
}

/// The items from index `i` on, rendered one after another.
pub open spec fn render_seq(items: Seq<Pat>, i: nat) -> Seq<char>
    decreases items, 0nat, items.len() - i,
{
    if i >= items.len() {
        Seq::empty()
    } else {
        render_pat(items[i as int]) + render_seq(items, i + 1)
    }
}

/// No group within `p`, `p` included, has number `n`.
pub open spec fn lacks_group(p: Pat, n: usize) -> bool
    decreases p, 0nat, 0int,
{
    match p {
        Pat::Char(_) => true,
        Pat::Class(_, _) => true,
        Pat::Group(m, alts) => m != n && alts_lack_group(alts, 0, n),
        Pat::Repeat(inner) => lacks_group(*inner, n),
    }
}

/// No group within the branches from index `i` on has number `n`.
pub open spec fn alts_lack_group(alts: Seq<Seq<Pat>>, i: nat, n: usize) -> bool
    decreases alts, 0nat, alts.len() - i,
{
    if i >= alts.len() {
        true
    } else {
        seq_lacks_group(alts[i as int], 0, n) && alts_lack_group(alts, i + 1, n)
    }
}

/// No group within the items from index `i` on has number `n`.
pub open spec fn seq_lacks_group(items: Seq<Pat>, i: nat, n: usize) -> bool
    decreases items, 0nat, items.len() - i,
{
    if i >= items.len() {
        true
    } else {
        lacks_group(items[i as int], n) && seq_lacks_group(items, i + 1, n)
    }
}

} // verus!
