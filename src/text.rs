use std::rc::Rc;
use std::str::Chars;
use vstd::prelude::*;
use vstd::std_specs::iter::IteratorSpec;

verus! {

broadcast use vstd::string::group_string_axioms;

/// Relies on `String::push`: appends the one character to the end of the string.
pub assume_specification[ String::push ](s: &mut String, ch: char)
    ensures
        final(s)@ == old(s)@.push(ch),
;

/// Relies on `Rc::clone`: a second handle to the same value, which is left untouched.
#[verifier::external_body]
pub(crate) fn share<T>(r: &Rc<T>) -> (c: Rc<T>)
    ensures
        c == *r,
{
    Rc::clone(r)
}

/// Takes every character that is left in `itr`, in order.
pub fn drain_chars(itr: &mut Chars) -> (v: Vec<char>)
    requires
        <Chars as IteratorSpec>::decrease(old(itr)) is Some,
    ensures
        v@ == <Chars as IteratorSpec>::remaining(old(itr)),
        <Chars as IteratorSpec>::remaining(final(itr)).len() == 0,
{
    let mut v: Vec<char> = Vec::new();
    let mut done = false;
    while !done
        invariant
            done ==> <Chars as IteratorSpec>::remaining(itr).len() == 0,
            v@ + <Chars as IteratorSpec>::remaining(itr) == <Chars as IteratorSpec>::remaining(
                old(itr),
            ),
            <Chars as IteratorSpec>::decrease(itr) is Some,
        decreases
                if done {
                    0nat
                } else {
                    1nat
                },
                <Chars as IteratorSpec>::decrease(itr)->0,
    {
        match itr.next() {
            Some(c) => {
                v.push(c);
            },
            None => {
                done = true;
            },
        }
    }
    assert(v@ + <Chars as IteratorSpec>::remaining(itr) =~= v@);
    v
}

/// The characters of `s`, in order.
pub fn chars_of(s: &str) -> (v: Vec<char>)
    ensures
        v@ == s@,
{
    let mut it = s.chars();
    drain_chars(&mut it)
}

/// The characters of `s` from `from` up to `to`, as a string.
pub fn substring(s: &Vec<char>, from: usize, to: usize) -> (r: String)
    requires
        from <= to <= s.len(),
    ensures
        r@ == s@.subrange(from as int, to as int),
{
    let mut r = String::new();
    let mut i = from;
    while i < to
        invariant
            from <= i <= to <= s.len(),
            r@ == s@.subrange(from as int, i as int),
        decreases to - i,
    {
        r.push(s[i]);
        i += 1;
        assert(r@ =~= s@.subrange(from as int, i as int));
    }
    r
}

} // verus!
