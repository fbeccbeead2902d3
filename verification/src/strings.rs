//! Building `String`s out of characters.
use vstd::prelude::*;

verus! {

/// `String::push`, which appends the character at the end of the string.
#[verifier::external_body]
pub(crate) fn push_char(s: &mut String, c: char)
    ensures
        final(s)@ == old(s)@.push(c),
{
    s.push(c)
}

/// Appends the characters `t[i..j]` to `s`.
pub fn push_chars(s: &mut String, t: &[char], i: usize, j: usize)
    requires
        i <= j <= t@.len(),
    ensures
        final(s)@ == old(s)@ + t@.subrange(i as int, j as int),
{
    let mut k = i;
    while k < j
        invariant
            i <= k <= j <= t@.len(),
            s@ == old(s)@ + t@.subrange(i as int, k as int),
        decreases j - k,
    {
        push_char(s, t[k]);
        assert(t@.subrange(i as int, k + 1) =~= t@.subrange(i as int, k as int).push(t@[k as int]));
        k = k + 1;
    }
}

/// The string made of the characters `t[i..j]`.
pub fn string_of(t: &[char], i: usize, j: usize) -> (s: String)
    requires
        i <= j <= t@.len(),
    ensures
        s@ == t@.subrange(i as int, j as int),
{
    let mut s = String::new();
    push_chars(&mut s, t, i, j);
    assert(Seq::<char>::empty() + t@.subrange(i as int, j as int) =~= t@.subrange(i as int, j as int));
    s
}

/// The characters of a string slice, in order.
pub fn chars_of(s: &str) -> (v: Vec<char>)
    ensures
        v@ == s@,
{
    let mut v: Vec<char> = Vec::new();
    for c in it: s.chars()
        invariant
            v@ == it.seq().take(it.index() as int),
            it.seq() == s@,
            it.index() == it.seq().len() ==> v@ == s@,
    {
        v.push(c);
        assert(it.seq().take(it.index() + 1) =~= it.seq().take(it.index() as int).push(c));
    }
    v
}

} // verus!
