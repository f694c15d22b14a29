//! Small helpers for building character sequences and turning them back
//! into owned strings.

use vstd::prelude::*;

verus! {

/// Turns a vector of characters into the `String` holding exactly those
/// characters.
///
/// Relies on `String: FromIterator<char>` (through `Iterator::collect`):
/// the collected string holds the iterated characters in order.
#[verifier::external_body]
pub fn string_from_chars(v: &Vec<char>) -> (r: String)
    ensures
        r@ == v@,
{
    v.iter().collect()
}

/// Appends every character of `s` to `out`.
pub fn push_str_chars(s: &str, out: &mut Vec<char>)
    ensures
        final(out)@ == old(out)@ + s@,
{
    let n = s.unicode_len();
    let mut i: usize = 0;
    while i < n
        invariant
            i <= n,
            n == s@.len(),
            out@ == old(out)@ + s@.subrange(0, i as int),
        decreases n - i,
    {
        let c = s.get_char(i);
        out.push(c);
        i = i + 1;
        assert(out@ =~= old(out)@ + s@.subrange(0, i as int));
    }
    assert(s@.subrange(0, n as int) =~= s@);
}

/// Appends `n` copies of `c` to `out`.
pub fn push_repeat(c: char, n: u64, out: &mut Vec<char>)
    ensures
        final(out)@ == old(out)@ + Seq::new(n as nat, |i: int| c),
{
    let mut j: u64 = 0;
    while j < n
        invariant
            j <= n,
            out@ == old(out)@ + Seq::new(j as nat, |i: int| c),
        decreases n - j,
    {
        out.push(c);
        j = j + 1;
        assert(out@ =~= old(out)@ + Seq::new(j as nat, |i: int| c));
    }
}

/// A copy of `ind` grown by one indentation unit of four spaces.
pub fn extend_indent(ind: &Vec<char>) -> (r: Vec<char>)
    ensures
        r@ == ind@ + seq![' ', ' ', ' ', ' '],
{
    let mut r: Vec<char> = Vec::new();
    let mut i: usize = 0;
    while i < ind.len()
        invariant
            i <= ind@.len(),
            r@ == ind@.subrange(0, i as int),
        decreases ind@.len() - i,
    {
        r.push(ind[i]);
        i = i + 1;
        assert(r@ =~= ind@.subrange(0, i as int));
    }
    assert(r@ =~= ind@);
    r.push(' ');
    r.push(' ');
    r.push(' ');
    r.push(' ');
    assert(r@ =~= ind@ + seq![' ', ' ', ' ', ' ']);
    r
}

} // verus!
