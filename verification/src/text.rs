//! Small helpers for moving between `&str`, `String` and `Vec<char>`.

use vstd::prelude::*;
use vstd::string::StrSliceExecFns;

verus! {

/// Relies on `String::push`: appends the given character to the end of the
/// string.
#[verifier::external_body]
pub fn push_char(s: &mut String, c: char)
    ensures
        final(s)@ == old(s)@.push(c),
{
    s.push(c);
}

/// The characters of `s`, in order, as a vector.
pub fn chars_of(s: &str) -> (r: Vec<char>)
    ensures
        r@ == s@,
{
    let n = s.unicode_len();
    let mut r: Vec<char> = Vec::new();
    let mut i: usize = 0;
    proof {
        assert(r@ =~= s@.subrange(0, 0));
    }
    while i < n
        invariant
            i <= n,
            n as nat == s@.len(),
            r@ == s@.subrange(0, i as int),
        decreases n - i,
    {
        let c = s.get_char(i);
        r.push(c);
        i = i + 1;
        proof {
            assert(r@ =~= s@.subrange(0, i as int));
        }
    }
    proof {
        assert(r@ =~= s@);
    }
    r
}

/// The length of `s` in characters (not bytes).
pub fn str_char_len(s: &str) -> (n: usize)
    ensures
        n as nat == s@.len(),
{
    s.unicode_len()
}

/// A `String` holding exactly the characters `v[start..end)`.
pub fn string_of_range(v: &Vec<char>, start: usize, end: usize) -> (r: String)
    requires
        start <= end <= v@.len(),
    ensures
        r@ == v@.subrange(start as int, end as int),
{
    let mut r = String::new();
    let mut i: usize = start;
    proof {
        assert(r@ =~= v@.subrange(start as int, start as int));
    }
    while i < end
        invariant
            start <= i <= end <= v@.len(),
            r@ == v@.subrange(start as int, i as int),
        decreases end - i,
    {
        push_char(&mut r, v[i]);
        i = i + 1;
        proof {
            assert(r@ =~= v@.subrange(start as int, i as int));
        }
    }
    r
}

} // verus!
