//! Small text-building helpers shared by the reconstruction and diagnostic
//! rendering code.

use vstd::prelude::*;
use vstd::string::StrSliceExecFns;

verus! {

/// Relies on String::push: it appends the given character to the end of the
/// string.
#[verifier::external_body]
pub fn push_char(s: &mut String, c: char)
    ensures
        final(s)@ == old(s)@.push(c),
{
    s.push(c);
}

/// Copies a character buffer into an owned string.
pub fn chars_to_string(v: &Vec<char>) -> (r: String)
    ensures
        r@ == v@,
{
    let mut r = String::new();
    let mut i: usize = 0;
    while i < v.len()
        invariant
            i <= v@.len(),
            r@ == v@.take(i as int),
        decreases v@.len() - i,
    {
        push_char(&mut r, v[i]);
        i = i + 1;
        proof {
            assert(r@ =~= v@.take(i as int));
        }
    }
    proof {
        assert(r@ =~= v@);
    }
    r
}

/// A run of `n` copies of one character.
pub open spec fn char_repeat(c: char, n: int) -> Seq<char> {
    Seq::new(if n >= 0 { n as nat } else { 0 }, |_i: int| c)
}

/// Appends `n` copies of a character to a string.
pub fn push_repeat(s: &mut String, c: char, n: usize)
    ensures
        final(s)@ == old(s)@ + char_repeat(c, n as int),
{
    let mut i: usize = 0;
    while i < n
        invariant
            i <= n,
            s@ == old(s)@ + char_repeat(c, i as int),
        decreases n - i,
    {
        push_char(s, c);
        i = i + 1;
        proof {
            assert(s@ =~= old(s)@ + char_repeat(c, i as int));
        }
    }
}

/// Appends the characters of a span of a source buffer to a string.
pub fn push_slice(s: &mut String, src: &Vec<char>, start: usize, end: usize)
    requires
        start <= end <= src@.len(),
    ensures
        final(s)@ == old(s)@ + src@.subrange(start as int, end as int),
{
    let mut i: usize = start;
    while i < end
        invariant
            start <= i <= end <= src@.len(),
            s@ == old(s)@ + src@.subrange(start as int, i as int),
        decreases end - i,
    {
        push_char(s, src[i]);
        i = i + 1;
        proof {
            assert(s@ =~= old(s)@ + src@.subrange(start as int, i as int));
        }
    }
}

/// The decimal digits of a nonnegative number, most significant first.
pub open spec fn spec_decimal(n: int) -> Seq<char>
    decreases n,
{
    if n < 0 {
        seq![]
    } else if n < 10 {
        seq![digit_char(n)]
    } else {
        spec_decimal(n / 10) + seq![digit_char(n % 10)]
    }
}

/// The character for one decimal digit.
pub open spec fn digit_char(d: int) -> char {
    (('0' as int) + d) as char
}

/// Appends the decimal digits of a number to a string.
pub fn push_decimal(s: &mut String, n: usize)
    ensures
        final(s)@ == old(s)@ + spec_decimal(n as int),
    decreases n,
{
    if n < 10 {
        push_char(s, (((n as u8) + 48) as char));
        proof {
            assert((((n as u8) + 48) as char) == digit_char(n as int));
            assert(s@ =~= old(s)@ + spec_decimal(n as int));
        }
    } else {
        push_decimal(s, n / 10);
        let d = n % 10;
        push_char(s, (((d as u8) + 48) as char));
        proof {
            assert((((d as u8) + 48) as char) == digit_char(d as int));
            assert(s@ =~= old(s)@ + spec_decimal(n as int));
        }
    }
}

/// Renders a number in decimal, used for line numbers in diagnostics.
pub fn usize_to_string(n: usize) -> (r: String)
    ensures
        r@ == spec_decimal(n as int),
{
    let mut r = String::new();
    push_decimal(&mut r, n);
    proof {
        assert(r@ =~= spec_decimal(n as int));
    }
    r
}

/// Copies one span of a character buffer into a new buffer.
pub fn slice_chars(src: &Vec<char>, start: usize, end: usize) -> (r: Vec<char>)
    requires
        start <= end <= src@.len(),
    ensures
        r@ == src@.subrange(start as int, end as int),
{
    let mut r: Vec<char> = Vec::new();
    let mut i: usize = start;
    while i < end
        invariant
            start <= i <= end <= src@.len(),
            r@ == src@.subrange(start as int, i as int),
        decreases end - i,
    {
        r.push(src[i]);
        i = i + 1;
        proof {
            assert(r@ =~= src@.subrange(start as int, i as int));
        }
    }
    r
}

/// Collects the characters of a string slice into a buffer.
pub fn str_to_chars(s: &str) -> (r: Vec<char>)
    ensures
        r@ == s@,
{
    let n = s.unicode_len();
    let mut r: Vec<char> = Vec::new();
    let mut i: usize = 0;
    while i < n
        invariant
            n == s@.len(),
            i <= n,
            r@ == s@.take(i as int),
        decreases n - i,
    {
        r.push(s.get_char(i));
        i = i + 1;
        proof {
            assert(r@ =~= s@.take(i as int));
        }
    }
    proof {
        assert(r@ =~= s@);
    }
    r
}

/// Compares two string slices, character by character.
pub fn str_eq(a: &str, b: &str) -> (r: bool)
    ensures
        r == (a@ == b@),
{
    let n = a.unicode_len();
    let m = b.unicode_len();
    if n != m {
        proof {
            assert(a@.len() != b@.len());
        }
        return false;
    }
    let mut i: usize = 0;
    while i < n
        invariant
            n == a@.len(),
            n == b@.len(),
            i <= n,
            forall|k: int| 0 <= k < i ==> a@[k] == b@[k],
        decreases n - i,
    {
        if a.get_char(i) != b.get_char(i) {
            proof {
                assert(a@[i as int] != b@[i as int]);
            }
            return false;
        }
        i = i + 1;
    }
    proof {
        assert(a@ =~= b@);
    }
    true
}

} // verus!
