use vstd::prelude::*;

verus! {

/// Appends one character to a string, by `String::push` of std.
/// Trusted: the contract claims that the string afterwards is the string before,
/// followed by `c`, as std's documentation of `push` says.
#[verifier::external_body]
pub(crate) fn push_char(s: &mut String, c: char)
    ensures
        final(s)@ == old(s)@.push(c),
{
    s.push(c);
}

/// Whether std's `char::is_numeric` holds of `c`: whether `c` has one of Unicode's
/// general categories for numbers.
pub uninterp spec fn char_is_numeric(c: char) -> bool;

/// `char::is_numeric` of std.
/// Trusted: the contract claims that the result is the name above applied to `c`,
/// and, as the documentation's definition by general category gives, that among the
/// ASCII characters only the digits are numeric.
#[verifier::external_body]
pub(crate) fn is_numeric(c: char) -> (b: bool)
    ensures
        b == char_is_numeric(c),
        (c as u32) < 128 ==> (b <==> ('0' <= c && c <= '9')),
{
    c.is_numeric()
}

/// The characters of a string slice, in order.
pub fn chars_of(s: &str) -> (v: Vec<char>)
    ensures
        v@ == s@,
{
    let mut v: Vec<char> = Vec::new();
    for c in it: s.chars()
        invariant
            v@ == it.seq().take(it.index() as int),
    {
        v.push(c);
    }
    v
}

/// The string of the first `end` characters of `chars`.
pub fn string_of(chars: &Vec<char>, end: usize) -> (s: String)
    requires
        end <= chars.len(),
    ensures
        s@ == chars@.take(end as int),
{
    let mut s = String::new();
    let mut i: usize = 0;
    while i < end
        invariant
            i <= end <= chars.len(),
            s@ == chars@.take(i as int),
        decreases end - i,
    {
        push_char(&mut s, chars[i]);
        proof {
            assert(chars@.take(i as int).push(chars@[i as int]) =~= chars@.take(i + 1));
        }
        i = i + 1;
    }
    s
}

} // verus!
