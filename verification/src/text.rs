use vstd::prelude::*;
use vstd::string::StrSliceExecFns;

verus! {

/// The character for a single decimal digit.
pub open spec fn digit_char(d: int) -> char {
    ((48 + d) as u8) as char
}

/// The character for a single lower-case hexadecimal digit.
pub open spec fn hex_char(d: int) -> char {
    if d < 10 {
        digit_char(d)
    } else {
        ((87 + d) as u8) as char
    }
}

/// Two-character, zero-padded decimal rendering of `0 <= n < 100`.
pub open spec fn spec_two_digits(n: int) -> Seq<char> {
    seq![digit_char(n / 10), digit_char(n % 10)]
}

/// Four-character, zero-padded decimal rendering of `0 <= n < 10000`.
pub open spec fn spec_four_digits(n: int) -> Seq<char> {
    spec_two_digits(n / 100) + spec_two_digits(n % 100)
}

/// Ordinary decimal rendering of a natural number, no padding.
pub open spec fn spec_dec(n: nat) -> Seq<char>
    decreases n,
{
    if n < 10 {
        seq![digit_char(n as int)]
    } else {
        spec_dec(n / 10).push(digit_char((n % 10) as int))
    }
}

/// Relies on `String::push` of std: appends exactly the one character.
#[verifier::external_body]
pub fn push_char(s: &mut String, c: char)
    ensures
        final(s)@ == old(s)@.push(c),
{
    s.push(c);
}

/// Appends the two-digit rendering of `n`.
pub fn push_two_digits(s: &mut String, n: u32)
    requires
        n < 100,
    ensures
        final(s)@ == old(s)@ + spec_two_digits(n as int),
{
    push_char(s, (48 + n / 10) as u8 as char);
    push_char(s, (48 + n % 10) as u8 as char);
    assert(s@ =~= old(s)@ + spec_two_digits(n as int));
}

/// Appends the four-digit rendering of `n`.
pub fn push_four_digits(s: &mut String, n: u32)
    requires
        n < 10000,
    ensures
        final(s)@ == old(s)@ + spec_four_digits(n as int),
{
    push_two_digits(s, n / 100);
    push_two_digits(s, n % 100);
    assert(s@ =~= old(s)@ + spec_four_digits(n as int));
}

/// Appends the unpadded decimal rendering of `n`.
pub fn push_dec(s: &mut String, n: usize)
    ensures
        final(s)@ == old(s)@ + spec_dec(n as nat),
    decreases n,
{
    if n < 10 {
        push_char(s, (48 + n as u32) as u8 as char);
    } else {
        push_dec(s, n / 10);
        push_char(s, (48 + (n % 10) as u32) as u8 as char);
        assert(s@ =~= old(s)@ + spec_dec(n as nat));
    }
}

/// Character-for-character equality of two text slices.
pub fn text_eq(a: &str, b: &str) -> (r: bool)
    ensures
        r == (a@ == b@),
{
    let an: usize = a.unicode_len();
    let bn: usize = b.unicode_len();
    if an != bn {
        return false;
    }
    for i in 0..an
        invariant
            an == a@.len(),
            an == b@.len(),
            forall|j: int| 0 <= j < i ==> a@[j] == b@[j],
    {
        if a.get_char(i) != b.get_char(i) {
            return false;
        }
    }
    proof {
        assert(a@ =~= b@);
    }
    true
}

} // verus!
