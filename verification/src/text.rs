//! Writing text as UTF-8 bytes.

use crate::scan::{all_digits, decimal, is_digit, number};
use vstd::prelude::*;
use vstd::utf8::encode_utf8;

verus! {

/// The bytes of a string.
pub open spec fn utf8(s: &str) -> Seq<u8> {
    encode_utf8(s@)
}

/// A number in decimal.
pub open spec fn digits(n: int) -> Seq<u8>
    decreases n,
{
    if n < 10 {
        seq![(48 + n) as u8]
    } else {
        digits(n / 10).push((48 + n % 10) as u8)
    }
}

/// The decimal digits of a number read back as that number.
pub proof fn lemma_digits(n: int)
    requires
        0 <= n,
    ensures
        digits(n).len() > 0,
        all_digits(digits(n)),
        decimal(digits(n)) == n,
        n <= usize::MAX ==> number(digits(n)) == Some(n as usize),
    decreases n,
{
    let d = digits(n);
    if n < 10 {
        assert(d.drop_last() =~= Seq::<u8>::empty());
        assert(decimal(d.drop_last()) == 0);
    } else {
        lemma_digits(n / 10);
        let e = digits(n / 10);
        assert(d.drop_last() =~= e);
        assert forall|i: int| 0 <= i < d.len() implies is_digit(#[trigger] d[i]) by {
            if i < e.len() {
                assert(d[i] == e[i]);
            }
        }
    }
    assert(d[0] != 43) by {
        assert(is_digit(d[0]));
    }
}

/// Adds bytes at the end.
pub fn push_bytes(out: &mut Vec<u8>, s: &[u8])
    ensures
        final(out)@ == old(out)@ + s@,
{
    let ghost was = out@;
    let mut i: usize = 0;
    while i < s.len()
        invariant
            i <= s@.len(),
            out@ == was + s@.take(i as int),
        decreases s@.len() - i,
    {
        out.push(s[i]);
        proof {
            assert(s@.take(i + 1) =~= s@.take(i as int).push(s@[i as int]));
        }
        i += 1;
    }
    assert(s@.take(i as int) =~= s@);
}

/// Adds a string at the end.
pub fn push_str(out: &mut Vec<u8>, s: &str)
    ensures
        final(out)@ == old(out)@ + utf8(s),
{
    push_bytes(out, s.as_bytes());
}

/// Adds a number in decimal at the end.
pub fn push_u64(out: &mut Vec<u8>, n: u64)
    ensures
        final(out)@ == old(out)@ + digits(n as int),
    decreases n,
{
    let ghost was = out@;
    if n >= 10 {
        push_u64(out, n / 10);
    }
    out.push((48 + n % 10) as u8);
    assert(out@ =~= was + digits(n as int));
}

/// Adds a number in decimal at the end.
pub fn push_number(out: &mut Vec<u8>, n: usize)
    ensures
        final(out)@ == old(out)@ + digits(n as int),
{
    push_u64(out, n as u64);
}

/// Numbers separated by `, `.
pub open spec fn comma_separated(s: Seq<usize>) -> Seq<u8>
    decreases s.len(),
{
    if s.len() == 0 {
        Seq::empty()
    } else if s.len() == 1 {
        digits(s[0] as int)
    } else {
        comma_separated(s.drop_last()) + seq![44u8, 32u8] + digits(s.last() as int)
    }
}

/// A list of numbers in square brackets, separated by `, `.
pub open spec fn list_text(s: Seq<usize>) -> Seq<u8> {
    seq![91u8] + comma_separated(s) + seq![93u8]
}

/// Adds a list of numbers at the end.
pub fn push_list(out: &mut Vec<u8>, s: &[usize])
    ensures
        final(out)@ == old(out)@ + list_text(s@),
{
    let ghost was = out@;
    out.push(91);
    let mut i: usize = 0;
    assert(s@.take(0) =~= Seq::<usize>::empty());
    assert(out@ =~= was + seq![91u8] + comma_separated(s@.take(0)));
    while i < s.len()
        invariant
            i <= s@.len(),
            out@ == was + seq![91u8] + comma_separated(s@.take(i as int)),
        decreases s@.len() - i,
    {
        let ghost now = s@.take(i + 1);
        assert(now.drop_last() =~= s@.take(i as int));
        if i > 0 {
            out.push(44);
            out.push(32);
        }
        push_number(out, s[i]);
        assert(out@ =~= was + seq![91u8] + comma_separated(now));
        i += 1;
    }
    assert(s@.take(i as int) =~= s@);
    out.push(93);
    assert(out@ =~= was + list_text(s@));
}

/// The bytes of a string.
pub fn text(s: &str) -> (r: Vec<u8>)
    ensures
        r@ == utf8(s),
{
    crate::names::bytes_of(s.as_bytes())
}

} // verus!
