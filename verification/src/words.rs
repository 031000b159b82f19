//! Putting strings together and taking them apart.

use vstd::prelude::*;
use vstd::string::StringExecFns;

verus! {

/// Two strings one after the other.
pub fn joined(a: &str, b: &str) -> (r: String)
    ensures
        r@ == a@ + b@,
{
    let mut r = String::from_str(a);
    r.append(b);
    r
}

/// Whether two strings are the same.
pub fn same_text(a: &str, b: &str) -> (r: bool)
    ensures
        r == (a@ == b@),
{
    String::from_str(a) == String::from_str(b)
}

/// A digit as a character.
pub open spec fn digit_char(d: int) -> char {
    if d == 0 {
        '0'
    } else if d == 1 {
        '1'
    } else if d == 2 {
        '2'
    } else if d == 3 {
        '3'
    } else if d == 4 {
        '4'
    } else if d == 5 {
        '5'
    } else if d == 6 {
        '6'
    } else if d == 7 {
        '7'
    } else if d == 8 {
        '8'
    } else {
        '9'
    }
}

/// A number in decimal.
pub open spec fn number_text(n: int) -> Seq<char>
    decreases n,
{
    if n < 10 {
        seq![digit_char(n)]
    } else {
        number_text(n / 10).push(digit_char(n % 10))
    }
}

fn digit_text(d: usize) -> (r: &'static str)
    requires
        d < 10,
    ensures
        r@ == seq![digit_char(d as int)],
{
    proof {
        reveal_strlit("0");
        reveal_strlit("1");
        reveal_strlit("2");
        reveal_strlit("3");
        reveal_strlit("4");
        reveal_strlit("5");
        reveal_strlit("6");
        reveal_strlit("7");
        reveal_strlit("8");
        reveal_strlit("9");
    }
    if d == 0 {
        "0"
    } else if d == 1 {
        "1"
    } else if d == 2 {
        "2"
    } else if d == 3 {
        "3"
    } else if d == 4 {
        "4"
    } else if d == 5 {
        "5"
    } else if d == 6 {
        "6"
    } else if d == 7 {
        "7"
    } else if d == 8 {
        "8"
    } else {
        "9"
    }
}

/// A number in decimal.
pub fn number_string(n: usize) -> (r: String)
    ensures
        r@ == number_text(n as int),
    decreases n,
{
    let mut r = if n >= 10 {
        number_string(n / 10)
    } else {
        String::new()
    };
    r.append(digit_text(n % 10));
    assert(r@ =~= number_text(n as int));
    r
}

/// A string, a number in decimal, and another string.
pub fn numbered(a: &str, n: usize, b: &str) -> (r: String)
    ensures
        r@ == a@ + number_text(n as int) + b@,
{
    let mut r = String::from_str(a);
    r.append(number_string(n).as_str());
    r.append(b);
    r
}

/// The string begins with `head`.
pub open spec fn begins_with(s: Seq<char>, head: Seq<char>) -> bool {
    head.len() <= s.len() && s.take(head.len() as int) == head
}

/// Whether a string begins with `head`.
pub fn begins(s: &str, head: &str) -> (r: bool)
    ensures
        r == begins_with(s@, head@),
{
    let n = head.unicode_len();
    if n > s.unicode_len() {
        return false;
    }
    assert(s@.subrange(0, n as int) =~= s@.take(n as int));
    same_text(s.substring_char(0, n), head)
}

/// The string ends with `tail`.
pub open spec fn ends_with(s: Seq<char>, tail: Seq<char>) -> bool {
    tail.len() <= s.len() && s.skip(s.len() - tail.len()) == tail
}

/// The string without any `tail` at its end, however often it stands there.
pub open spec fn without_tail(s: Seq<char>, tail: Seq<char>) -> Seq<char>
    decreases s.len(),
{
    if tail.len() > 0 && ends_with(s, tail) {
        without_tail(s.take(s.len() - tail.len()), tail)
    } else {
        s
    }
}

/// A string without any `tail` at its end.
pub fn trimmed_tail<'a>(s: &'a str, tail: &str) -> (r: &'a str)
    ensures
        r@ == without_tail(s@, tail@),
    decreases s@.len(),
{
    let n = s.unicode_len();
    let k = tail.unicode_len();
    if k == 0 || k > n {
        return s;
    }
    assert(s@.subrange(n - k, n as int) =~= s@.skip(n - k));
    assert(s@.subrange(0, n - k) =~= s@.take(n - k));
    if same_text(s.substring_char(n - k, n), tail) {
        trimmed_tail(s.substring_char(0, n - k), tail)
    } else {
        s
    }
}

} // verus!
