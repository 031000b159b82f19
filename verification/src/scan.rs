//! Finding and reading pieces of text in a sequence of bytes.
//!
//! The text is UTF-8; positions count bytes.

use vstd::prelude::*;

verus! {

// ---- searching ------------------------------------------------------------------------

/// `needle` stands in `hay` at position `i`.
pub open spec fn stands_at(hay: Seq<u8>, needle: Seq<u8>, i: int) -> bool {
    &&& 0 <= i
    &&& i + needle.len() <= hay.len()
    &&& hay.subrange(i, i + needle.len()) == needle
}

/// The first position at or after `from`, and before the end, where `needle` stands.
pub open spec fn found(hay: Seq<u8>, needle: Seq<u8>, from: int) -> Option<int>
    decreases hay.len() - from,
{
    if from >= hay.len() {
        None
    } else if stands_at(hay, needle, from) {
        Some(from)
    } else {
        found(hay, needle, from + 1)
    }
}

/// What is found stands there and is the first to do so; where nothing is found,
/// `needle` stands nowhere.
pub proof fn lemma_found(hay: Seq<u8>, needle: Seq<u8>, from: int)
    requires
        0 <= from,
    ensures
        match found(hay, needle, from) {
            Some(p) => from <= p < hay.len() && stands_at(hay, needle, p) && forall|i: int|
                from <= i < p ==> !stands_at(hay, needle, i),
            None => forall|i: int| from <= i < hay.len() ==> !stands_at(hay, needle, i),
        },
    decreases hay.len() - from,
{
    if from < hay.len() && !stands_at(hay, needle, from) {
        lemma_found(hay, needle, from + 1);
    }
}

fn stands(hay: &[u8], needle: &[u8], i: usize) -> (r: bool)
    requires
        i < hay@.len(),
    ensures
        r == stands_at(hay@, needle@, i as int),
{
    if needle.len() > hay.len() - i {
        return false;
    }
    let mut k: usize = 0;
    while k < needle.len()
        invariant
            k <= needle@.len(),
            i + needle@.len() <= hay.len(),
            forall|j: int| 0 <= j < k ==> hay@[i + j] == needle@[j],
        decreases needle@.len() - k,
    {
        if hay[i + k] != needle[k] {
            assert(hay@.subrange(i as int, i + needle@.len())[k as int] == hay@[i + k]);
            return false;
        }
        k += 1;
    }
    assert(hay@.subrange(i as int, i + needle@.len()) =~= needle@);
    true
}

/// The first position at or after `from`, and before the end, where `needle` stands.
pub fn find_from(hay: &[u8], needle: &[u8], from: usize) -> (r: Option<usize>)
    ensures
        match r {
            Some(p) => found(hay@, needle@, from as int) == Some(p as int),
            None => found(hay@, needle@, from as int) is None,
        },
        match r {
            Some(p) => from <= p < hay.len() && p + needle.len() <= hay.len(),
            None => true,
        },
{
    let mut i: usize = from;
    proof {
        lemma_found(hay@, needle@, from as int);
    }
    while i < hay.len()
        invariant
            from <= i,
            found(hay@, needle@, from as int) == found(hay@, needle@, i as int),
        decreases hay@.len() - i,
    {
        if stands(hay, needle, i) {
            return Some(i);
        }
        i += 1;
    }
    None
}

/// The first position at or after `from` that holds the byte `b`.
pub open spec fn next_byte(hay: Seq<u8>, b: u8, from: int) -> Option<int>
    decreases hay.len() - from,
{
    if from >= hay.len() {
        None
    } else if hay[from] == b {
        Some(from)
    } else {
        next_byte(hay, b, from + 1)
    }
}

/// Finds the first position at or after `from` that holds `b`.
pub fn find_byte(hay: &[u8], b: u8, from: usize) -> (r: Option<usize>)
    ensures
        match r {
            Some(p) => next_byte(hay@, b, from as int) == Some(p as int) && from <= p < hay.len()
                && hay@[p as int] == b,
            None => next_byte(hay@, b, from as int) is None,
        },
{
    let mut i: usize = from;
    while i < hay.len()
        invariant
            from <= i,
            next_byte(hay@, b, from as int) == next_byte(hay@, b, i as int),
        decreases hay@.len() - i,
    {
        if hay[i] == b {
            return Some(i);
        }
        i += 1;
    }
    None
}

/// The last position before `end` that holds the byte `b`.
pub open spec fn last_byte(hay: Seq<u8>, b: u8, end: int) -> Option<int>
    decreases end,
{
    if end <= 0 {
        None
    } else if hay[end - 1] == b {
        Some(end - 1)
    } else {
        last_byte(hay, b, end - 1)
    }
}

/// Finds the last position before `end` that holds `b`.
pub fn rfind_byte(hay: &[u8], b: u8, end: usize) -> (r: Option<usize>)
    requires
        end <= hay@.len(),
    ensures
        match r {
            Some(p) => last_byte(hay@, b, end as int) == Some(p as int) && p < end && hay@[p as int]
                == b,
            None => last_byte(hay@, b, end as int) is None,
        },
{
    let mut i: usize = end;
    while i > 0
        invariant
            i <= end <= hay@.len(),
            last_byte(hay@, b, end as int) == last_byte(hay@, b, i as int),
        decreases i,
    {
        if hay[i - 1] == b {
            return Some(i - 1);
        }
        i -= 1;
    }
    None
}

// ---- white space ----------------------------------------------------------------------

/// The two bytes encode a character of white space.
pub open spec fn is_space2(a: u8, b: u8) -> bool {
    a == 0xc2 && (b == 0x85 || b == 0xa0)
}

/// The three bytes encode a character of white space.
pub open spec fn is_space3(a: u8, b: u8, c: u8) -> bool {
    ||| a == 0xe1 && b == 0x9a && c == 0x80
    ||| a == 0xe2 && b == 0x80 && (0x80 <= c <= 0x8a || c == 0xa8 || c == 0xa9 || c == 0xaf)
    ||| a == 0xe2 && b == 0x81 && c == 0x9f
    ||| a == 0xe3 && b == 0x80 && c == 0x80
}

/// The byte is a character of white space by itself.
pub open spec fn is_space1(a: u8) -> bool {
    9 <= a <= 13 || a == 32
}

/// Number of bytes of the white-space character that starts at `i` and ends at or before
/// `to`, 0 where none does.
pub open spec fn space_at(s: Seq<u8>, i: int, to: int) -> int {
    if i < to && is_space1(s[i]) {
        1
    } else if i + 1 < to && is_space2(s[i], s[i + 1]) {
        2
    } else if i + 2 < to && is_space3(s[i], s[i + 1], s[i + 2]) {
        3
    } else {
        0
    }
}

/// Number of bytes of the white-space character that ends before `e` and starts at or
/// after `from`, 0 where none does.
pub open spec fn space_before(s: Seq<u8>, from: int, e: int) -> int {
    if from < e && is_space1(s[e - 1]) {
        1
    } else if from + 1 < e && is_space2(s[e - 2], s[e - 1]) {
        2
    } else if from + 2 < e && is_space3(s[e - 3], s[e - 2], s[e - 1]) {
        3
    } else {
        0
    }
}

fn space1(a: u8) -> (r: bool)
    ensures
        r == is_space1(a),
{
    (9 <= a && a <= 13) || a == 32
}

fn space2(a: u8, b: u8) -> (r: bool)
    ensures
        r == is_space2(a, b),
{
    a == 0xc2 && (b == 0x85 || b == 0xa0)
}

fn space3(a: u8, b: u8, c: u8) -> (r: bool)
    ensures
        r == is_space3(a, b, c),
{
    (a == 0xe1 && b == 0x9a && c == 0x80) || (a == 0xe2 && b == 0x80 && ((0x80 <= c && c <= 0x8a)
        || c == 0xa8 || c == 0xa9 || c == 0xaf)) || (a == 0xe2 && b == 0x81 && c == 0x9f) || (a
        == 0xe3 && b == 0x80 && c == 0x80)
}

fn space_len(s: &[u8], i: usize, to: usize) -> (r: usize)
    requires
        i <= to <= s@.len(),
    ensures
        r == space_at(s@, i as int, to as int),
        i + r <= to,
{
    let n = to - i;
    if n > 0 && space1(s[i]) {
        1
    } else if n > 1 && space2(s[i], s[i + 1]) {
        2
    } else if n > 2 && space3(s[i], s[i + 1], s[i + 2]) {
        3
    } else {
        0
    }
}

fn space_len_before(s: &[u8], from: usize, e: usize) -> (r: usize)
    requires
        from <= e <= s@.len(),
    ensures
        r == space_before(s@, from as int, e as int),
        from + r <= e,
{
    let n = e - from;
    if n > 0 && space1(s[e - 1]) {
        1
    } else if n > 1 && space2(s[e - 2], s[e - 1]) {
        2
    } else if n > 2 && space3(s[e - 3], s[e - 2], s[e - 1]) {
        3
    } else {
        0
    }
}

/// The start of `s[from..to]` without the white space in front.
pub open spec fn trim_start(s: Seq<u8>, from: int, to: int) -> int
    decreases to - from,
{
    let n = space_at(s, from, to);
    if from >= to || n == 0 {
        from
    } else {
        trim_start(s, from + n, to)
    }
}

/// The end of `s[from..to]` without the white space behind.
pub open spec fn trim_end(s: Seq<u8>, from: int, to: int) -> int
    decreases to - from,
{
    let n = space_before(s, from, to);
    if from >= to || n == 0 {
        to
    } else {
        trim_end(s, from, to - n)
    }
}

/// `s[from..to]` without the white space at both ends.
pub open spec fn trimmed(s: Seq<u8>, from: int, to: int) -> Seq<u8> {
    let a = trim_start(s, from, to);
    s.subrange(a, trim_end(s, a, to))
}

/// Finds where the text of `s[from..to]` begins and ends without the white space round
/// it.
fn trim(s: &[u8], from: usize, to: usize) -> (r: (usize, usize))
    requires
        from <= to <= s@.len(),
    ensures
        from <= r.0 <= r.1 <= to,
        s@.subrange(r.0 as int, r.1 as int) == trimmed(s@, from as int, to as int),
{
    let mut a: usize = from;
    let mut more = true;
    while more && a < to
        invariant
            from <= a <= to <= s@.len(),
            trim_start(s@, from as int, to as int) == trim_start(s@, a as int, to as int),
            !more ==> trim_start(s@, a as int, to as int) == a,
        decreases to - a, if more { 1int } else { 0int },
    {
        let n = space_len(s, a, to);
        if n == 0 {
            more = false;
        } else {
            a += n;
        }
    }
    let mut e: usize = to;
    more = true;
    while more && a < e
        invariant
            from <= a <= e <= to <= s@.len(),
            trim_end(s@, a as int, to as int) == trim_end(s@, a as int, e as int),
            !more ==> trim_end(s@, a as int, e as int) == e,
        decreases e - a, if more { 1int } else { 0int },
    {
        let n = space_len_before(s, a, e);
        if n == 0 {
            more = false;
        } else {
            e -= n;
        }
    }
    (a, e)
}

// ---- numbers --------------------------------------------------------------------------

/// The byte is a decimal digit.
pub open spec fn is_digit(b: u8) -> bool {
    48 <= b <= 57
}

/// The first position at or after `i` that holds no digit.
pub open spec fn digits_end(s: Seq<u8>, i: int) -> int
    decreases s.len() - i,
{
    if i < s.len() && is_digit(s[i]) {
        digits_end(s, i + 1)
    } else {
        i
    }
}

/// Every byte is a decimal digit.
pub open spec fn all_digits(s: Seq<u8>) -> bool {
    forall|i: int| 0 <= i < s.len() ==> is_digit(#[trigger] s[i])
}

/// The number that the decimal digits of `s` write.
pub open spec fn decimal(s: Seq<u8>) -> int
    decreases s.len(),
{
    if s.len() == 0 {
        0
    } else {
        decimal(s.drop_last()) * 10 + (s.last() - 48)
    }
}

/// The number that `s` writes: decimal digits, at least one, with an optional plus sign
/// in front, of a value that fits.
pub open spec fn number(s: Seq<u8>) -> Option<usize> {
    let d = if s.len() > 0 && s[0] == 43 {
        s.skip(1)
    } else {
        s
    };
    if d.len() == 0 || !all_digits(d) || decimal(d) > usize::MAX {
        None
    } else {
        Some(decimal(d) as usize)
    }
}

/// Reads the number that `s[from..to]` writes.
fn parse_number(s: &[u8], from: usize, to: usize) -> (r: Option<usize>)
    requires
        from <= to <= s@.len(),
    ensures
        r == number(s@.subrange(from as int, to as int)),
{
    let ghost all = s@.subrange(from as int, to as int);
    let at: usize = if from < to && s[from] == 43 {
        from + 1
    } else {
        from
    };
    let ghost d = s@.subrange(at as int, to as int);
    proof {
        if at != from {
            assert(all[0] == 43);
            assert(d =~= all.skip(1));
        } else {
            assert(d =~= all);
            if all.len() > 0 {
                assert(all[0] == s@[from as int]);
            }
        }
    }
    if at == to {
        return None;
    }
    let mut v: usize = 0;
    let mut fits = true;
    let mut i: usize = at;
    assert(d.take(0) =~= Seq::<u8>::empty());
    while i < to
        invariant
            at <= i <= to <= s@.len(),
            d == s@.subrange(at as int, to as int),
            all == s@.subrange(from as int, to as int),
            forall|j: int| 0 <= j < i - at ==> is_digit(#[trigger] d[j]),
            fits ==> v == decimal(d.take(i - at)),
            !fits ==> decimal(d.take(i - at)) > usize::MAX,
            number(all) == (if !all_digits(d) || decimal(d) > usize::MAX {
                None
            } else {
                Some(decimal(d) as usize)
            }),
        decreases to - i,
    {
        let b = s[i];
        assert(b == d[i - at]);
        if b < 48 || b > 57 {
            return None;
        }
        proof {
            assert(d.take(i - at + 1).drop_last() =~= d.take(i - at));
        }
        if fits {
            let x = (b - 48) as usize;
            if v > usize::MAX / 10 {
                fits = false;
            } else if v * 10 > usize::MAX - x {
                fits = false;
            } else {
                v = v * 10 + x;
            }
        }
        i += 1;
    }
    assert(d.take(to - at) =~= d);
    if fits {
        Some(v)
    } else {
        None
    }
}

// ---- the values of a header -----------------------------------------------------------

/// The first position at or after `i` that holds neither white space nor one of `:[,`.
pub open spec fn separators_end(s: Seq<u8>, i: int) -> int
    decreases s.len() - i,
{
    let n = if i < s.len() && (s[i] == 58 || s[i] == 91 || s[i] == 44) {
        1
    } else {
        space_at(s, i, s.len() as int)
    };
    if i >= s.len() || n == 0 {
        i
    } else {
        separators_end(s, i + n)
    }
}

fn skip(s: &[u8], from: usize) -> (r: usize)
    requires
        from <= s@.len(),
    ensures
        r == separators_end(s@, from as int),
        from <= r <= s@.len(),
{
    let mut i: usize = from;
    while i < s.len()
        invariant
            from <= i <= s@.len(),
            separators_end(s@, from as int) == separators_end(s@, i as int),
        decreases s@.len() - i,
    {
        let n: usize = if s[i] == 58 || s[i] == 91 || s[i] == 44 {
            1
        } else {
            space_len(s, i, s.len())
        };
        if n == 0 {
            return i;
        }
        i += n;
    }
    i
}

fn skip_digits(s: &[u8], from: usize) -> (r: usize)
    requires
        from <= s@.len(),
    ensures
        r == digits_end(s@, from as int),
        from <= r <= s@.len(),
{
    let mut i: usize = from;
    while i < s.len() && 48 <= s[i] && s[i] <= 57
        invariant
            from <= i <= s@.len(),
            digits_end(s@, from as int) == digits_end(s@, i as int),
        decreases s@.len() - i,
    {
        i += 1;
    }
    i
}

/// The two numbers that follow the first `key` at or after `pos`, with nothing but
/// white space and `:[,` before each.
pub open spec fn pair_after(hay: Seq<u8>, key: Seq<u8>, pos: int) -> Option<(usize, usize)> {
    match found(hay, key, pos) {
        None => None,
        Some(p) => {
            let i = separators_end(hay, p + key.len());
            let e = digits_end(hay, i);
            let j = separators_end(hay, e);
            match (number(hay.subrange(i, e)), number(hay.subrange(j, digits_end(hay, j)))) {
                (Some(a), Some(b)) => Some((a, b)),
                _ => None,
            }
        },
    }
}

/// Reads the two numbers of an array such as `"data_offsets":[a,b]`, starting at the key
/// itself.
pub fn parse_usize_pair_after(hay: &[u8], key: &[u8], pos: usize) -> (r: Option<(usize, usize)>)
    ensures
        r == pair_after(hay@, key@, pos as int),
{
    let p = match find_from(hay, key, pos) {
        None => {
            return None;
        },
        Some(p) => p,
    };
    let i = skip(hay, p + key.len());
    let e = skip_digits(hay, i);
    let a = match parse_number(hay, i, e) {
        None => {
            return None;
        },
        Some(a) => a,
    };
    let j = skip(hay, e);
    let f = skip_digits(hay, j);
    match parse_number(hay, j, f) {
        None => None,
        Some(b) => Some((a, b)),
    }
}

/// The text between the first two quotes after the first `key` at or after `pos`.
pub open spec fn string_after(hay: Seq<u8>, key: Seq<u8>, pos: int) -> Option<Seq<u8>> {
    match found(hay, key, pos) {
        None => None,
        Some(p) => match next_byte(hay, 34, p + key.len()) {
            None => None,
            Some(q) => match next_byte(hay, 34, q + 1) {
                None => None,
                Some(e) => Some(hay.subrange(q + 1, e)),
            },
        },
    }
}

/// Reads the string that follows a key.
pub fn parse_string_after(hay: &[u8], key: &[u8], pos: usize) -> (r: Option<Vec<u8>>)
    ensures
        match r {
            Some(s) => string_after(hay@, key@, pos as int) == Some(s@),
            None => string_after(hay@, key@, pos as int) is None,
        },
{
    let p = match find_from(hay, key, pos) {
        None => {
            return None;
        },
        Some(p) => p,
    };
    let q = match find_byte(hay, 34, p + key.len()) {
        None => {
            return None;
        },
        Some(q) => q,
    };
    match find_byte(hay, 34, q + 1) {
        None => None,
        Some(e) => Some(crate::names::bytes_of(vstd::slice::slice_subrange(hay, q + 1, e))),
    }
}

/// The numbers that commas separate in `s[from..to]`, each with white space round it.
pub open spec fn numbers_between(s: Seq<u8>, from: int, to: int) -> Option<Seq<usize>>
    decreases to - from,
{
    let e = match next_byte(s.take(to), 44, from) {
        Some(e) => e,
        None => to,
    };
    match number(trimmed(s, from, e)) {
        None => None,
        Some(v) => if e >= to || e < from {
            Some(seq![v])
        } else {
            match numbers_between(s, e + 1, to) {
                None => None,
                Some(rest) => Some(seq![v] + rest),
            }
        },
    }
}

/// The numbers in the first pair of square brackets at or after `pos`.
pub open spec fn shape_after(hay: Seq<u8>, pos: int) -> Option<Seq<usize>> {
    match next_byte(hay, 91, pos) {
        None => None,
        Some(open) => match next_byte(hay, 93, open) {
            None => None,
            Some(close) => if trimmed(hay, open + 1, close).len() == 0 {
                Some(Seq::empty())
            } else {
                numbers_between(hay, open + 1, close)
            },
        },
    }
}

/// Reads the numbers in the first pair of square brackets at or after `pos`.
pub fn parse_shape_after(hay: &[u8], pos: usize) -> (r: Option<Vec<usize>>)
    ensures
        match r {
            Some(s) => shape_after(hay@, pos as int) == Some(s@),
            None => shape_after(hay@, pos as int) is None,
        },
{
    let open = match find_byte(hay, 91, pos) {
        None => {
            return None;
        },
        Some(p) => p,
    };
    let close = match find_byte(hay, 93, open) {
        None => {
            return None;
        },
        Some(p) => p,
    };
    let (a, e) = trim(hay, open + 1, close);
    let mut out: Vec<usize> = Vec::new();
    if a == e {
        return Some(out);
    }
    let part = vstd::slice::slice_subrange(hay, 0, close);
    assert(part@ =~= hay@.take(close as int));
    let ghost want = numbers_between(hay@, open + 1, close as int);
    let mut from: usize = open + 1;
    let mut more = true;
    assert(want is Some ==> want == Some(out@ + want->0)) by {
        if want is Some {
            assert(out@ + want->0 =~= want->0);
        }
    }
    while more
        invariant
            open < from <= close < hay@.len() || !more,
            part@ == hay@.take(close as int),
            close < hay@.len(),
            want == (if more {
                match numbers_between(hay@, from as int, close as int) {
                    None => None,
                    Some(rest) => Some(out@ + rest),
                }
            } else {
                Some(out@)
            }),
            shape_after(hay@, pos as int) == want,
        decreases close + 1 - from, if more { 1int } else { 0int },
    {
        let ghost rest = numbers_between(hay@, from as int, close as int);
        let e = match find_byte(part, 44, from) {
            Some(e) => e,
            None => close,
        };
        let (x, y) = trim(hay, from, e);
        match parse_number(hay, x, y) {
            None => {
                return None;
            },
            Some(v) => {
                let ghost before = out@;
                out.push(v);
                proof {
                    assert(out@ =~= before + seq![v]);
                    if e < close {
                        let tail = numbers_between(hay@, e + 1, close as int);
                        if tail is Some {
                            assert(before + (seq![v] + tail->0) =~= out@ + tail->0);
                        }
                    }
                }
                if e == close {
                    more = false;
                } else {
                    from = e + 1;
                }
            },
        }
    }
    Some(out)
}

} // verus!
