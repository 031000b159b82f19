//! The header of a safetensors file.
//!
//! A file begins with the length of its header as eight bytes, the least significant
//! first. The header is text: an object with one entry per tensor, in which `dtype`,
//! `shape` and `data_offsets` follow the name in this order. The data come behind the
//! header, and `data_offsets` count from there.

use crate::names::{before, bytes_of, place, Dtype, Info, Place, TensorIndex, TensorInfo};
use crate::scan::{
    find_from, found, last_byte, pair_after, parse_shape_after, parse_string_after,
    parse_usize_pair_after, rfind_byte, shape_after, string_after,
};
use crate::text::{
    digits, list_text, push_bytes, push_list, push_number, push_str, push_u64, text, utf8,
};
use vstd::prelude::*;
use vstd::utf8::valid_utf8;

verus! {

/// What is wrong with a header. `S` holds text and `N` holds numbers.
#[verifier::reject_recursive_types(S)]
#[verifier::reject_recursive_types(N)]
#[derive(Debug)]
pub enum Fault<S, N> {
    TooSmall,
    ImplausibleLength { len: u64 },
    Truncated,
    NotUtf8,
    NoOpeningBrace,
    NoObject,
    OutsideObject,
    MalformedKey,
    NoNameKey,
    MissingDtype,
    MissingShape,
    BadShape,
    MissingOffsets,
    BadOffsets,
    OutOfBounds { name: S },
    UnsupportedDtype { dtype: S, name: S },
    WrongSize { name: S, nbytes: usize, shape: N, count: Option<usize>, dtype: S },
    NoTensors,
    PayloadPastEnd,
}

/// What is wrong with a header.
pub type HeaderError = Fault<Vec<u8>, Vec<usize>>;

impl View for Fault<Vec<u8>, Vec<usize>> {
    type V = Fault<Seq<u8>, Seq<usize>>;

    open spec fn view(&self) -> Fault<Seq<u8>, Seq<usize>> {
        match *self {
            Fault::TooSmall => Fault::TooSmall,
            Fault::ImplausibleLength { len } => Fault::ImplausibleLength { len },
            Fault::Truncated => Fault::Truncated,
            Fault::NotUtf8 => Fault::NotUtf8,
            Fault::NoOpeningBrace => Fault::NoOpeningBrace,
            Fault::NoObject => Fault::NoObject,
            Fault::OutsideObject => Fault::OutsideObject,
            Fault::MalformedKey => Fault::MalformedKey,
            Fault::NoNameKey => Fault::NoNameKey,
            Fault::MissingDtype => Fault::MissingDtype,
            Fault::MissingShape => Fault::MissingShape,
            Fault::BadShape => Fault::BadShape,
            Fault::MissingOffsets => Fault::MissingOffsets,
            Fault::BadOffsets => Fault::BadOffsets,
            Fault::OutOfBounds { name } => Fault::OutOfBounds { name: name@ },
            Fault::UnsupportedDtype { dtype, name } => Fault::UnsupportedDtype {
                dtype: dtype@,
                name: name@,
            },
            Fault::WrongSize { name, nbytes, shape, count, dtype } => Fault::WrongSize {
                name: name@,
                nbytes,
                shape: shape@,
                count,
                dtype: dtype@,
            },
            Fault::NoTensors => Fault::NoTensors,
            Fault::PayloadPastEnd => Fault::PayloadPastEnd,
        }
    }
}

/// A fault in words.
pub open spec fn fault_text(f: Fault<Seq<u8>, Seq<usize>>) -> Seq<u8> {
    match f {
        Fault::TooSmall => utf8("safetensors: file too small"),
        Fault::ImplausibleLength { len } => utf8("safetensors: implausible header length ")
            + digits(len as int),
        Fault::Truncated => utf8("safetensors: truncated header"),
        Fault::NotUtf8 => utf8("safetensors: header is not utf-8"),
        Fault::NoOpeningBrace => utf8("safetensors: header does not start with '{'"),
        Fault::NoObject => utf8("safetensors: no object before dtype"),
        Fault::OutsideObject => utf8("safetensors: dtype outside any object"),
        Fault::MalformedKey => utf8("safetensors: malformed key before dtype"),
        Fault::NoNameKey => utf8("safetensors: no name key before dtype"),
        Fault::MissingDtype => utf8("safetensors: missing dtype value"),
        Fault::MissingShape => utf8("safetensors: missing shape"),
        Fault::BadShape => utf8("safetensors: bad shape"),
        Fault::MissingOffsets => utf8("safetensors: missing data_offsets"),
        Fault::BadOffsets => utf8("safetensors: bad data_offsets"),
        Fault::OutOfBounds { name } => utf8("safetensors: tensor ") + name + utf8(
            " out of bounds",
        ),
        Fault::UnsupportedDtype { dtype, name } => utf8("safetensors: unsupported dtype ") + dtype
            + utf8(" for ") + name,
        Fault::WrongSize { name, nbytes, shape, count, dtype } => utf8("safetensors: tensor ")
            + name + utf8(" has ") + digits(nbytes as int) + utf8(" bytes for ") + list_text(shape)
            + utf8(" (") + (match count {
            Some(n) => digits(n as int),
            None => utf8("too many"),
        }) + utf8(" element(s) of ") + dtype + utf8(")"),
        Fault::NoTensors => utf8("safetensors: no tensors found in header"),
        Fault::PayloadPastEnd => utf8("safetensors: payload extends past end of file"),
    }
}

/// A fault in words.
pub fn fault_message(e: &HeaderError) -> (r: Vec<u8>)
    ensures
        r@ == fault_text(e@),
{
    match e {
        Fault::TooSmall => text("safetensors: file too small"),
        Fault::Truncated => text("safetensors: truncated header"),
        Fault::NotUtf8 => text("safetensors: header is not utf-8"),
        Fault::NoOpeningBrace => text("safetensors: header does not start with '{'"),
        Fault::NoObject => text("safetensors: no object before dtype"),
        Fault::OutsideObject => text("safetensors: dtype outside any object"),
        Fault::MalformedKey => text("safetensors: malformed key before dtype"),
        Fault::NoNameKey => text("safetensors: no name key before dtype"),
        Fault::MissingDtype => text("safetensors: missing dtype value"),
        Fault::MissingShape => text("safetensors: missing shape"),
        Fault::BadShape => text("safetensors: bad shape"),
        Fault::MissingOffsets => text("safetensors: missing data_offsets"),
        Fault::BadOffsets => text("safetensors: bad data_offsets"),
        Fault::NoTensors => text("safetensors: no tensors found in header"),
        Fault::PayloadPastEnd => text("safetensors: payload extends past end of file"),
        Fault::ImplausibleLength { len } => {
            let mut out = text("safetensors: implausible header length ");
            push_u64(&mut out, *len);
            out
        },
        Fault::OutOfBounds { name } => {
            let mut out = text("safetensors: tensor ");
            push_bytes(&mut out, name);
            push_str(&mut out, " out of bounds");
            out
        },
        Fault::UnsupportedDtype { dtype, name } => {
            let mut out = text("safetensors: unsupported dtype ");
            push_bytes(&mut out, dtype);
            push_str(&mut out, " for ");
            push_bytes(&mut out, name);
            out
        },
        Fault::WrongSize { name, nbytes, shape, count, dtype } => {
            let mut out = text("safetensors: tensor ");
            push_bytes(&mut out, name);
            push_str(&mut out, " has ");
            push_number(&mut out, *nbytes);
            push_str(&mut out, " bytes for ");
            push_list(&mut out, shape);
            push_str(&mut out, " (");
            match count {
                Some(n) => push_number(&mut out, *n),
                None => push_str(&mut out, "too many"),
            }
            push_str(&mut out, " element(s) of ");
            push_bytes(&mut out, dtype);
            push_str(&mut out, ")");
            out
        },
    }
}

// ---- words ----------------------------------------------------------------------------

/// `"dtype"`, with its quotes.
pub open spec fn dtype_key() -> Seq<u8> {
    seq![34u8, 100, 116, 121, 112, 101, 34]
}

/// `"shape"`, with its quotes.
pub open spec fn shape_key() -> Seq<u8> {
    seq![34u8, 115, 104, 97, 112, 101, 34]
}

/// `"data_offsets"`, with its quotes.
pub open spec fn offsets_key() -> Seq<u8> {
    seq![34u8, 100, 97, 116, 97, 95, 111, 102, 102, 115, 101, 116, 115, 34]
}

/// `__metadata__`.
pub open spec fn metadata_name() -> Seq<u8> {
    seq![95u8, 95, 109, 101, 116, 97, 100, 97, 116, 97, 95, 95]
}

/// `F32`.
pub open spec fn f32_name() -> Seq<u8> {
    seq![70u8, 51, 50]
}

/// `I64`.
pub open spec fn i64_name() -> Seq<u8> {
    seq![73u8, 54, 52]
}

/// `I32`.
pub open spec fn i32_name() -> Seq<u8> {
    seq![73u8, 51, 50]
}

fn same(a: &[u8], b: &[u8]) -> (r: bool)
    ensures
        r == (a@ == b@),
{
    place(a, b) == Place::Same
}

// ---- numbers --------------------------------------------------------------------------

/// The number that eight bytes hold, the least significant first.
pub open spec fn le64(s: Seq<u8>) -> int {
    s[0] + s[1] * 0x100 + s[2] * 0x1_0000 + s[3] * 0x100_0000 + s[4] * 0x1_0000_0000 + s[5]
        * 0x100_0000_0000 + s[6] * 0x1_0000_0000_0000 + s[7] * 0x100_0000_0000_0000
}

/// Reads the number that eight bytes hold from position `i` on.
pub fn read_le64(s: &[u8], i: usize) -> (r: u64)
    requires
        i + 8 <= s@.len(),
    ensures
        r == le64(s@.subrange(i as int, i + 8)),
{
    assert(s@.len() == s.len());
    let ghost t = s@.subrange(i as int, i + 8);
    assert(forall|k: int| 0 <= k < 8 ==> t[k] == s@[i + k]);
    s[i] as u64 + s[i + 1] as u64 * 0x100 + s[i + 2] as u64 * 0x1_0000 + s[i + 3] as u64
        * 0x100_0000 + s[i + 4] as u64 * 0x1_0000_0000 + s[i + 5] as u64 * 0x100_0000_0000 + s[i
        + 6] as u64 * 0x1_0000_0000_0000 + s[i + 7] as u64 * 0x100_0000_0000_0000
}

/// The product of the numbers.
pub open spec fn product(s: Seq<usize>) -> int
    decreases s.len(),
{
    if s.len() == 0 {
        1
    } else {
        product(s.drop_last()) * s.last()
    }
}

proof fn lemma_product_zero(s: Seq<usize>, i: int)
    requires
        0 <= i < s.len(),
        s[i] == 0,
    ensures
        product(s) == 0,
    decreases s.len(),
{
    if i < s.len() - 1 {
        lemma_product_zero(s.drop_last(), i);
    }
    assert(product(s.drop_last()) * s.last() == 0) by (nonlinear_arith)
        requires
            product(s.drop_last()) == 0 || s.last() == 0,
    ;
}

proof fn lemma_product_grows(s: Seq<usize>, k: int)
    requires
        0 <= k <= s.len(),
        forall|i: int| 0 <= i < s.len() ==> s[i] > 0,
    ensures
        0 < product(s.take(k)) <= product(s),
    decreases s.len(),
{
    let d = s.drop_last();
    if k < s.len() {
        lemma_product_grows(d, k);
        assert(d.take(k) =~= s.take(k));
        assert(product(d) * s.last() >= product(d)) by (nonlinear_arith)
            requires
                product(d) > 0,
                s.last() > 0,
        ;
    } else {
        assert(s.take(k) =~= s);
        if s.len() > 0 {
            lemma_product_grows(d, s.len() - 1);
            assert(product(d) * s.last() > 0) by (nonlinear_arith)
                requires
                    product(d) > 0,
                    s.last() > 0,
            ;
        }
    }
}

/// The product of the numbers, where it fits.
pub fn count_elements(s: &[usize]) -> (r: Option<usize>)
    ensures
        match r {
            Some(n) => product(s@) == n,
            None => product(s@) > usize::MAX,
        },
{
    let mut i: usize = 0;
    while i < s.len()
        invariant
            i <= s@.len(),
            forall|j: int| 0 <= j < i ==> s@[j] > 0,
        decreases s@.len() - i,
    {
        if s[i] == 0 {
            proof {
                lemma_product_zero(s@, i as int);
            }
            return Some(0);
        }
        i += 1;
    }
    let mut n: usize = 1;
    i = 0;
    assert(s@.take(0) =~= Seq::<usize>::empty());
    while i < s.len()
        invariant
            i <= s@.len(),
            forall|j: int| 0 <= j < s@.len() ==> s@[j] > 0,
            n == product(s@.take(i as int)),
        decreases s@.len() - i,
    {
        proof {
            assert(s@.take(i + 1).drop_last() =~= s@.take(i as int));
            lemma_product_grows(s@, i + 1);
        }
        match n.checked_mul(s[i]) {
            None => {
                return None;
            },
            Some(m) => {
                n = m;
            },
        }
        i += 1;
    }
    assert(s@.take(i as int) =~= s@);
    Some(n)
}

// ---- the header -----------------------------------------------------------------------

/// Whether the bytes are UTF-8.
///
/// Rests on `std::str::from_utf8`, which succeeds exactly on the valid encodings.
#[verifier::external_body]
fn is_utf8(s: &[u8]) -> (r: bool)
    ensures
        r == valid_utf8(s@),
{
    std::str::from_utf8(s).is_ok()
}

/// Element size and kind of a dtype that is supported.
pub open spec fn dtype_of(s: Seq<u8>) -> Option<(int, Dtype)> {
    if s == f32_name() {
        Some((4, Dtype::F32))
    } else if s == i64_name() {
        Some((8, Dtype::Int))
    } else if s == i32_name() {
        Some((4, Dtype::Int))
    } else {
        None
    }
}

fn find_dtype(s: &[u8]) -> (r: Option<(usize, Dtype)>)
    ensures
        match r {
            Some((n, d)) => dtype_of(s@) == Some((n as int, d)) && (n == 4 || n == 8),
            None => dtype_of(s@) is None,
        },
{
    let f32_word: Vec<u8> = vec![70, 51, 50];
    let i64_word: Vec<u8> = vec![73, 54, 52];
    let i32_word: Vec<u8> = vec![73, 51, 50];
    assert(f32_word@ =~= f32_name());
    assert(i64_word@ =~= i64_name());
    assert(i32_word@ =~= i32_name());
    if same(s, &f32_word) {
        Some((4, Dtype::F32))
    } else if same(s, &i64_word) {
        Some((8, Dtype::Int))
    } else if same(s, &i32_word) {
        Some((4, Dtype::Int))
    } else {
        None
    }
}

/// The entry whose `"dtype"` stands at `p`: the name and where the tensor is stored, or
/// nothing for the metadata. The header `head` ends at `end` in a file of `total` bytes.
pub open spec fn entry_at(head: Seq<u8>, end: int, total: int, p: int) -> Result<
    Option<(Seq<u8>, Info)>,
    Fault<Seq<u8>, Seq<usize>>,
> {
    match last_byte(head, 123, p) {
        None => Err(Fault::NoObject),
        Some(brace) => if brace < 3 {
            Err(Fault::OutsideObject)
        } else if head[brace - 2] != 34 {
            Err(Fault::MalformedKey)
        } else {
            match last_byte(head, 34, brace - 2) {
                None => Err(Fault::NoNameKey),
                Some(quote) => {
                    let name = head.subrange(quote + 1, brace - 2);
                    if name == metadata_name() {
                        Ok(None)
                    } else {
                        match info_at(head, end, total, p, name) {
                            Ok(info) => Ok(Some((name, info))),
                            Err(f) => Err(f),
                        }
                    }
                },
            }
        },
    }
}

/// Where the tensor `name`, whose `"dtype"` stands at `p`, is stored.
pub open spec fn info_at(
    head: Seq<u8>,
    end: int,
    total: int,
    p: int,
    name: Seq<u8>,
) -> Result<Info, Fault<Seq<u8>, Seq<usize>>> {
    match string_after(head, dtype_key(), p) {
        None => Err(Fault::MissingDtype),
        Some(dtype) => match found(head, shape_key(), p) {
            None => Err(Fault::MissingShape),
            Some(q) => match shape_after(head, q) {
                None => Err(Fault::BadShape),
                Some(shape) => match found(head, offsets_key(), q) {
                    None => Err(Fault::MissingOffsets),
                    Some(o) => match pair_after(head, offsets_key(), o) {
                        None => Err(Fault::BadOffsets),
                        Some((a, b)) => if b < a || end + b > total {
                            Err(Fault::OutOfBounds { name })
                        } else {
                            sized(end, name, dtype, shape, a as int, b as int)
                        },
                    },
                },
            },
        },
    }
}

/// Where a tensor of this dtype and shape is stored, given the bounds of its data.
pub open spec fn sized(
    end: int,
    name: Seq<u8>,
    dtype: Seq<u8>,
    shape: Seq<usize>,
    a: int,
    b: int,
) -> Result<Info, Fault<Seq<u8>, Seq<usize>>> {
    match dtype_of(dtype) {
        None => Err(Fault::UnsupportedDtype { dtype, name }),
        Some((esize, kind)) => if product(shape) * esize != b - a {
            Err(
                Fault::WrongSize {
                    name,
                    nbytes: (b - a) as usize,
                    shape,
                    count: if product(shape) > usize::MAX {
                        None
                    } else {
                        Some(product(shape) as usize)
                    },
                    dtype,
                },
            )
        } else {
            Ok(Info { shape, offset: end + a, nbytes: b - a, esize, dtype: kind })
        },
    }
}

fn read_sized(
    end: usize,
    name: &[u8],
    dtype: Vec<u8>,
    shape: Vec<usize>,
    a: usize,
    b: usize,
) -> (r: Result<TensorInfo, HeaderError>)
    requires
        a <= b,
        end + b <= usize::MAX,
    ensures
        match r {
            Ok(t) => sized(end as int, name@, dtype@, shape@, a as int, b as int) == Ok::<
                Info,
                Fault<Seq<u8>, Seq<usize>>,
            >(t@),
            Err(e) => sized(end as int, name@, dtype@, shape@, a as int, b as int) == Err::<
                Info,
                Fault<Seq<u8>, Seq<usize>>,
            >(e@),
        },
{
    let nbytes = b - a;
    match find_dtype(&dtype) {
        None => Err(Fault::UnsupportedDtype { dtype, name: bytes_of(name) }),
        Some((esize, kind)) => {
            let count = count_elements(&shape);
            let fits = match count {
                None => false,
                Some(n) => nbytes % esize == 0 && nbytes / esize == n,
            };
            if !fits {
                Err(Fault::WrongSize { name: bytes_of(name), nbytes, shape, count, dtype })
            } else {
                Ok(TensorInfo { shape, offset: end + a, nbytes, esize, dtype: kind })
            }
        },
    }
}

fn read_info(head: &[u8], end: usize, total: usize, p: usize, name: &[u8]) -> (r: Result<
    TensorInfo,
    HeaderError,
>)
    requires
        end <= total,
    ensures
        match r {
            Ok(t) => info_at(head@, end as int, total as int, p as int, name@) == Ok::<
                Info,
                Fault<Seq<u8>, Seq<usize>>,
            >(t@),
            Err(e) => info_at(head@, end as int, total as int, p as int, name@) == Err::<
                Info,
                Fault<Seq<u8>, Seq<usize>>,
            >(e@),
        },
{
    let dtype_word: Vec<u8> = vec![34, 100, 116, 121, 112, 101, 34];
    let shape_word: Vec<u8> = vec![34, 115, 104, 97, 112, 101, 34];
    let offsets_word: Vec<u8> = vec![
        34,
        100,
        97,
        116,
        97,
        95,
        111,
        102,
        102,
        115,
        101,
        116,
        115,
        34,
    ];
    assert(dtype_word@ =~= dtype_key());
    assert(shape_word@ =~= shape_key());
    assert(offsets_word@ =~= offsets_key());
    let dtype = match parse_string_after(head, &dtype_word, p) {
        None => {
            return Err(Fault::MissingDtype);
        },
        Some(s) => s,
    };
    let q = match find_from(head, &shape_word, p) {
        None => {
            return Err(Fault::MissingShape);
        },
        Some(q) => q,
    };
    let shape = match parse_shape_after(head, q) {
        None => {
            return Err(Fault::BadShape);
        },
        Some(s) => s,
    };
    let o = match find_from(head, &offsets_word, q) {
        None => {
            return Err(Fault::MissingOffsets);
        },
        Some(o) => o,
    };
    let (a, b) = match parse_usize_pair_after(head, &offsets_word, o) {
        None => {
            return Err(Fault::BadOffsets);
        },
        Some(ab) => ab,
    };
    if b < a || b > total - end {
        return Err(Fault::OutOfBounds { name: bytes_of(name) });
    }
    read_sized(end, name, dtype, shape, a, b)
}

fn read_entry(head: &[u8], end: usize, total: usize, p: usize) -> (r: Result<
    Option<(Vec<u8>, TensorInfo)>,
    HeaderError,
>)
    requires
        end <= total,
        p <= head@.len(),
    ensures
        match r {
            Ok(Some((n, t))) => entry_at(head@, end as int, total as int, p as int) == Ok::<
                Option<(Seq<u8>, Info)>,
                Fault<Seq<u8>, Seq<usize>>,
            >(Some((n@, t@))),
            Ok(None) => entry_at(head@, end as int, total as int, p as int) == Ok::<
                Option<(Seq<u8>, Info)>,
                Fault<Seq<u8>, Seq<usize>>,
            >(None),
            Err(e) => entry_at(head@, end as int, total as int, p as int) == Err::<
                Option<(Seq<u8>, Info)>,
                Fault<Seq<u8>, Seq<usize>>,
            >(e@),
        },
{
    let brace = match rfind_byte(head, 123, p) {
        None => {
            return Err(Fault::NoObject);
        },
        Some(b) => b,
    };
    if brace < 3 {
        return Err(Fault::OutsideObject);
    }
    let key_end = brace - 2;
    if head[key_end] != 34 {
        return Err(Fault::MalformedKey);
    }
    let quote = match rfind_byte(head, 34, key_end) {
        None => {
            return Err(Fault::NoNameKey);
        },
        Some(q) => q,
    };
    let name = bytes_of(vstd::slice::slice_subrange(head, quote + 1, key_end));
    let metadata: Vec<u8> = vec![95, 95, 109, 101, 116, 97, 100, 97, 116, 97, 95, 95];
    assert(metadata@ =~= metadata_name());
    if same(&name, &metadata) {
        return Ok(None);
    }
    match read_info(head, end, total, p, &name) {
        Ok(t) => Ok(Some((name, t))),
        Err(e) => Err(e),
    }
}

/// The tensors whose `"dtype"` stands at or after `from`, on top of those in `known`. Of
/// two entries of one name the later counts.
pub open spec fn entries_from(
    head: Seq<u8>,
    end: int,
    total: int,
    from: int,
    known: Map<Seq<u8>, Info>,
) -> Result<Map<Seq<u8>, Info>, Fault<Seq<u8>, Seq<usize>>>
    decreases head.len() + 8 - from,
{
    match found(head, dtype_key(), from) {
        None => Ok(known),
        Some(p) => if p < from || p >= head.len() {
            Ok(known)
        } else {
            match entry_at(head, end, total, p) {
                Err(f) => Err(f),
                Ok(None) => entries_from(head, end, total, p + 8, known),
                Ok(Some((name, info))) => entries_from(
                    head,
                    end,
                    total,
                    p + 8,
                    known.insert(name, info),
                ),
            }
        },
    }
}

fn read_entries(head: &[u8], end: usize, total: usize) -> (r: Result<TensorIndex, HeaderError>)
    requires
        end <= total,
        head@.len() < usize::MAX,
    ensures
        match r {
            Ok(t) => t.wf() && entries_from(
                head@,
                end as int,
                total as int,
                0,
                Map::empty(),
            ) == Ok::<Map<Seq<u8>, Info>, Fault<Seq<u8>, Seq<usize>>>(t.contents()),
            Err(e) => entries_from(head@, end as int, total as int, 0, Map::empty()) == Err::<
                Map<Seq<u8>, Info>,
                Fault<Seq<u8>, Seq<usize>>,
            >(e@),
        },
{
    let word: Vec<u8> = vec![34, 100, 116, 121, 112, 101, 34];
    assert(word@ =~= dtype_key());
    let mut tensors = TensorIndex::new();
    let mut search: usize = 0;
    let ghost want = entries_from(head@, end as int, total as int, 0, Map::empty());
    let mut more = true;
    while more
        invariant
            end <= total,
            head@.len() < usize::MAX,
            word@ == dtype_key(),
            word.len() == 7,
            tensors.wf(),
            want == entries_from(head@, end as int, total as int, 0, Map::empty()),
            want == (if more {
                entries_from(head@, end as int, total as int, search as int, tensors.contents())
            } else {
                Ok(tensors.contents())
            }),
            search <= head@.len() + 1,
        decreases head@.len() + 1 - search, if more { 1int } else { 0int },
    {
        match find_from(head, &word, search) {
            None => {
                more = false;
            },
            Some(p) => {
                match read_entry(head, end, total, p) {
                    Err(e) => {
                        return Err(e);
                    },
                    Ok(None) => {},
                    Ok(Some((name, info))) => {
                        tensors.insert(name, info);
                    },
                }
                search = p + 8;
            },
        }
    }
    Ok(tensors)
}

/// The largest end that a `"data_offsets"` at or after `from` gives, at least `least`.
pub open spec fn data_end_from(head: Seq<u8>, from: int, least: usize) -> usize
    decreases head.len() + 14 - from,
{
    match found(head, offsets_key(), from) {
        None => least,
        Some(p) => if p < from || p >= head.len() {
            least
        } else {
            data_end_from(
                head,
                p + 14,
                match pair_after(head, offsets_key(), p) {
                    Some((_, b)) => if b > least {
                        b
                    } else {
                        least
                    },
                    None => least,
                },
            )
        },
    }
}

fn read_data_end(head: &[u8]) -> (r: usize)
    ensures
        r == data_end_from(head@, 0, 0),
{
    let word: Vec<u8> = vec![34, 100, 97, 116, 97, 95, 111, 102, 102, 115, 101, 116, 115, 34];
    assert(word@ =~= offsets_key());
    let mut tail: usize = 0;
    let mut s: usize = 0;
    let mut more = true;
    while more
        invariant
            word@ == offsets_key(),
            word.len() == 14,
            data_end_from(head@, 0, 0) == (if more {
                data_end_from(head@, s as int, tail)
            } else {
                tail
            }),
            s <= head@.len(),
        decreases head@.len() - s, if more { 1int } else { 0int },
    {
        match find_from(head, &word, s) {
            None => {
                more = false;
            },
            Some(p) => {
                if let Some((_, b)) = parse_usize_pair_after(head, &word, p) {
                    if b > tail {
                        tail = b;
                    }
                }
                s = p + 14;
            },
        }
    }
    tail
}

/// The longest header that is plausible.
pub const MAX_HEADER: u64 = 0x4_0000_0000;

/// The tensors of a file and the number of bytes behind its header.
pub open spec fn index_of(file: Seq<u8>) -> Result<
    (Map<Seq<u8>, Info>, int),
    Fault<Seq<u8>, Seq<usize>>,
> {
    let len = le64(file.take(8));
    let end = 8 + len;
    let head = file.subrange(8, end);
    if file.len() < 8 {
        Err(Fault::TooSmall)
    } else if len == 0 || len > MAX_HEADER {
        Err(Fault::ImplausibleLength { len: len as u64 })
    } else if end > file.len() {
        Err(Fault::Truncated)
    } else if !valid_utf8(head) {
        Err(Fault::NotUtf8)
    } else if head[0] != 123 {
        Err(Fault::NoOpeningBrace)
    } else {
        match entries_from(head, end, file.len() as int, 0, Map::empty()) {
            Err(f) => Err(f),
            Ok(tensors) => if tensors == Map::<Seq<u8>, Info>::empty() {
                Err(Fault::NoTensors)
            } else if end + data_end_from(head, 0, 0) > file.len() {
                Err(Fault::PayloadPastEnd)
            } else {
                Ok((tensors, file.len() - end))
            },
        }
    }
}

/// Reads the header of a file: the tensors by name, with their positions in the file,
/// and the number of bytes behind the header.
pub fn parse_safetensors_index(blob: &[u8]) -> (r: Result<(TensorIndex, usize), HeaderError>)
    ensures
        match r {
            Ok((t, n)) => t.wf() && index_of(blob@) == Ok::<
                (Map<Seq<u8>, Info>, int),
                Fault<Seq<u8>, Seq<usize>>,
            >((t.contents(), n as int)),
            Err(e) => index_of(blob@) == Err::<
                (Map<Seq<u8>, Info>, int),
                Fault<Seq<u8>, Seq<usize>>,
            >(e@),
        },
{
    if blob.len() < 8 {
        return Err(Fault::TooSmall);
    }
    let len = read_le64(blob, 0);
    assert(blob@.subrange(0, 8) =~= blob@.take(8));
    if len == 0 || len > MAX_HEADER {
        return Err(Fault::ImplausibleLength { len });
    }
    if len > (blob.len() - 8) as u64 {
        return Err(Fault::Truncated);
    }
    let end = 8 + len as usize;
    let head = vstd::slice::slice_subrange(blob, 8, end);
    if !is_utf8(head) {
        return Err(Fault::NotUtf8);
    }
    if head[0] != 123 {
        return Err(Fault::NoOpeningBrace);
    }
    let tensors = match read_entries(head, end, blob.len()) {
        Err(e) => {
            return Err(e);
        },
        Ok(t) => t,
    };
    if tensors.len() == 0 {
        return Err(Fault::NoTensors);
    }
    if read_data_end(head) > blob.len() - end {
        return Err(Fault::PayloadPastEnd);
    }
    Ok((tensors, blob.len() - end))
}

// ---- laws -----------------------------------------------------------------------------

/// The data of a tensor lie within a file of `total` bytes and behind its header, which
/// ends at `end`, and are as long as its shape asks for.
pub open spec fn stored_well(info: Info, end: int, total: int) -> bool {
    &&& end <= info.offset
    &&& info.offset + info.nbytes <= total
    &&& info.nbytes == product(info.shape) * info.esize
    &&& info.esize == 8 ==> info.dtype == Dtype::Int
    &&& info.esize == 4 || info.esize == 8
}

proof fn lemma_entries_stored_well(
    head: Seq<u8>,
    end: int,
    total: int,
    from: int,
    known: Map<Seq<u8>, Info>,
    name: Seq<u8>,
)
    requires
        forall|n: Seq<u8>| #[trigger]
            known.dom().contains(n) ==> stored_well(known[n], end, total),
        entries_from(head, end, total, from, known) matches Ok(all) && all.dom().contains(name),
    ensures
        stored_well(entries_from(head, end, total, from, known)->Ok_0[name], end, total),
    decreases head.len() + 8 - from,
{
    match found(head, dtype_key(), from) {
        None => {},
        Some(p) => if p < from || p >= head.len() {
        } else {
            match entry_at(head, end, total, p) {
                Err(f) => {},
                Ok(None) => {
                    lemma_entries_stored_well(head, end, total, p + 8, known, name);
                },
                Ok(Some((n, info))) => {
                    assert(stored_well(info, end, total));
                    lemma_entries_stored_well(
                        head,
                        end,
                        total,
                        p + 8,
                        known.insert(n, info),
                        name,
                    );
                },
            }
        },
    }
}

/// Every tensor that is read from a file lies within the file, behind the header, with
/// exactly the bytes that its shape and element size ask for.
pub proof fn lemma_tensors_within_file(file: Seq<u8>, name: Seq<u8>)
    requires
        index_of(file) matches Ok((tensors, n)) && tensors.dom().contains(name),
    ensures
        stored_well(
            index_of(file)->Ok_0.0[name],
            8 + le64(file.take(8)),
            file.len() as int,
        ),
{
    let end = 8 + le64(file.take(8));
    let head = file.subrange(8, end);
    lemma_entries_stored_well(head, end, file.len() as int, 0, Map::empty(), name);
}

/// The header and what is counted behind it make up the whole file.
pub proof fn lemma_payload_size(file: Seq<u8>)
    requires
        index_of(file) is Ok,
    ensures
        8 + le64(file.take(8)) + index_of(file)->Ok_0.1 == file.len(),
{
}

proof fn lemma_entries_in_larger(
    head: Seq<u8>,
    end: int,
    total: int,
    larger: int,
    from: int,
    known: Map<Seq<u8>, Info>,
)
    requires
        total <= larger,
        entries_from(head, end, total, from, known) is Ok,
    ensures
        entries_from(head, end, larger, from, known) == entries_from(
            head,
            end,
            total,
            from,
            known,
        ),
    decreases head.len() + 8 - from,
{
    match found(head, dtype_key(), from) {
        None => {},
        Some(p) => if p < from || p >= head.len() {
        } else {
            assert(entry_at(head, end, larger, p) == entry_at(head, end, total, p));
            match entry_at(head, end, total, p) {
                Err(f) => {},
                Ok(None) => {
                    lemma_entries_in_larger(head, end, total, larger, p + 8, known);
                },
                Ok(Some((n, info))) => {
                    lemma_entries_in_larger(
                        head,
                        end,
                        total,
                        larger,
                        p + 8,
                        known.insert(n, info),
                    );
                },
            }
        },
    }
}

/// What is read of a file, tensors or fault, depends on its header and its length alone: not on
/// the data behind the header.
pub proof fn lemma_header_alone(file: Seq<u8>, other: Seq<u8>)
    requires
        file.len() == other.len(),
        8 <= file.len() ==> file.take(8) == other.take(8),
        8 + le64(file.take(8)) <= file.len() ==> file.take(8 + le64(file.take(8))) == other.take(
            8 + le64(file.take(8)),
        ),
    ensures
        index_of(other) == index_of(file),
{
    let end = 8 + le64(file.take(8));
    if 8 <= file.len() && end <= file.len() {
        assert(file.subrange(8, end) =~= file.take(end).subrange(8, end));
        assert(other.subrange(8, end) =~= other.take(end).subrange(8, end));
    }
}

/// More data behind the header change nothing but the number of bytes: a longer file with the
/// header of one that can be read has the same tensors.
pub proof fn lemma_more_payload(file: Seq<u8>, other: Seq<u8>)
    requires
        index_of(file) is Ok,
        file.len() <= other.len(),
        file.take(8 + le64(file.take(8))) == other.take(8 + le64(file.take(8))),
    ensures
        index_of(other) == Ok::<(Map<Seq<u8>, Info>, int), Fault<Seq<u8>, Seq<usize>>>(
            (
                index_of(file)->Ok_0.0,
                index_of(file)->Ok_0.1 + (other.len() - file.len()),
            ),
        ),
{
    let end = 8 + le64(file.take(8));
    assert(file.take(8) =~= file.take(end).take(8));
    assert(other.take(8) =~= other.take(end).take(8));
    let head = file.subrange(8, end);
    assert(head =~= file.take(end).subrange(8, end));
    assert(other.subrange(8, end) =~= other.take(end).subrange(8, end));
    lemma_entries_in_larger(
        head,
        end,
        file.len() as int,
        other.len() as int,
        0,
        Map::empty(),
    );
}

} // verus!
