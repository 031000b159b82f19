//! What is written in the header of a checkpoint is read from it.

use crate::names::Info;
use crate::safetensors::{
    dtype_key, dtype_of, entries_from, entry_at, metadata_name, offsets_key, product, shape_key,
};
use crate::scan::{
    digits_end, found, is_digit, last_byte, lemma_found, next_byte, number, numbers_between,
    pair_after, separators_end, shape_after, space_at, space_before, stands_at, string_after,
    trimmed,
};
use crate::text::{digits, lemma_digits};
use vstd::prelude::*;

verus! {

// ---- how an entry is written ----------------------------------------------------------

/// Numbers in decimal, separated by commas.
pub open spec fn numbers_text(s: Seq<usize>) -> Seq<u8>
    decreases s.len(),
{
    if s.len() == 0 {
        Seq::empty()
    } else if s.len() == 1 {
        digits(s[0] as int)
    } else {
        digits(s[0] as int) + seq![44u8] + numbers_text(s.skip(1))
    }
}

/// `"name":{`.
pub open spec fn name_text(name: Seq<u8>) -> Seq<u8> {
    seq![34u8] + name + seq![34u8, 58, 123]
}

/// `"dtype":"F32",`.
pub open spec fn dtype_text(dtype: Seq<u8>) -> Seq<u8> {
    dtype_key() + seq![58u8, 34] + dtype + seq![34u8, 44]
}

/// `"shape":[2,3],`.
pub open spec fn shape_text(shape: Seq<usize>) -> Seq<u8> {
    shape_key() + seq![58u8, 91] + numbers_text(shape) + seq![93u8, 44]
}

/// `"data_offsets":[0,24]`.
pub open spec fn offsets_text(a: usize, b: usize) -> Seq<u8> {
    offsets_key() + seq![58u8, 91] + digits(a as int) + seq![44u8] + digits(b as int) + seq![93u8]
}

// ---- finding --------------------------------------------------------------------------

proof fn lemma_next(hay: Seq<u8>, b: u8, from: int, at: int)
    requires
        0 <= from <= at < hay.len(),
        hay[at] == b,
        forall|i: int| from <= i < at ==> hay[i] != b,
    ensures
        next_byte(hay, b, from) == Some(at),
    decreases at - from,
{
    if from < at {
        lemma_next(hay, b, from + 1, at);
    }
}

proof fn lemma_no_next(hay: Seq<u8>, b: u8, from: int)
    requires
        0 <= from,
        forall|i: int| from <= i < hay.len() ==> hay[i] != b,
    ensures
        next_byte(hay, b, from) is None,
    decreases hay.len() - from,
{
    if from < hay.len() {
        lemma_no_next(hay, b, from + 1);
    }
}

proof fn lemma_last(hay: Seq<u8>, b: u8, end: int, at: int)
    requires
        0 <= at < end <= hay.len(),
        hay[at] == b,
        forall|i: int| at < i < end ==> hay[i] != b,
    ensures
        last_byte(hay, b, end) == Some(at),
    decreases end - at,
{
    if at < end - 1 {
        lemma_last(hay, b, end - 1, at);
    }
}

/// The first place of a word, told by its first two bytes.
proof fn lemma_first_place(hay: Seq<u8>, word: Seq<u8>, from: int, at: int)
    requires
        0 <= from <= at,
        2 <= word.len(),
        stands_at(hay, word, at),
        forall|i: int| from <= i < at ==> !(hay[i] == word[0] && #[trigger] hay[i + 1] == word[1]),
    ensures
        found(hay, word, from) == Some(at),
    decreases at - from,
{
    if from < at {
        if stands_at(hay, word, from) {
            let s = hay.subrange(from, from + word.len());
            assert(s[0] == hay[from] && s[1] == hay[from + 1]);
        }
        lemma_first_place(hay, word, from + 1, at);
    }
}

/// Of two texts one behind the other, each stands where it should.
proof fn lemma_stand_both(hay: Seq<u8>, a: Seq<u8>, b: Seq<u8>, k: int)
    requires
        stands_at(hay, a + b, k),
    ensures
        stands_at(hay, a, k),
        stands_at(hay, b, k + a.len()),
{
    let ab = hay.subrange(k, k + (a + b).len());
    assert(hay.subrange(k, k + a.len()) =~= a) by {
        assert forall|i: int| 0 <= i < a.len() implies hay[k + i] == a[i] by {
            assert(ab[i] == (a + b)[i]);
        }
    }
    assert(hay.subrange(k + a.len(), k + a.len() + b.len()) =~= b) by {
        assert forall|i: int| 0 <= i < b.len() implies hay[k + a.len() + i] == b[i] by {
            assert(ab[a.len() + i] == (a + b)[a.len() + i]);
        }
    }
}

/// A text that stands somewhere, byte by byte.
proof fn lemma_bytes(hay: Seq<u8>, a: Seq<u8>, k: int)
    requires
        stands_at(hay, a, k),
    ensures
        forall|i: int| 0 <= i < a.len() ==> #[trigger] a[i] == hay[k + i],
{
    let s = hay.subrange(k, k + a.len());
    assert forall|i: int| 0 <= i < a.len() implies #[trigger] a[i] == hay[k + i] by {
        assert(s[i] == a[i]);
    }
}

// ---- numbers --------------------------------------------------------------------------

proof fn lemma_digits_end(hay: Seq<u8>, i: int, e: int)
    requires
        0 <= i <= e < hay.len(),
        forall|j: int| i <= j < e ==> is_digit(#[trigger] hay[j]),
        !is_digit(hay[e]),
    ensures
        digits_end(hay, i) == e,
    decreases e - i,
{
    if i < e {
        assert(is_digit(hay[i]));
        lemma_digits_end(hay, i + 1, e);
    }
}

/// A digit is no white space, nor the end of any.
proof fn lemma_digit_no_space(hay: Seq<u8>, from: int, i: int, to: int)
    requires
        0 <= from <= i < to <= hay.len(),
        is_digit(hay[i]),
    ensures
        space_at(hay, i, to) == 0,
        space_before(hay, from, i + 1) == 0,
{
}

/// A number in decimal that stands somewhere, and the byte behind it.
proof fn lemma_number_stands(hay: Seq<u8>, n: usize, k: int)
    requires
        stands_at(hay, digits(n as int), k),
    ensures
        0 < digits(n as int).len(),
        forall|j: int| k <= j < k + digits(n as int).len() ==> is_digit(#[trigger] hay[j]),
        number(hay.subrange(k, k + digits(n as int).len())) == Some(n),
{
    lemma_digits(n as int);
    let d = digits(n as int);
    lemma_bytes(hay, d, k);
    assert forall|j: int| k <= j < k + d.len() implies is_digit(#[trigger] hay[j]) by {
        assert(is_digit(d[j - k]));
        assert(d[j - k] == hay[k + (j - k)]);
    }
}

/// The two offsets that were written are read.
proof fn lemma_offsets_read(hay: Seq<u8>, a: usize, b: usize, o: int)
    requires
        stands_at(hay, offsets_text(a, b), o),
    ensures
        pair_after(hay, offsets_key(), o) == Some((a, b)),
{
    let key = offsets_key();
    let (da, db) = (digits(a as int), digits(b as int));
    let t5 = key + seq![58u8, 91] + da + seq![44u8] + db;
    lemma_stand_both(hay, t5, seq![93u8], o);
    let t4 = key + seq![58u8, 91] + da + seq![44u8];
    lemma_stand_both(hay, t4, db, o);
    let t3 = key + seq![58u8, 91] + da;
    lemma_stand_both(hay, t3, seq![44u8], o);
    let t2 = key + seq![58u8, 91];
    lemma_stand_both(hay, t2, da, o);
    lemma_stand_both(hay, key, seq![58u8, 91], o);
    lemma_bytes(hay, seq![58u8, 91], o + 14);
    assert(seq![58u8, 91][0] == 58 && seq![58u8, 91][1] == 91);
    let i = o + 16;
    lemma_number_stands(hay, a, i);
    let e = i + da.len();
    lemma_bytes(hay, seq![44u8], e);
    assert(seq![44u8][0] == 44);
    lemma_number_stands(hay, b, e + 1);
    let f = e + 1 + db.len();
    lemma_bytes(hay, seq![93u8], f);
    assert(seq![93u8][0] == 93);
    assert(found(hay, key, o) == Some(o));
    assert(hay[o + 14] == 58 && hay[o + 15] == 91 && is_digit(hay[i]));
    lemma_digit_no_space(hay, i, i, hay.len() as int);
    assert(separators_end(hay, i) == i);
    assert(separators_end(hay, o + 15) == i);
    assert(separators_end(hay, o + 14) == i);
    lemma_digits_end(hay, i, e);
    assert(is_digit(hay[e + 1]));
    lemma_digit_no_space(hay, e + 1, e + 1, hay.len() as int);
    assert(separators_end(hay, e + 1) == e + 1);
    assert(separators_end(hay, e) == e + 1);
    lemma_digits_end(hay, e + 1, f);
}

/// Digits need no trimming.
proof fn lemma_digits_trimmed(hay: Seq<u8>, from: int, to: int)
    requires
        0 <= from < to <= hay.len(),
        is_digit(hay[from]),
        is_digit(hay[to - 1]),
    ensures
        trimmed(hay, from, to) == hay.subrange(from, to),
{
    lemma_digit_no_space(hay, from, from, to);
    lemma_digit_no_space(hay, from, to - 1, to);
}

/// The numbers between commas that were written are read, and hold nothing but digits and
/// commas.
proof fn lemma_numbers_read(hay: Seq<u8>, s: Seq<usize>, k: int, to: int)
    requires
        0 < s.len(),
        stands_at(hay, numbers_text(s), k),
        to == k + numbers_text(s).len(),
    ensures
        k < to,
        numbers_between(hay, k, to) == Some(s),
        is_digit(hay[k]),
        is_digit(hay[to - 1]),
        forall|j: int| k <= j < to ==> is_digit(#[trigger] hay[j]) || hay[j] == 44,
    decreases s.len(),
{
    let d = digits(s[0] as int);
    if s.len() == 1 {
        lemma_number_stands(hay, s[0], k);
        lemma_no_next(hay.take(to), 44, k);
        lemma_digits_trimmed(hay, k, to);
        assert(seq![s[0]] =~= s);
    } else {
        let rest = s.skip(1);
        lemma_stand_both(hay, d + seq![44u8], numbers_text(rest), k);
        lemma_stand_both(hay, d, seq![44u8], k);
        lemma_number_stands(hay, s[0], k);
        let e = k + d.len();
        lemma_bytes(hay, seq![44u8], e);
        assert(seq![44u8][0] == 44);
        lemma_numbers_read(hay, rest, e + 1, to);
        lemma_next(hay.take(to), 44, k, e);
        lemma_digits_trimmed(hay, k, e);
        assert(seq![s[0]] + rest =~= s);
    }
}

/// The shape that was written is read, and no quote stands in it.
proof fn lemma_shape_read(hay: Seq<u8>, shape: Seq<usize>, q: int)
    requires
        stands_at(hay, shape_text(shape), q),
    ensures
        shape_after(hay, q) == Some(shape),
        stands_at(hay, shape_key(), q),
        forall|j: int|
            q + 7 <= j < q + shape_text(shape).len() ==> #[trigger] hay[j] != 34,
{
    let key = shape_key();
    let nums = numbers_text(shape);
    let t3 = key + seq![58u8, 91] + nums;
    lemma_stand_both(hay, t3, seq![93u8, 44], q);
    let t2 = key + seq![58u8, 91];
    lemma_stand_both(hay, t2, nums, q);
    lemma_stand_both(hay, key, seq![58u8, 91], q);
    lemma_bytes(hay, key, q);
    assert(key[0] == 34 && key[1] == 115 && key[2] == 104 && key[3] == 97 && key[4] == 112
        && key[5] == 101 && key[6] == 34);
    lemma_bytes(hay, seq![58u8, 91], q + 7);
    assert(seq![58u8, 91][0] == 58 && seq![58u8, 91][1] == 91);
    let open = q + 8;
    let close = q + 9 + nums.len();
    lemma_bytes(hay, seq![93u8, 44], close);
    assert(seq![93u8, 44][0] == 93 && seq![93u8, 44][1] == 44);
    lemma_next(hay, 91, q, open);
    if shape.len() == 0 {
        lemma_next(hay, 93, open, close);
        assert(trimmed(hay, open + 1, close).len() == 0);
        assert(shape =~= Seq::<usize>::empty());
    } else {
        lemma_numbers_read(hay, shape, open + 1, close);
        lemma_next(hay, 93, open, close);
        lemma_digits_trimmed(hay, open + 1, close);
    }
}

// ---- the entry ------------------------------------------------------------------------

/// An entry of a header is read as it was written: of `"name":{"dtype":"..","shape":[..],
/// "data_offsets":[a,b]}`, wherever it stands in a header that ends at `end`, the tensor has that
/// name and that shape, its data begin `a` bytes behind the header and are `b - a` bytes long,
/// and its numbers are those of the dtype.
pub proof fn lemma_entry_reads_back(
    head: Seq<u8>,
    end: int,
    total: int,
    k: int,
    name: Seq<u8>,
    dtype: Seq<u8>,
    shape: Seq<usize>,
    a: usize,
    b: usize,
)
    requires
        stands_at(
            head,
            name_text(name) + (dtype_text(dtype) + (shape_text(shape) + offsets_text(a, b))),
            k,
        ),
        forall|i: int| 0 <= i < name.len() ==> name[i] != 34,
        name != metadata_name(),
        dtype_of(dtype) is Some,
        a <= b,
        end + b <= total,
        product(shape) * (dtype_of(dtype)->Some_0).0 == b - a,
    ensures
        entry_at(head, end, total, k + name.len() + 4) == Ok::<
            Option<(Seq<u8>, Info)>,
            crate::safetensors::Fault<Seq<u8>, Seq<usize>>,
        >(
            Some(
                (
                    name,
                    Info {
                        shape,
                        offset: end + a,
                        nbytes: b - a,
                        esize: (dtype_of(dtype)->Some_0).0,
                        dtype: (dtype_of(dtype)->Some_0).1,
                    },
                ),
            ),
        ),
{
    let n = name.len() as int;
    let p = k + n + 4;
    let t3 = shape_text(shape) + offsets_text(a, b);
    let t2 = dtype_text(dtype) + t3;
    lemma_stand_both(head, name_text(name), t2, k);
    lemma_stand_both(head, dtype_text(dtype), t3, p);
    let q = p + 14;
    assert(dtype.len() == 3);
    lemma_stand_both(head, shape_text(shape), offsets_text(a, b), q);
    let o = q + shape_text(shape).len();
    // the name
    lemma_stand_both(head, seq![34u8] + name, seq![34u8, 58, 123], k);
    lemma_stand_both(head, seq![34u8], name, k);
    lemma_bytes(head, seq![34u8], k);
    lemma_bytes(head, name, k + 1);
    lemma_bytes(head, seq![34u8, 58, 123], k + 1 + n);
    let tail = seq![34u8, 58, 123];
    assert(seq![34u8][0] == 34 && tail[0] == 34 && tail[1] == 58 && tail[2] == 123);
    assert(head[k] == 34 && head[k + 1 + n] == 34 && head[p - 1] == 123);
    lemma_last(head, 123, p, p - 1);
    assert forall|i: int| k < i < k + 1 + n implies head[i] != 34 by {
        assert(name[i - k - 1] == head[k + 1 + (i - k - 1)]);
    }
    lemma_last(head, 34, k + 1 + n, k);
    assert(head.subrange(k + 1, k + 1 + n) =~= name);
    // the dtype
    lemma_dtype_read(head, dtype, p);
    // the shape
    lemma_shape_read(head, shape, q);
    lemma_first_place(head, shape_key(), p, q);
    // the offsets
    lemma_offsets_read(head, a, b, o);
    lemma_key_first(head, a, b, o);
    lemma_bytes(head, shape_key(), q);
    let key = shape_key();
    assert(key[0] == 34 && key[1] == 115 && key[2] == 104 && key[3] == 97 && key[4] == 112
        && key[5] == 101 && key[6] == 34);
    lemma_shape_ends(head, shape, q);
    lemma_first_place(head, offsets_key(), q, o);
}

/// Reading the entries of a header from where it last stopped, with the tensors `known` so far,
/// takes the next entry that was written and goes on behind its `"dtype"`, with the tensor as it
/// was written among those that are known.
pub proof fn lemma_entry_is_taken(
    head: Seq<u8>,
    end: int,
    total: int,
    from: int,
    known: Map<Seq<u8>, Info>,
    k: int,
    name: Seq<u8>,
    dtype: Seq<u8>,
    shape: Seq<usize>,
    a: usize,
    b: usize,
)
    requires
        stands_at(
            head,
            name_text(name) + (dtype_text(dtype) + (shape_text(shape) + offsets_text(a, b))),
            k,
        ),
        forall|i: int| 0 <= i < name.len() ==> name[i] != 34,
        name != metadata_name(),
        dtype_of(dtype) is Some,
        a <= b,
        end + b <= total,
        product(shape) * (dtype_of(dtype)->Some_0).0 == b - a,
        0 <= from,
        found(head, dtype_key(), from) == Some(k + name.len() + 4),
    ensures
        entries_from(head, end, total, from, known) == entries_from(
            head,
            end,
            total,
            k + name.len() + 12,
            known.insert(
                name,
                Info {
                    shape,
                    offset: end + a,
                    nbytes: b - a,
                    esize: (dtype_of(dtype)->Some_0).0,
                    dtype: (dtype_of(dtype)->Some_0).1,
                },
            ),
        ),
{
    lemma_entry_reads_back(head, end, total, k, name, dtype, shape, a, b);
    lemma_found(head, dtype_key(), from);
}

proof fn lemma_key_first(head: Seq<u8>, a: usize, b: usize, o: int)
    requires
        stands_at(head, offsets_text(a, b), o),
    ensures
        stands_at(head, offsets_key(), o),
{
    let t2 = offsets_key() + seq![58u8, 91];
    let t3 = t2 + digits(a as int);
    let t4 = t3 + seq![44u8];
    let t5 = t4 + digits(b as int);
    lemma_stand_both(head, t5, seq![93u8], o);
    lemma_stand_both(head, t4, digits(b as int), o);
    lemma_stand_both(head, t3, seq![44u8], o);
    lemma_stand_both(head, t2, digits(a as int), o);
    lemma_stand_both(head, offsets_key(), seq![58u8, 91], o);
}

/// The byte behind the key of a shape is a colon.
proof fn lemma_shape_ends(head: Seq<u8>, shape: Seq<usize>, q: int)
    requires
        stands_at(head, shape_text(shape), q),
    ensures
        head[q + 7] == 58,
{
    let t2 = shape_key() + seq![58u8, 91];
    let t3 = t2 + numbers_text(shape);
    lemma_stand_both(head, t3, seq![93u8, 44], q);
    lemma_stand_both(head, t2, numbers_text(shape), q);
    lemma_stand_both(head, shape_key(), seq![58u8, 91], q);
    lemma_bytes(head, seq![58u8, 91], q + 7);
    assert(seq![58u8, 91][0] == 58);
}

/// The dtype that was written is read, and no other key begins in it.
proof fn lemma_dtype_read(hay: Seq<u8>, dtype: Seq<u8>, p: int)
    requires
        stands_at(hay, dtype_text(dtype), p),
        dtype_of(dtype) is Some,
    ensures
        string_after(hay, dtype_key(), p) == Some(dtype),
        forall|i: int|
            p <= i < p + 14 ==> !(hay[i] == shape_key()[0] && #[trigger] hay[i + 1]
                == shape_key()[1]),
{
    let key = dtype_key();
    let t3 = key + seq![58u8, 34] + dtype;
    lemma_stand_both(hay, t3, seq![34u8, 44], p);
    let t2 = key + seq![58u8, 34];
    lemma_stand_both(hay, t2, dtype, p);
    lemma_stand_both(hay, key, seq![58u8, 34], p);
    lemma_bytes(hay, key, p);
    assert(key[0] == 34 && key[1] == 100 && key[2] == 116 && key[3] == 121 && key[4] == 112
        && key[5] == 101 && key[6] == 34);
    lemma_bytes(hay, seq![58u8, 34], p + 7);
    assert(seq![58u8, 34][0] == 58 && seq![58u8, 34][1] == 34);
    assert(dtype.len() == 3);
    lemma_bytes(hay, dtype, p + 9);
    assert(dtype[0] == 70 || dtype[0] == 73);
    assert(dtype[1] == 51 || dtype[1] == 54);
    assert(dtype[2] == 50 || dtype[2] == 52);
    lemma_bytes(hay, seq![34u8, 44], p + 12);
    assert(seq![34u8, 44][0] == 34 && seq![34u8, 44][1] == 44);
    assert(hay[p + 9] == dtype[0] && hay[p + 10] == dtype[1] && hay[p + 11] == dtype[2]);
    assert(found(hay, key, p) == Some(p));
    lemma_next(hay, 34, p + 7, p + 8);
    lemma_next(hay, 34, p + 9, p + 12);
    assert(hay.subrange(p + 9, p + 12) =~= dtype);
    assert(shape_key()[0] == 34 && shape_key()[1] == 115);
    assert(hay[p + 1] == 100 && hay[p + 2] == 116 && hay[p + 3] == 121 && hay[p + 4] == 112
        && hay[p + 5] == 101 && hay[p + 6] == 34 && hay[p + 7] == 58 && hay[p + 8] == 34 && hay[p
        + 12] == 34 && hay[p + 13] == 44);
}

} // verus!
