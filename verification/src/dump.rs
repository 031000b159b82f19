//! Intermediate tensors that are kept for inspection, and the files they go to.

use crate::scalar::{computes, Arith, Scalar};
use crate::tensor::{Img, Tensor};
use crate::words::{begins, begins_with, joined, same_text};
use vstd::prelude::*;
use vstd::string::StringExecFns;

verus! {

/// A tensor that is to be written, as a mathematical value.
#[verifier::ext_equal]
pub struct Entry<T> {
    pub dir: Seq<char>,
    pub name: Seq<char>,
    pub img: Img<T>,
}

/// A tensor that is to be written to a directory under a name.
#[derive(Debug)]
pub struct Record<T> {
    pub dir: String,
    pub name: String,
    pub tensor: Tensor<T>,
}

impl<T> View for Record<T> {
    type V = Entry<T>;

    open spec fn view(&self) -> Entry<T> {
        Entry { dir: self.dir@, name: self.name@, img: self.tensor@ }
    }
}

/// The records as mathematical values.
pub open spec fn entries<T>(log: Seq<Record<T>>) -> Seq<Entry<T>> {
    log.map_values(|r: Record<T>| r@)
}

/// The strings as sequences of characters.
pub open spec fn texts(s: Seq<String>) -> Seq<Seq<char>> {
    s.map_values(|t: String| t@)
}

/// Adds a record at the end.
pub fn push_record<T>(log: &mut Vec<Record<T>>, dir: String, name: String, tensor: Tensor<T>)
    ensures
        entries(final(log)@) == entries(old(log)@).push(
            Entry { dir: dir@, name: name@, img: tensor@ },
        ),
{
    let ghost was = log@;
    let r = Record { dir, name, tensor };
    let ghost e = r@;
    log.push(r);
    assert(entries(log@) =~= entries(was).push(e));
}

/// Whether one of the strings is `name`.
pub fn contains_text(s: &Vec<String>, name: &str) -> (r: bool)
    ensures
        r == texts(s@).contains(name@),
{
    let mut i: usize = 0;
    while i < s.len()
        invariant
            i <= s@.len(),
            forall|j: int| 0 <= j < i ==> s@[j]@ != name@,
        decreases s@.len() - i,
    {
        if same_text(s[i].as_str(), name) {
            assert(texts(s@)[i as int] == name@);
            return true;
        }
        i += 1;
    }
    assert(!texts(s@).contains(name@)) by {
        assert forall|j: int| 0 <= j < texts(s@).len() implies texts(s@)[j] != name@ by {
            assert(texts(s@)[j] == s@[j]@);
        }
    }
    false
}

// ---- what is asked for ----------------------------------------------------------------

/// What is to be written: everything, or only what is named.
#[derive(Debug)]
pub struct Dump {
    pub dir: Option<String>,
    pub steps: Vec<String>,
}

/// The name is one of a part of the backbone.
pub open spec fn is_block_name(s: Seq<char>) -> bool {
    begins_with(s, "full_"@) || begins_with(s, "half_"@)
}

/// Those of the first `n` names that belong to a part of the backbone, in order.
pub open spec fn block_names(s: Seq<Seq<char>>, n: int) -> Seq<Seq<char>>
    decreases n,
{
    if n <= 0 {
        Seq::empty()
    } else if is_block_name(s[n - 1]) {
        block_names(s, n - 1).push(s[n - 1])
    } else {
        block_names(s, n - 1)
    }
}

/// What is to be written, as a mathematical value.
#[verifier::ext_equal]
pub struct Wish {
    pub dir: Option<Seq<char>>,
    pub steps: Seq<Seq<char>>,
}

/// The characters of an optional string.
pub open spec fn opt_text(s: Option<String>) -> Option<Seq<char>> {
    match s {
        Some(t) => Some(t@),
        None => None,
    }
}

impl View for Dump {
    type V = Wish;

    open spec fn view(&self) -> Wish {
        Wish { dir: opt_text(self.dir), steps: texts(self.steps@) }
    }
}

impl Wish {
    /// The directory, the empty string where there is none.
    pub open spec fn place(self) -> Seq<char> {
        match self.dir {
            Some(d) => d,
            None => Seq::empty(),
        }
    }

    /// The tensor of this name is to be written.
    pub open spec fn asks_for(self, name: Seq<char>) -> bool {
        self.dir is Some && (self.steps.len() == 0 || self.steps.contains(name))
    }

    /// The names of parts of the backbone that are asked for.
    pub open spec fn blocks(self) -> Seq<Seq<char>> {
        block_names(self.steps, self.steps.len() as int)
    }

    /// The names of parts of the backbone that are to be written: those that are asked for,
    /// where there is a directory.
    pub open spec fn parts(self) -> Seq<Seq<char>> {
        match self.dir {
            Some(d) => self.blocks(),
            None => Seq::empty(),
        }
    }

    /// What is written of a tensor of this name.
    pub open spec fn written<T>(self, name: Seq<char>, img: Img<T>) -> Seq<Entry<T>> {
        if self.asks_for(name) {
            seq![Entry { dir: self.place(), name, img }]
        } else {
            Seq::empty()
        }
    }
}

impl Dump {
    /// The names of parts of the backbone that are asked for, such as `full_blocks_2_5` or
    /// `half_downsample_1`.
    pub fn names_for_blocks(&self) -> (r: Vec<String>)
        ensures
            texts(r@) == self@.blocks(),
    {
        let mut r: Vec<String> = Vec::new();
        let mut i: usize = 0;
        assert(texts(r@) =~= Seq::<Seq<char>>::empty());
        while i < self.steps.len()
            invariant
                i <= self.steps@.len(),
                texts(r@) == block_names(texts(self.steps@), i as int),
            decreases self.steps@.len() - i,
        {
            let s = &self.steps[i];
            assert(texts(self.steps@)[i as int] == s@);
            if begins(s.as_str(), "full_") || begins(s.as_str(), "half_") {
                let ghost was = r@;
                r.push(s.clone());
                assert(texts(r@) =~= texts(was).push(s@));
            }
            i += 1;
        }
        r
    }

    fn want(&self, name: &str) -> (r: bool)
        ensures
            r == self@.asks_for(name@),
    {
        match &self.dir {
            None => false,
            Some(d) => self.steps.len() == 0 || contains_text(&self.steps, name),
        }
    }

    /// Whether the tensor of this name is to be written.
    pub fn wants(&self, name: &str) -> (r: bool)
        ensures
            r == self@.asks_for(name@),
    {
        self.want(name)
    }

    /// The names of parts of the backbone that are to be written: those that are asked for,
    /// where there is a directory.
    pub fn parts(&self) -> (r: Vec<String>)
        ensures
            texts(r@) == self@.parts(),
    {
        match &self.dir {
            Some(d) => self.names_for_blocks(),
            None => {
                let none: Vec<String> = Vec::new();
                assert(texts(none@) =~= Seq::<Seq<char>>::empty());
                none
            },
        }
    }

    /// Whether the part of the backbone of this name is to be written.
    pub fn wants_part(&self, name: &str) -> (r: bool)
        ensures
            r == self@.parts().contains(name@),
    {
        proof {
            let s = self@.steps;
            lemma_block_names(s, s.len() as int, name@);
            assert(s.take(s.len() as int) =~= s);
        }
        match &self.dir {
            None => false,
            Some(d) => (begins(name, "full_") || begins(name, "half_")) && contains_text(
                &self.steps,
                name,
            ),
        }
    }

    /// Adds a tensor to what is written, where there is a directory, whether or not its name is
    /// among the steps.
    pub fn write<T: Copy>(&self, name: &str, t: &Tensor<T>, log: &mut Vec<Record<T>>)
        ensures
            entries(final(log)@) == (match self@.dir {
                Some(d) => entries(old(log)@).push(Entry { dir: d, name: name@, img: t@ }),
                None => entries(old(log)@),
            }),
    {
        match &self.dir {
            None => {},
            Some(d) => push_record(log, d.clone(), String::from_str(name), t.clone()),
        }
    }

    /// Adds a tensor to what is written, where there is a directory, whether or not its name is
    /// among the steps.
    pub fn write_tensor<T: Copy>(&self, name: &str, t: &Tensor<T>, log: &mut Vec<Record<T>>)
        ensures
            entries(final(log)@) == (match self@.dir {
                Some(d) => entries(old(log)@).push(Entry { dir: d, name: name@, img: t@ }),
                None => entries(old(log)@),
            }),
    {
        self.write(name, t, log)
    }

    /// Adds a tensor to what is written, where it is asked for.
    pub fn write_wanted<T: Copy>(&self, name: &str, t: &Tensor<T>, log: &mut Vec<Record<T>>)
        ensures
            entries(final(log)@) == entries(old(log)@) + self@.written(name@, t@),
    {
        let ghost was = entries(log@);
        if self.want(name) {
            self.write(name, t, log);
        }
        assert(entries(log@) =~= was + self@.written(name@, t@));
    }
}

/// Rows of `c` features as a tensor of `c` planes of one row.
pub open spec fn tokens_img<T>(tokens: Seq<T>, c: int) -> Img<T> {
    Img { c, h: 1, w: tokens.len() as int / c, data: tokens }
}

/// Adds rows of `c` features to what is written.
pub fn dump_tokens_public<T: Copy>(
    dir: &str,
    name: &str,
    tokens: &Vec<T>,
    c: usize,
    log: &mut Vec<Record<T>>,
)
    requires
        0 < c,
    ensures
        entries(final(log)@) == entries(old(log)@).push(
            Entry { dir: dir@, name: name@, img: tokens_img(tokens@, c as int) },
        ),
{
    let data = crate::tensor::copied(tokens);
    let w = tokens.len() / c;
    push_record(
        log,
        String::from_str(dir),
        String::from_str(name),
        Tensor { c, h: 1, w, data },
    );
}

// ---- files ----------------------------------------------------------------------------

/// The lowest 32 bits of a number as four bytes, the least significant first.
pub open spec fn le32_bytes(n: int) -> Seq<u8> {
    seq![
        (n % 0x100) as u8,
        (n / 0x100 % 0x100) as u8,
        (n / 0x1_0000 % 0x100) as u8,
        (n / 0x100_0000 % 0x100) as u8,
    ]
}

/// The bit patterns of the first `n` numbers, four bytes each.
pub open spec fn payload<T>(m: Arith<T>, s: Seq<T>, n: int) -> Seq<u8>
    decreases n,
{
    if n <= 0 {
        Seq::empty()
    } else {
        payload(m, s, n - 1) + le32_bytes((m.to_bits)(s[n - 1]) as int)
    }
}

/// A tensor as a file: planes, rows and columns as four bytes each, then the numbers.
pub open spec fn file_of<T>(m: Arith<T>, t: Img<T>) -> Seq<u8> {
    le32_bytes(t.c) + le32_bytes(t.h) + le32_bytes(t.w) + payload(m, t.data, t.data.len() as int)
}

fn push_le32(out: &mut Vec<u8>, n: u64)
    ensures
        final(out)@ == old(out)@ + le32_bytes(n as int),
{
    let ghost was = out@;
    out.push((n % 0x100) as u8);
    out.push((n / 0x100 % 0x100) as u8);
    out.push((n / 0x1_0000 % 0x100) as u8);
    out.push((n / 0x100_0000 % 0x100) as u8);
    assert(out@ =~= was + le32_bytes(n as int));
}

/// The bytes of the file of a tensor.
pub fn encode<T: Scalar>(t: &Tensor<T>) -> (r: Vec<u8>)
    ensures
        forall|m: Arith<T>| #[trigger] computes(m) ==> r@ == file_of(m, t@),
{
    let mut out: Vec<u8> = Vec::new();
    push_le32(&mut out, t.c as u64);
    assert(out@ =~= le32_bytes(t.c as int));
    push_le32(&mut out, t.h as u64);
    push_le32(&mut out, t.w as u64);
    let ghost head = out@;
    let mut i: usize = 0;
    assert(head + Seq::<u8>::empty() =~= head);
    while i < t.data.len()
        invariant
            i <= t.data@.len(),
            head == le32_bytes(t.c as int) + le32_bytes(t.h as int) + le32_bytes(t.w as int),
            forall|m: Arith<T>| #[trigger]
                computes(m) ==> out@ == head + payload(m, t.data@, i as int),
        decreases t.data@.len() - i,
    {
        let ghost was = out@;
        let b = t.data[i].to_bits();
        push_le32(&mut out, b as u64);
        assert forall|m: Arith<T>| #[trigger] computes(m) implies out@ == head + payload(
            m,
            t.data@,
            i + 1,
        ) by {
            assert(was == head + payload(m, t.data@, i as int));
            assert(out@ =~= head + payload(m, t.data@, i + 1));
        }
        i += 1;
    }
    out
}

/// The path of the file of a tensor.
pub fn path_of(dir: &str, name: &str) -> (r: String)
    ensures
        r@ == dir@ + "/"@ + name@ + ".f32"@,
{
    let mut r = joined(dir, "/");
    r.append(name);
    r.append(".f32");
    r
}

// ---- laws -----------------------------------------------------------------------------

/// Without a directory nothing is to be written, and with one but no names every tensor is.
pub proof fn lemma_asks_for(d: Wish, name: Seq<char>)
    ensures
        d.dir is None ==> !d.asks_for(name) && !d.parts().contains(name),
        d.dir is Some && d.steps.len() == 0 ==> d.asks_for(name),
{
}

/// Every name that is kept for the backbone was asked for and belongs to it, and every
/// such name is kept.
pub proof fn lemma_block_names(s: Seq<Seq<char>>, n: int, name: Seq<char>)
    requires
        0 <= n <= s.len(),
    ensures
        block_names(s, n).contains(name) <==> is_block_name(name) && s.take(n).contains(name),
    decreases n,
{
    if n > 0 {
        lemma_block_names(s, n - 1, name);
        let before = block_names(s, n - 1);
        let now = block_names(s, n);
        let t = s.take(n);
        assert(t.drop_last() =~= s.take(n - 1));
        if before.contains(name) {
            let i = choose|i: int| 0 <= i < before.len() && before[i] == name;
            assert(now[i] == name);
        }
        let u = s.take(n - 1);
        if u.contains(name) {
            let i = choose|i: int| 0 <= i < n - 1 && u[i] == name;
            assert(t[i] == name);
        }
        if now.contains(name) {
            let i = choose|i: int| 0 <= i < now.len() && now[i] == name;
            if i < before.len() {
                assert(before[i] == name);
            } else {
                assert(t[n - 1] == name);
            }
        }
        if is_block_name(name) && t.contains(name) {
            let i = choose|i: int| 0 <= i < n && t[i] == name;
            if i < n - 1 {
                assert(u[i] == name);
            } else {
                assert(now[now.len() - 1] == name);
            }
        }
    }
}

/// The file of a tensor has twelve bytes and four more for each number.
pub proof fn lemma_file_size<T>(m: Arith<T>, t: Img<T>)
    ensures
        file_of(m, t).len() == 12 + 4 * t.data.len(),
{
    lemma_payload_size(m, t.data, t.data.len() as int);
}

proof fn lemma_payload_size<T>(m: Arith<T>, s: Seq<T>, n: int)
    requires
        0 <= n,
    ensures
        payload(m, s, n).len() == 4 * n,
    decreases n,
{
    if n > 0 {
        lemma_payload_size(m, s, n - 1);
    }
}

/// The bit pattern of number `i` stands in the file at `12 + 4 * i`.
pub proof fn lemma_file_number<T>(m: Arith<T>, t: Img<T>, i: int)
    requires
        0 <= i < t.data.len(),
    ensures
        crate::weights::le32(file_of(m, t).subrange(12 + 4 * i, 12 + 4 * i + 4)) == (m.to_bits)(
            t.data[i],
        ),
{
    let n = t.data.len() as int;
    lemma_payload_number(m, t.data, i, n);
    lemma_payload_size(m, t.data, n);
    let f = file_of(m, t);
    assert(f.subrange(12 + 4 * i, 12 + 4 * i + 4) =~= payload(m, t.data, n).subrange(
        4 * i,
        4 * i + 4,
    ));
    let b = (m.to_bits)(t.data[i]) as int;
    assert(b % 0x100 + (b / 0x100 % 0x100) * 0x100 + (b / 0x1_0000 % 0x100) * 0x1_0000 + (b
        / 0x100_0000 % 0x100) * 0x100_0000 == b) by (nonlinear_arith)
        requires
            0 <= b < 0x1_0000_0000,
    ;
}

proof fn lemma_payload_number<T>(m: Arith<T>, s: Seq<T>, i: int, n: int)
    requires
        0 <= i < n,
    ensures
        payload(m, s, n).subrange(4 * i, 4 * i + 4) == le32_bytes((m.to_bits)(s[i]) as int),
    decreases n,
{
    lemma_payload_size(m, s, n - 1);
    if i < n - 1 {
        lemma_payload_number(m, s, i, n - 1);
        assert(payload(m, s, n).subrange(4 * i, 4 * i + 4) =~= payload(m, s, n - 1).subrange(
            4 * i,
            4 * i + 4,
        ));
    } else {
        assert(payload(m, s, n).subrange(4 * i, 4 * i + 4) =~= le32_bytes(
            (m.to_bits)(s[i]) as int,
        ));
    }
}

} // verus!
