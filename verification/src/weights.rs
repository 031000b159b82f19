//! The weights of the network, read out of a safetensors file.

use crate::names::{bytes_of, Dtype, Info, TensorIndex, TensorInfo};
use crate::safetensors::{
    fault_message, fault_text, index_of, le64, parse_safetensors_index, read_le64, Fault,
};
use crate::scalar::{computes, Arith, Scalar};
use crate::text::{list_text, push_bytes, push_list, push_str, text, utf8};
use vstd::prelude::*;
use vstd::utf8::encode_utf8;

verus! {

/// The bytes of a file.
#[derive(Debug)]
pub struct Blob<'a> {
    data: &'a [u8],
}

impl<'a> View for Blob<'a> {
    type V = Seq<u8>;

    closed spec fn view(&self) -> Seq<u8> {
        self.data@
    }
}

impl<'a> Blob<'a> {
    /// A file with these bytes.
    pub fn new(data: &'a [u8]) -> (r: Blob<'a>)
        ensures
            r@ == data@,
    {
        Blob { data }
    }

    /// The bytes of the file.
    pub fn bytes(&self) -> (r: &'a [u8])
        ensures
            r@ == self@,
    {
        self.data
    }
}

/// A file of weights as a mathematical value.
#[verifier::ext_equal]
pub struct Checkpoint {
    pub file: Seq<u8>,
    pub tensors: Map<Seq<u8>, Info>,
}

/// A file of weights.
#[derive(Debug)]
pub struct Weights<'a> {
    pub blob: Blob<'a>,
    pub tensors: TensorIndex,
    /// Number of bytes behind the header.
    pub total_bytes: usize,
}

impl<'a> View for Weights<'a> {
    type V = Checkpoint;

    open spec fn view(&self) -> Checkpoint {
        Checkpoint { file: self.blob@, tensors: self.tensors.contents() }
    }
}

// ---- what can go wrong ----------------------------------------------------------------

/// What can go wrong with weights. `S` holds text and `N` holds numbers.
#[verifier::reject_recursive_types(S)]
#[verifier::reject_recursive_types(N)]
#[derive(Debug)]
pub enum Problem<S, N> {
    Header(Fault<S, N>),
    Missing { name: S },
    NotI64 { name: S },
    OffsetOverflow,
    OutOfBounds { name: S },
    NotAligned8 { name: S },
    NotAligned4 { name: S },
    WrongShape { name: S, shape: N, expected: N },
    NotMatrix { name: S },
    TooFewDims { name: S },
    TooShort { name: S },
}

/// What can go wrong with weights.
pub type WeightsError = Problem<Vec<u8>, Vec<usize>>;

impl View for Problem<Vec<u8>, Vec<usize>> {
    type V = Problem<Seq<u8>, Seq<usize>>;

    open spec fn view(&self) -> Problem<Seq<u8>, Seq<usize>> {
        match *self {
            Problem::Header(f) => Problem::Header(f@),
            Problem::Missing { name } => Problem::Missing { name: name@ },
            Problem::NotI64 { name } => Problem::NotI64 { name: name@ },
            Problem::OffsetOverflow => Problem::OffsetOverflow,
            Problem::OutOfBounds { name } => Problem::OutOfBounds { name: name@ },
            Problem::NotAligned8 { name } => Problem::NotAligned8 { name: name@ },
            Problem::NotAligned4 { name } => Problem::NotAligned4 { name: name@ },
            Problem::WrongShape { name, shape, expected } => Problem::WrongShape {
                name: name@,
                shape: shape@,
                expected: expected@,
            },
            Problem::NotMatrix { name } => Problem::NotMatrix { name: name@ },
            Problem::TooFewDims { name } => Problem::TooFewDims { name: name@ },
            Problem::TooShort { name } => Problem::TooShort { name: name@ },
        }
    }
}

/// A problem in words.
pub open spec fn problem_text(p: Problem<Seq<u8>, Seq<usize>>) -> Seq<u8> {
    match p {
        Problem::Header(f) => fault_text(f),
        Problem::Missing { name } => utf8("missing tensor ") + name,
        Problem::NotI64 { name } => utf8("tensor ") + name + utf8(" is not an i64 tensor"),
        Problem::OffsetOverflow => utf8("offset overflow"),
        Problem::OutOfBounds { name } => utf8("tensor ") + name + utf8(" out of blob bounds"),
        Problem::NotAligned8 { name } => utf8("tensor ") + name + utf8(" not 8-byte aligned"),
        Problem::NotAligned4 { name } => utf8("tensor ") + name + utf8(" not 4-byte aligned"),
        Problem::WrongShape { name, shape, expected } => utf8("tensor ") + name + utf8(" shape ")
            + list_text(shape) + utf8(" != expected ") + list_text(expected),
        Problem::NotMatrix { name } => name + utf8(": expected 2-D linear weight"),
        Problem::TooFewDims { name } => name + utf8(": too few dimensions"),
        Problem::TooShort { name } => name + utf8(": too few numbers"),
    }
}

impl Problem<Vec<u8>, Vec<usize>> {
    /// The problem in words.
    pub fn message(&self) -> (r: Vec<u8>)
        ensures
            r@ == problem_text(self@),
    {
        match self {
            Problem::Header(f) => fault_message(f),
            Problem::Missing { name } => {
                let mut out = text("missing tensor ");
                push_bytes(&mut out, name);
                out
            },
            Problem::OffsetOverflow => text("offset overflow"),
            Problem::NotI64 { name } => {
                let mut out = text("tensor ");
                push_bytes(&mut out, name);
                push_str(&mut out, " is not an i64 tensor");
                out
            },
            Problem::OutOfBounds { name } => {
                let mut out = text("tensor ");
                push_bytes(&mut out, name);
                push_str(&mut out, " out of blob bounds");
                out
            },
            Problem::NotAligned8 { name } => {
                let mut out = text("tensor ");
                push_bytes(&mut out, name);
                push_str(&mut out, " not 8-byte aligned");
                out
            },
            Problem::NotAligned4 { name } => {
                let mut out = text("tensor ");
                push_bytes(&mut out, name);
                push_str(&mut out, " not 4-byte aligned");
                out
            },
            Problem::WrongShape { name, shape, expected } => {
                let mut out = text("tensor ");
                push_bytes(&mut out, name);
                push_str(&mut out, " shape ");
                push_list(&mut out, shape);
                push_str(&mut out, " != expected ");
                push_list(&mut out, expected);
                out
            },
            Problem::NotMatrix { name } => {
                let mut out = bytes_of(name);
                push_str(&mut out, ": expected 2-D linear weight");
                out
            },
            Problem::TooFewDims { name } => {
                let mut out = bytes_of(name);
                push_str(&mut out, ": too few dimensions");
                out
            },
            Problem::TooShort { name } => {
                let mut out = bytes_of(name);
                push_str(&mut out, ": too few numbers");
                out
            },
        }
    }
}

// ---- stored numbers -------------------------------------------------------------------

/// The number that four bytes hold, the least significant first.
pub open spec fn le32(s: Seq<u8>) -> int {
    s[0] + s[1] * 0x100 + s[2] * 0x1_0000 + s[3] * 0x100_0000
}

/// Reads the number that four bytes hold from position `i` on.
pub fn read_le32(s: &[u8], i: usize) -> (r: u32)
    requires
        i + 4 <= s@.len(),
    ensures
        r == le32(s@.subrange(i as int, i + 4)),
{
    assert(s@.len() == s.len());
    let ghost t = s@.subrange(i as int, i + 4);
    assert(forall|k: int| 0 <= k < 4 ==> t[k] == s@[i + k]);
    s[i] as u32 + s[i + 1] as u32 * 0x100 + s[i + 2] as u32 * 0x1_0000 + s[i + 3] as u32
        * 0x100_0000
}

/// The integer with this pattern of 64 bits in two's complement.
pub open spec fn signed64(v: int) -> int {
    if v < 0x8000_0000_0000_0000 {
        v
    } else {
        v - 0x1_0000_0000_0000_0000
    }
}

/// The integer with this pattern of 32 bits in two's complement.
pub open spec fn signed32(v: int) -> int {
    if v < 0x8000_0000 {
        v
    } else {
        v - 0x1_0000_0000
    }
}

fn to_signed64(v: u64) -> (r: i64)
    ensures
        r == signed64(v as int),
{
    if v < 0x8000_0000_0000_0000 {
        v as i64
    } else {
        -((0xffff_ffff_ffff_ffff - v) as i64) - 1
    }
}

fn to_signed32(v: u32) -> (r: i64)
    ensures
        r == signed32(v as int),
{
    if v < 0x8000_0000 {
        v as i64
    } else {
        v as i64 - 0x1_0000_0000
    }
}

// ---- reading tensors ------------------------------------------------------------------

/// Where the tensor of this name is stored.
pub open spec fn entry(w: Checkpoint, name: Seq<char>) -> Option<Info> {
    if w.tensors.dom().contains(encode_utf8(name)) {
        Some(w.tensors[encode_utf8(name)])
    } else {
        None
    }
}

/// The integers that are stored as eight bytes each.
pub open spec fn stored_i64(file: Seq<u8>, t: Info) -> Seq<i64> {
    Seq::new(
        (t.nbytes / 8) as nat,
        |i: int| signed64(le64(file.subrange(t.offset + 8 * i, t.offset + 8 * i + 8))) as i64,
    )
}

/// The numbers of a tensor: those stored as integers are converted.
pub open spec fn stored<T>(m: Arith<T>, file: Seq<u8>, t: Info) -> Seq<T> {
    if t.dtype == Dtype::Int && t.esize == 8 {
        Seq::new((t.nbytes / 8) as nat, |i: int| (m.of_i64)(stored_i64(file, t)[i]))
    } else {
        Seq::new(
            (t.nbytes / 4) as nat,
            |i: int|
                {
                    let v = le32(file.subrange(t.offset + 4 * i, t.offset + 4 * i + 4));
                    if t.dtype == Dtype::Int {
                        (m.of_i64)(signed32(v) as i64)
                    } else {
                        (m.bits)(v as u32)
                    }
                },
        )
    }
}

/// What keeps the tensor whose name has these bytes from being read as integers of eight
/// bytes.
pub open spec fn i64_problem_of(w: Checkpoint, n: Seq<u8>) -> Option<Problem<Seq<u8>, Seq<usize>>> {
    if !w.tensors.dom().contains(n) {
        Some(Problem::Missing { name: n })
    } else {
        let t = w.tensors[n];
        if t.esize != 8 {
            Some(Problem::NotI64 { name: n })
        } else if t.offset + t.nbytes > usize::MAX {
            Some(Problem::OffsetOverflow)
        } else if t.offset + t.nbytes > w.file.len() {
            Some(Problem::OutOfBounds { name: n })
        } else if t.offset % 8 != 0 {
            Some(Problem::NotAligned8 { name: n })
        } else {
            None
        }
    }
}

/// What keeps the tensor of this name from being read as integers of eight bytes.
pub open spec fn i64_problem(w: Checkpoint, name: Seq<char>) -> Option<
    Problem<Seq<u8>, Seq<usize>>,
> {
    i64_problem_of(w, encode_utf8(name))
}

/// What keeps the tensor whose name has these bytes from being read.
pub open spec fn problem_of(w: Checkpoint, n: Seq<u8>) -> Option<Problem<Seq<u8>, Seq<usize>>> {
    if !w.tensors.dom().contains(n) {
        Some(Problem::Missing { name: n })
    } else {
        let t = w.tensors[n];
        if t.dtype == Dtype::Int && t.esize == 8 {
            i64_problem_of(w, n)
        } else if t.offset + t.nbytes > w.file.len() {
            Some(Problem::OutOfBounds { name: n })
        } else if t.nbytes % 4 != 0 || t.offset % 4 != 0 {
            Some(Problem::NotAligned4 { name: n })
        } else {
            None
        }
    }
}

/// What keeps the tensor of this name from being read.
pub open spec fn data_problem(w: Checkpoint, name: Seq<char>) -> Option<
    Problem<Seq<u8>, Seq<usize>>,
> {
    problem_of(w, encode_utf8(name))
}

/// How many numbers a tensor has.
pub open spec fn count_of(t: Info) -> int {
    if t.dtype == Dtype::Int && t.esize == 8 {
        t.nbytes / 8
    } else {
        t.nbytes / 4
    }
}

/// The numbers of the tensor of this name.
pub open spec fn data<T>(m: Arith<T>, w: Checkpoint, name: Seq<char>) -> Seq<T> {
    stored(m, w.file, entry(w, name)->0)
}

/// How many numbers the tensor of this name has.
pub open spec fn data_len(w: Checkpoint, name: Seq<char>) -> int {
    count_of(entry(w, name)->0)
}

impl<'a> Weights<'a> {
    /// Names are unique.
    pub open spec fn wf(self) -> bool {
        self.tensors.wf()
    }

    /// Reads the header of a file.
    pub fn open(blob: Blob<'a>) -> (r: Result<Weights<'a>, WeightsError>)
        ensures
            match r {
                Ok(w) => w.wf() && w@.file == blob@ && index_of(blob@) == Ok::<
                    (Map<Seq<u8>, Info>, int),
                    Fault<Seq<u8>, Seq<usize>>,
                >((w@.tensors, w.total_bytes as int)),
                Err(e) => e@ matches Problem::Header(f) && index_of(blob@) == Err::<
                    (Map<Seq<u8>, Info>, int),
                    Fault<Seq<u8>, Seq<usize>>,
                >(f),
            },
    {
        match parse_safetensors_index(blob.bytes()) {
            Ok((tensors, total_bytes)) => Ok(Weights { blob, tensors, total_bytes }),
            Err(f) => Err(Problem::Header(f)),
        }
    }

    fn find(&self, name: &str) -> (r: Result<&TensorInfo, WeightsError>)
        requires
            self.wf(),
        ensures
            match r {
                Ok(t) => entry(self@, name@) == Some(t@),
                Err(e) => entry(self@, name@) is None && e@ == (Problem::<
                    Seq<u8>,
                    Seq<usize>,
                >::Missing { name: utf8(name) }),
            },
    {
        match self.tensors.get(name.as_bytes()) {
            Some(t) => Ok(t),
            None => Err(Problem::Missing { name: text(name) }),
        }
    }

    /// The kind of number that a tensor holds.
    pub fn dtype(&self, name: &str) -> (r: Result<Dtype, WeightsError>)
        requires
            self.wf(),
        ensures
            match r {
                Ok(d) => entry(self@, name@) matches Some(t) && t.dtype == d,
                Err(e) => entry(self@, name@) is None && e@ == (Problem::<
                    Seq<u8>,
                    Seq<usize>,
                >::Missing { name: utf8(name) }),
            },
    {
        match self.find(name) {
            Ok(t) => if t.is_int() {
                Ok(Dtype::Int)
            } else {
                Ok(Dtype::F32)
            },
            Err(e) => Err(e),
        }
    }

    /// The shape of a tensor.
    pub fn shape(&self, name: &str) -> (r: Result<&[usize], WeightsError>)
        requires
            self.wf(),
        ensures
            match r {
                Ok(s) => entry(self@, name@) matches Some(t) && t.shape == s@,
                Err(e) => entry(self@, name@) is None && e@ == (Problem::<
                    Seq<u8>,
                    Seq<usize>,
                >::Missing { name: utf8(name) }),
            },
    {
        match self.find(name) {
            Ok(t) => Ok(t.shape.as_slice()),
            Err(e) => Err(e),
        }
    }

    /// The integers of a tensor that stores them as eight bytes each.
    pub fn get_i64(&self, name: &str) -> (r: Result<Vec<i64>, WeightsError>)
        requires
            self.wf(),
        ensures
            match r {
                Ok(v) => i64_problem(self@, name@) is None && v@ == stored_i64(
                    self@.file,
                    entry(self@, name@)->0,
                ),
                Err(e) => i64_problem(self@, name@) == Some(e@),
            },
    {
        let t = match self.find(name) {
            Ok(t) => t,
            Err(e) => {
                return Err(e);
            },
        };
        if t.esize != 8 {
            return Err(Problem::NotI64 { name: text(name) });
        }
        let all = self.blob.bytes();
        let end = match t.offset.checked_add(t.nbytes) {
            Some(e) => e,
            None => {
                return Err(Problem::OffsetOverflow);
            },
        };
        if end > all.len() {
            return Err(Problem::OutOfBounds { name: text(name) });
        }
        if t.offset % 8 != 0 {
            return Err(Problem::NotAligned8 { name: text(name) });
        }
        let n = t.nbytes / 8;
        let mut out: Vec<i64> = Vec::with_capacity(n);
        let mut i: usize = 0;
        while i < n
            invariant
                i <= n,
                n == t@.nbytes / 8,
                t.offset + t.nbytes <= all.len(),
                all@ == self@.file,
                out@.len() == i,
                forall|j: int| 0 <= j < i ==> #[trigger] out@[j] == stored_i64(all@, t@)[j],
            decreases n - i,
        {
            out.push(to_signed64(read_le64(all, t.offset + 8 * i)));
            i += 1;
        }
        assert(out@ =~= stored_i64(all@, t@));
        Ok(out)
    }

    /// The numbers of a tensor that stores them, or integers, as four bytes each.
    fn get_raw<T: Scalar>(&self, name: &str, t: &TensorInfo) -> (r: Result<Vec<T>, WeightsError>)
        requires
            self.wf(),
            entry(self@, name@) == Some(t@),
            t.dtype != Dtype::Int || t.esize != 8,
        ensures
            match r {
                Ok(v) => data_problem(self@, name@) is None && v@.len() == data_len(self@, name@)
                    && forall|m: Arith<T>| #[trigger]
                    computes(m) ==> v@ == data(m, self@, name@),
                Err(e) => data_problem(self@, name@) == Some(e@),
            },
    {
        let all = self.blob.bytes();
        if t.offset > all.len() || t.nbytes > all.len() - t.offset {
            return Err(Problem::OutOfBounds { name: text(name) });
        }
        if t.nbytes % 4 != 0 || t.offset % 4 != 0 {
            return Err(Problem::NotAligned4 { name: text(name) });
        }
        let n = t.nbytes / 4;
        let mut out: Vec<T> = Vec::with_capacity(n);
        let mut i: usize = 0;
        while i < n
            invariant
                i <= n,
                n == t@.nbytes / 4,
                t.offset + t.nbytes <= all.len(),
                t.dtype != Dtype::Int || t.esize != 8,
                all@ == self@.file,
                out@.len() == i,
                forall|m: Arith<T>| #[trigger]
                    computes(m) ==> forall|j: int|
                        0 <= j < i ==> #[trigger] out@[j] == stored(m, all@, t@)[j],
            decreases n - i,
        {
            let v = read_le32(all, t.offset + 4 * i);
            if t.is_int() {
                out.push(T::from_i64(to_signed32(v)));
            } else {
                out.push(T::from_bits(v));
            }
            i += 1;
        }
        assert forall|m: Arith<T>| #[trigger] computes(m) implies out@ == stored(m, all@, t@) by {
            assert(out@ =~= stored(m, all@, t@));
        }
        Ok(out)
    }

    /// The numbers of a tensor that stores integers of eight bytes.
    fn converted<T: Scalar>(&self, name: &str, t: &TensorInfo) -> (r: Result<Vec<T>, WeightsError>)
        requires
            self.wf(),
            entry(self@, name@) == Some(t@),
            t.dtype == Dtype::Int && t.esize == 8,
        ensures
            match r {
                Ok(v) => data_problem(self@, name@) is None && v@.len() == data_len(self@, name@)
                    && forall|m: Arith<T>| #[trigger]
                    computes(m) ==> v@ == data(m, self@, name@),
                Err(e) => data_problem(self@, name@) == Some(e@),
            },
    {
        let vals = match self.get_i64(name) {
            Ok(v) => v,
            Err(e) => {
                return Err(e);
            },
        };
        let n = vals.len();
        let mut out: Vec<T> = Vec::with_capacity(n);
        let mut i: usize = 0;
        while i < n
            invariant
                i <= n,
                n == vals@.len(),
                out@.len() == i,
                forall|m: Arith<T>| #[trigger]
                    computes(m) ==> forall|j: int|
                        0 <= j < i ==> #[trigger] out@[j] == (m.of_i64)(vals@[j]),
            decreases n - i,
        {
            out.push(T::from_i64(vals[i]));
            i += 1;
        }
        assert forall|m: Arith<T>| #[trigger] computes(m) implies out@ == data(
            m,
            self@,
            name@,
        ) by {
            assert(out@ =~= data(m, self@, name@));
        }
        Ok(out)
    }

    /// The numbers of a tensor; those stored as integers are converted.
    pub fn get<T: Scalar>(&self, name: &str) -> (r: Result<Vec<T>, WeightsError>)
        requires
            self.wf(),
        ensures
            match r {
                Ok(v) => data_problem(self@, name@) is None && v@.len() == data_len(self@, name@)
                    && forall|m: Arith<T>| #[trigger]
                    computes(m) ==> v@ == data(m, self@, name@),
                Err(e) => data_problem(self@, name@) == Some(e@),
            },
    {
        let t = match self.find(name) {
            Ok(t) => t,
            Err(e) => {
                return Err(e);
            },
        };
        if t.is_int() && t.esize == 8 {
            self.converted(name, t)
        } else {
            self.get_raw(name, t)
        }
    }

    /// How many numbers can be read of the tensor whose name has these bytes.
    pub fn length_of(&self, name: &[u8]) -> (r: Result<usize, WeightsError>)
        requires
            self.wf(),
        ensures
            match r {
                Ok(n) => problem_of(self@, name@) is None && self@.tensors.dom().contains(name@)
                    && n == count_of(self@.tensors[name@]),
                Err(e) => problem_of(self@, name@) == Some(e@),
            },
    {
        let t = match self.tensors.get(name) {
            Some(t) => t,
            None => {
                return Err(Problem::Missing { name: bytes_of(name) });
            },
        };
        let all = self.blob.bytes();
        let inside = t.offset <= all.len() && t.nbytes <= all.len() - t.offset;
        if t.is_int() && t.esize == 8 {
            if t.nbytes > usize::MAX - t.offset {
                Err(Problem::OffsetOverflow)
            } else if !inside {
                Err(Problem::OutOfBounds { name: bytes_of(name) })
            } else if t.offset % 8 != 0 {
                Err(Problem::NotAligned8 { name: bytes_of(name) })
            } else {
                Ok(t.nbytes / 8)
            }
        } else if !inside {
            Err(Problem::OutOfBounds { name: bytes_of(name) })
        } else if t.nbytes % 4 != 0 || t.offset % 4 != 0 {
            Err(Problem::NotAligned4 { name: bytes_of(name) })
        } else {
            Ok(t.nbytes / 4)
        }
    }

    /// The numbers of a tensor that is to have this shape.
    pub fn get_shaped<T: Scalar>(&self, name: &str, shape: &[usize]) -> (r: Result<
        Vec<T>,
        WeightsError,
    >)
        requires
            self.wf(),
        ensures
            match r {
                Ok(v) => shaped_problem(self@, name@, shape@) is None && v@.len() == data_len(
                    self@,
                    name@,
                ) && forall|m: Arith<T>| #[trigger] computes(m) ==> v@ == data(m, self@, name@),
                Err(e) => shaped_problem(self@, name@, shape@) == Some(e@),
            },
    {
        let t = match self.find(name) {
            Ok(t) => t,
            Err(e) => {
                return Err(e);
            },
        };
        if !same_numbers(&t.shape, shape) {
            return Err(
                Problem::WrongShape {
                    name: text(name),
                    shape: crate::tensor::copied(&t.shape),
                    expected: crate::tensor::copied(shape),
                },
            );
        }
        self.get(name)
    }

    /// All names, in the order of their bytes.
    pub fn names(&self) -> (r: Vec<Vec<u8>>)
        requires
            self.wf(),
        ensures
            r@.len() == self.tensors.listed().len(),
            forall|i: int| 0 <= i < r@.len() ==> (#[trigger] r@[i])@ == self.tensors.listed()[i],
            forall|i: int, j: int|
                0 <= i < j < r@.len() ==> crate::names::before(
                    (#[trigger] r@[i])@,
                    (#[trigger] r@[j])@,
                ),
            forall|n: Seq<u8>|
                self@.tensors.dom().contains(n) <==> exists|i: int|
                    0 <= i < r@.len() && (#[trigger] r@[i])@ == n,
    {
        self.tensors.names()
    }
}

/// What keeps the tensor of this name from being read with this shape.
pub open spec fn shaped_problem(w: Checkpoint, name: Seq<char>, shape: Seq<usize>) -> Option<
    Problem<Seq<u8>, Seq<usize>>,
> {
    match entry(w, name) {
        None => Some(Problem::Missing { name: encode_utf8(name) }),
        Some(t) => if t.shape != shape {
            Some(
                Problem::WrongShape {
                    name: encode_utf8(name),
                    shape: t.shape,
                    expected: shape,
                },
            )
        } else {
            data_problem(w, name)
        },
    }
}

fn same_numbers(a: &[usize], b: &[usize]) -> (r: bool)
    ensures
        r == (a@ == b@),
{
    if a.len() != b.len() {
        return false;
    }
    let mut i: usize = 0;
    while i < a.len()
        invariant
            i <= a@.len(),
            a@.len() == b@.len(),
            forall|j: int| 0 <= j < i ==> a@[j] == b@[j],
        decreases a@.len() - i,
    {
        if a[i] != b[i] {
            return false;
        }
        i += 1;
    }
    assert(a@ =~= b@);
    true
}

/// A tensor of an opened file is read, with as many numbers as its shape asks for, unless
/// it does not lie at a multiple of its element size.
pub proof fn lemma_opened_readable(w: Checkpoint, n: Seq<u8>)
    requires
        index_of(w.file) matches Ok((tensors, _)) && tensors == w.tensors,
        w.tensors.dom().contains(n),
        w.file.len() <= usize::MAX,
    ensures
        count_of(w.tensors[n]) == crate::safetensors::product(w.tensors[n].shape),
        problem_of(w, n) is None <==> w.tensors[n].offset % w.tensors[n].esize == 0,
        match problem_of(w, n) {
            None => true,
            Some(p) => p == (Problem::<Seq<u8>, Seq<usize>>::NotAligned8 { name: n }) || p == (
            Problem::<Seq<u8>, Seq<usize>>::NotAligned4 { name: n }),
        },
{
    crate::safetensors::lemma_tensors_within_file(w.file, n);
    let t = w.tensors[n];
    let k = crate::safetensors::product(t.shape);
    assert((k * 8) / 8 == k && (k * 4) / 4 == k && (k * 4) % 4 == 0);
}

} // verus!
