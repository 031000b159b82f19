//! An index of tensors by name, kept in the order of the names.

use vstd::prelude::*;

verus! {

/// The kind of number that a stored tensor holds. Tensors of integers are turned
/// into numbers when they are read; tensors of numbers are taken as they are.
#[derive(Clone, Copy, PartialEq, Eq, Debug, Structural)]
pub enum Dtype {
    F32,
    Int,
}

/// Where a tensor is stored, as a mathematical value.
#[verifier::ext_equal]
pub struct Info {
    pub shape: Seq<usize>,
    pub offset: int,
    pub nbytes: int,
    pub esize: int,
    pub dtype: Dtype,
}

/// Where a tensor is stored.
#[derive(Debug)]
pub struct TensorInfo {
    pub shape: Vec<usize>,
    /// Position of the first byte in the file.
    pub offset: usize,
    pub nbytes: usize,
    /// Size of a stored element in bytes.
    pub esize: usize,
    pub dtype: Dtype,
}

impl View for TensorInfo {
    type V = Info;

    open spec fn view(&self) -> Info {
        Info {
            shape: self.shape@,
            offset: self.offset as int,
            nbytes: self.nbytes as int,
            esize: self.esize as int,
            dtype: self.dtype,
        }
    }
}

impl TensorInfo {
    /// Whether the stored elements are integers, which are converted when they are read.
    pub fn is_int(&self) -> (r: bool)
        ensures
            r == (self.dtype == Dtype::Int),
    {
        self.dtype == Dtype::Int
    }
}

// ---- the order of names ---------------------------------------------------------------

/// `a` comes before `b` in the dictionary order of bytes.
pub open spec fn before(a: Seq<u8>, b: Seq<u8>) -> bool
    decreases a.len(),
{
    if b.len() == 0 {
        false
    } else if a.len() == 0 {
        true
    } else if a[0] != b[0] {
        a[0] < b[0]
    } else {
        before(a.drop_first(), b.drop_first())
    }
}

/// Of two different names one comes before the other.
pub proof fn lemma_before_total(a: Seq<u8>, b: Seq<u8>)
    ensures
        before(a, b) || before(b, a) || a == b,
    decreases a.len(),
{
    if a.len() > 0 && b.len() > 0 && a[0] == b[0] {
        lemma_before_total(a.drop_first(), b.drop_first());
        if a.drop_first() == b.drop_first() {
            assert(a =~= seq![a[0]] + a.drop_first());
            assert(b =~= seq![b[0]] + b.drop_first());
        }
    } else if a.len() == 0 && b.len() == 0 {
        assert(a =~= b);
    }
}

/// The order is transitive.
pub proof fn lemma_before_transitive(a: Seq<u8>, b: Seq<u8>, c: Seq<u8>)
    requires
        before(a, b),
        before(b, c),
    ensures
        before(a, c),
    decreases a.len(),
{
    if a.len() > 0 && b.len() > 0 && c.len() > 0 && a[0] == b[0] && b[0] == c[0] {
        lemma_before_transitive(a.drop_first(), b.drop_first(), c.drop_first());
    }
}

/// No name comes before itself.
pub proof fn lemma_before_strict(a: Seq<u8>)
    ensures
        !before(a, a),
    decreases a.len(),
{
    if a.len() > 0 {
        lemma_before_strict(a.drop_first());
    }
}

/// How two names stand in the order.
#[derive(Clone, Copy, PartialEq, Eq, Debug, Structural)]
pub enum Place {
    Before,
    Same,
    After,
}

/// Finds how `a` stands to `b`.
pub fn place(a: &[u8], b: &[u8]) -> (r: Place)
    ensures
        r == Place::Before <==> before(a@, b@),
        r == Place::Same <==> a@ == b@,
        r == Place::After <==> before(b@, a@),
{
    let mut i: usize = 0;
    proof {
        assert(a@.skip(0) =~= a@);
        assert(b@.skip(0) =~= b@);
        lemma_before_strict(a@);
        if before(a@, b@) && before(b@, a@) {
            lemma_before_transitive(a@, b@, a@);
        }
        lemma_before_total(a@, b@);
    }
    while i < a.len() && i < b.len()
        invariant
            i <= a@.len(),
            i <= b@.len(),
            a@.take(i as int) == b@.take(i as int),
            before(a@, b@) == before(a@.skip(i as int), b@.skip(i as int)),
            before(b@, a@) == before(b@.skip(i as int), a@.skip(i as int)),
            a@ == b@ ==> !before(a@, b@) && !before(b@, a@),
            !(before(a@, b@) && before(b@, a@)),
        decreases a@.len() - i,
    {
        assert(a@.skip(i as int)[0] == a@[i as int]);
        assert(b@.skip(i as int)[0] == b@[i as int]);
        if a[i] < b[i] {
            return Place::Before;
        }
        if b[i] < a[i] {
            return Place::After;
        }
        proof {
            assert(a@.skip(i as int).drop_first() =~= a@.skip(i + 1));
            assert(b@.skip(i as int).drop_first() =~= b@.skip(i + 1));
            assert(a@.take(i + 1) =~= a@.take(i as int).push(a@[i as int]));
            assert(b@.take(i + 1) =~= b@.take(i as int).push(b@[i as int]));
        }
        i += 1;
    }
    if i < b.len() {
        Place::Before
    } else if i < a.len() {
        Place::After
    } else {
        proof {
            assert(a@.take(i as int) =~= a@);
            assert(b@.take(i as int) =~= b@);
        }
        Place::Same
    }
}

/// The bytes of a slice.
pub fn bytes_of(s: &[u8]) -> (r: Vec<u8>)
    ensures
        r@ == s@,
{
    crate::tensor::copied(s)
}

// ---- the index ------------------------------------------------------------------------

/// A tensor with its name.
#[derive(Debug)]
pub struct Entry {
    pub name: Vec<u8>,
    pub info: TensorInfo,
}

/// Tensors by name. A name occurs once, and the entries are in the order of the
/// names.
#[derive(Debug)]
pub struct TensorIndex {
    entries: Vec<Entry>,
}

impl TensorIndex {
    /// The entries are strictly in the order of their names.
    pub closed spec fn wf(self) -> bool {
        forall|i: int, j: int|
            0 <= i < j < self.entries@.len() ==> before(
                (#[trigger] self.entries@[i]).name@,
                (#[trigger] self.entries@[j]).name@,
            )
    }

    /// The names in order.
    pub closed spec fn listed(self) -> Seq<Seq<u8>> {
        Seq::new(self.entries@.len(), |i: int| self.entries@[i].name@)
    }

    /// What the index holds.
    pub closed spec fn contents(self) -> Map<Seq<u8>, Info> {
        Map::new(
            |n: Seq<u8>| self.listed().contains(n),
            |n: Seq<u8>| self.entries@[self.listed().index_of(n)].info@,
        )
    }

    proof fn lemma_entry(self, i: int)
        requires
            self.wf(),
            0 <= i < self.entries@.len(),
        ensures
            self.contents().dom().contains(self.entries@[i].name@),
            self.contents()[self.entries@[i].name@] == self.entries@[i].info@,
    {
        let n = self.entries@[i].name@;
        assert(self.listed()[i] == n);
        let j = self.listed().index_of(n);
        assert(self.listed()[j] == n);
        if i < j {
            lemma_before_strict(n);
        } else if j < i {
            lemma_before_strict(n);
        }
    }

    /// An index without entries.
    pub fn new() -> (r: TensorIndex)
        ensures
            r.wf(),
            r.contents() == Map::<Seq<u8>, Info>::empty(),
    {
        let r = TensorIndex { entries: Vec::new() };
        assert(r.contents() =~= Map::<Seq<u8>, Info>::empty());
        r
    }

    /// Number of entries.
    pub fn len(&self) -> (r: usize)
        requires
            self.wf(),
        ensures
            r == self.listed().len(),
            r == 0 <==> self.contents() == Map::<Seq<u8>, Info>::empty(),
    {
        proof {
            if self.entries@.len() == 0 {
                assert(self.contents() =~= Map::<Seq<u8>, Info>::empty());
            } else {
                self.lemma_entry(0);
            }
        }
        self.entries.len()
    }

    /// The number of entries whose name comes before `name`.
    fn rank(&self, name: &[u8]) -> (r: usize)
        requires
            self.wf(),
        ensures
            r <= self.entries@.len(),
            forall|i: int|
                0 <= i < r ==> before((#[trigger] self.entries@[i]).name@, name@),
            forall|i: int|
                r <= i < self.entries@.len() ==> !before(
                    (#[trigger] self.entries@[i]).name@,
                    name@,
                ),
    {
        let mut lo: usize = 0;
        let mut hi: usize = self.entries.len();
        while lo < hi
            invariant
                lo <= hi <= self.entries@.len(),
                self.wf(),
                forall|i: int|
                    0 <= i < lo ==> before((#[trigger] self.entries@[i]).name@, name@),
                forall|i: int|
                    hi <= i < self.entries@.len() ==> !before(
                        (#[trigger] self.entries@[i]).name@,
                        name@,
                    ),
            decreases hi - lo,
        {
            let mid = lo + (hi - lo) / 2;
            if place(&self.entries[mid].name, name) == Place::Before {
                proof {
                    assert forall|i: int| 0 <= i < mid + 1 implies before(
                        (#[trigger] self.entries@[i]).name@,
                        name@,
                    ) by {
                        if i < mid {
                            lemma_before_transitive(
                                self.entries@[i].name@,
                                self.entries@[mid as int].name@,
                                name@,
                            );
                        }
                    }
                }
                lo = mid + 1;
            } else {
                proof {
                    assert forall|i: int| mid <= i < self.entries@.len() implies !before(
                        (#[trigger] self.entries@[i]).name@,
                        name@,
                    ) by {
                        if mid < i && before(self.entries@[i].name@, name@) {
                            lemma_before_transitive(
                                self.entries@[mid as int].name@,
                                self.entries@[i].name@,
                                name@,
                            );
                        }
                    }
                }
                hi = mid;
            }
        }
        lo
    }

    /// Puts a tensor into the index; one of the same name is replaced.
    pub fn insert(&mut self, name: Vec<u8>, info: TensorInfo)
        requires
            old(self).wf(),
        ensures
            final(self).wf(),
            final(self).contents() == old(self).contents().insert(name@, info@),
    {
        let ghost was = *self;
        let ghost n = name@;
        let ghost kept = info@;
        let at = self.rank(&name);
        let same = if at < self.entries.len() {
            place(&self.entries[at].name, &name) == Place::Same
        } else {
            false
        };
        if same {
            let gone = self.entries.remove(at);
        }
        self.entries.insert(at, Entry { name, info });
        proof {
            let now = *self;
            assert(now.entries@[at as int].name@ == n);
            assert forall|i: int| 0 <= i < at implies #[trigger] now.entries@[i]
                == was.entries@[i] by {}
            let shift = if same {
                0int
            } else {
                1int
            };
            assert forall|i: int| at < i < now.entries@.len() implies #[trigger] now.entries@[i]
                == was.entries@[i - shift] by {}
            assert forall|i: int| at + 1 - shift <= i < was.entries@.len() implies before(
                n,
                (#[trigger] was.entries@[i]).name@,
            ) by {
                lemma_before_total(n, was.entries@[i].name@);
                if same {
                    assert(before(was.entries@[at as int].name@, was.entries@[i].name@));
                } else if was.entries@[i].name@ == n {
                    if i > at {
                        assert(before(was.entries@[at as int].name@, was.entries@[i].name@));
                    }
                }
            }
            assert forall|i: int, j: int| 0 <= i < j < now.entries@.len() implies before(
                (#[trigger] now.entries@[i]).name@,
                (#[trigger] now.entries@[j]).name@,
            ) by {
                if j == at {
                    assert(now.entries@[i] == was.entries@[i]);
                } else if i == at {
                    assert(now.entries@[j] == was.entries@[j - shift]);
                } else if j < at {
                    assert(now.entries@[i] == was.entries@[i]);
                    assert(now.entries@[j] == was.entries@[j]);
                } else if i < at {
                    assert(now.entries@[i] == was.entries@[i]);
                    assert(now.entries@[j] == was.entries@[j - shift]);
                    assert(before(was.entries@[i].name@, was.entries@[j - shift].name@));
                } else {
                    assert(now.entries@[i] == was.entries@[i - shift]);
                    assert(now.entries@[j] == was.entries@[j - shift]);
                }
            }
            assert(now.wf());
            let want = was.contents().insert(n, kept);
            assert forall|k: Seq<u8>|
                #![trigger now.contents().dom().contains(k)]
                #![trigger now.contents()[k]]
                now.contents().dom().contains(k) == want.dom().contains(k)
                    && (want.dom().contains(k) ==> now.contents()[k] == want[k]) by {
                now.lemma_entry(at as int);
                if k != n {
                    if was.contents().dom().contains(k) {
                        let i = was.listed().index_of(k);
                        assert(was.listed()[i] == k);
                        let j = if i < at {
                            i
                        } else {
                            i + shift
                        };
                        assert(now.entries@[j] == was.entries@[i]);
                        now.lemma_entry(j);
                    }
                    if now.contents().dom().contains(k) {
                        let j = now.listed().index_of(k);
                        assert(now.listed()[j] == k);
                        let i = if j < at {
                            j
                        } else {
                            j - shift
                        };
                        assert(now.entries@[j] == was.entries@[i]);
                        was.lemma_entry(i);
                    }
                }
            }
            assert(now.contents().dom() =~= want.dom());
            assert(now.contents() =~= want);
        }
    }

    /// The tensor of this name.
    pub fn get(&self, name: &[u8]) -> (r: Option<&TensorInfo>)
        requires
            self.wf(),
        ensures
            match r {
                Some(t) => self.contents().dom().contains(name@) && t@ == self.contents()[name@],
                None => !self.contents().dom().contains(name@),
            },
    {
        let at = self.rank(name);
        if at < self.entries.len() {
            if place(&self.entries[at].name, name) == Place::Same {
                proof {
                    self.lemma_entry(at as int);
                }
                return Some(&self.entries[at].info);
            }
        }
        proof {
            if self.contents().dom().contains(name@) {
                let i = self.listed().index_of(name@);
                assert(self.listed()[i] == name@);
                lemma_before_strict(name@);
                assert(i >= at);
                if i > at {
                    assert(before(self.entries@[at as int].name@, self.entries@[i].name@));
                }
            }
        }
        None
    }

    /// The place of a name among all names.
    pub fn position(&self, name: &[u8]) -> (r: Option<usize>)
        requires
            self.wf(),
        ensures
            match r {
                Some(i) => self.contents().dom().contains(name@) && i < self.listed().len()
                    && i == self.listed().index_of(name@),
                None => !self.contents().dom().contains(name@),
            },
    {
        let at = self.rank(name);
        let there = match self.get(name) {
            Some(t) => true,
            None => false,
        };
        proof {
            if there {
                let i = self.listed().index_of(name@);
                assert(self.listed()[i] == name@);
                lemma_before_strict(name@);
                if at < i {
                    assert(before(self.entries@[at as int].name@, self.entries@[i].name@));
                    assert(!before(self.entries@[at as int].name@, name@));
                }
            }
        }
        if there {
            Some(at)
        } else {
            None
        }
    }

    /// All names, in order.
    pub fn names(&self) -> (r: Vec<Vec<u8>>)
        requires
            self.wf(),
        ensures
            r@.len() == self.listed().len(),
            forall|i: int| 0 <= i < r@.len() ==> (#[trigger] r@[i])@ == self.listed()[i],
            forall|i: int, j: int|
                0 <= i < j < r@.len() ==> before((#[trigger] r@[i])@, (#[trigger] r@[j])@),
            forall|n: Seq<u8>|
                self.contents().dom().contains(n) <==> exists|i: int|
                    0 <= i < r@.len() && (#[trigger] r@[i])@ == n,
    {
        let mut r: Vec<Vec<u8>> = Vec::with_capacity(self.entries.len());
        let mut k: usize = 0;
        while k < self.entries.len()
            invariant
                k <= self.entries@.len(),
                r@.len() == k,
                forall|i: int| 0 <= i < k ==> (#[trigger] r@[i])@ == self.entries@[i].name@,
            decreases self.entries@.len() - k,
        {
            r.push(bytes_of(&self.entries[k].name));
            k += 1;
        }
        proof {
            assert forall|i: int, j: int| 0 <= i < j < r@.len() implies before(
                (#[trigger] r@[i])@,
                (#[trigger] r@[j])@,
            ) by {
                assert(before(self.entries@[i].name@, self.entries@[j].name@));
            }
            assert forall|n: Seq<u8>|
                self.contents().dom().contains(n) <==> exists|i: int|
                    0 <= i < r@.len() && (#[trigger] r@[i])@ == n by {
                if self.contents().dom().contains(n) {
                    let i = self.listed().index_of(n);
                    assert(self.listed()[i] == n);
                    assert(r@[i]@ == n);
                }
                if exists|i: int| 0 <= i < r@.len() && (#[trigger] r@[i])@ == n {
                    let i = choose|i: int| 0 <= i < r@.len() && (#[trigger] r@[i])@ == n;
                    self.lemma_entry(i);
                }
            }
        }
        r
    }
}

} // verus!
