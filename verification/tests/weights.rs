use rmbg::graph::Affine;
use rmbg::linear::{LayerNorm, Linear, Mlp};
use rmbg::names::{place, Dtype, Place, TensorIndex, TensorInfo};
use rmbg::safetensors::{count_elements, fault_message, parse_safetensors_index, HeaderError};
use rmbg::scalar::Scalar;
use rmbg::scan::{
    find_byte, find_from, parse_shape_after, parse_string_after, parse_usize_pair_after, rfind_byte,
};
use rmbg::text::{push_list, push_u64, text};
use rmbg::weights::{Blob, Weights, WeightsError};

#[derive(Clone, Copy, Debug, PartialEq)]
struct F(f32);

impl Scalar for F {
    fn from_bits(bits: u32) -> Self {
        F(f32::from_bits(bits))
    }
    fn to_bits(self) -> u32 {
        self.0.to_bits()
    }
    fn from_usize(n: usize) -> Self {
        F(n as f32)
    }
    fn from_i64(n: i64) -> Self {
        F(n as f32)
    }
    fn plus(self, other: Self) -> Self {
        F(self.0 + other.0)
    }
    fn minus(self, other: Self) -> Self {
        F(self.0 - other.0)
    }
    fn times(self, other: Self) -> Self {
        F(self.0 * other.0)
    }
    fn over(self, other: Self) -> Self {
        F(self.0 / other.0)
    }
    fn negated(self) -> Self {
        F(-self.0)
    }
    fn magnitude(self) -> Self {
        F(self.0.abs())
    }
    fn exponential(self) -> Self {
        F(self.0.exp())
    }
    fn square_root(self) -> Self {
        F(self.0.sqrt())
    }
    fn power(self, exponent: Self) -> Self {
        F(self.0.powf(exponent.0))
    }
    fn larger(self, other: Self) -> Self {
        F(self.0.max(other.0))
    }
    fn rounded_down(self) -> Self {
        F(self.0.floor())
    }
    fn rounded(self) -> Self {
        F(self.0.round())
    }
    fn less(self, other: Self) -> bool {
        self.0 < other.0
    }
    fn same(self, other: Self) -> bool {
        self.0 == other.0
    }
    fn to_usize(self) -> usize {
        self.0 as usize
    }
    fn to_isize(self) -> isize {
        self.0 as isize
    }
    fn to_u8(self) -> u8 {
        self.0 as u8
    }
}

fn fs(v: &[f32]) -> Vec<F> {
    v.iter().map(|x| F(*x)).collect()
}

fn plain(v: &[F]) -> Vec<f32> {
    v.iter().map(|x| x.0).collect()
}

fn file_of(head: &str, payload: &[u8]) -> Vec<u8> {
    let mut f = (head.len() as u64).to_le_bytes().to_vec();
    f.extend_from_slice(head.as_bytes());
    f.extend_from_slice(payload);
    f
}

/// A file of tensors of numbers of four bytes, its payload at a multiple of eight.
fn floats(parts: &[(&str, &[usize], &[f32])]) -> Vec<u8> {
    let mut head = String::from("{");
    let mut payload: Vec<u8> = Vec::new();
    for (i, (name, shape, data)) in parts.iter().enumerate() {
        let a = payload.len();
        for v in data.iter() {
            payload.extend_from_slice(&v.to_le_bytes());
        }
        let comma = if i == 0 { "" } else { "," };
        head += &format!(
            "{}\"{}\":{{\"dtype\":\"F32\",\"shape\":{:?},\"data_offsets\":[{},{}]}}",
            comma,
            name,
            shape,
            a,
            payload.len()
        );
    }
    head += "}";
    while head.len() % 8 != 0 {
        head.push(' ');
    }
    file_of(&head, &payload)
}

fn fault(file: &[u8]) -> String {
    match parse_safetensors_index(file) {
        Ok(_) => panic!("the header is read"),
        Err(e) => String::from_utf8(fault_message(&e)).unwrap(),
    }
}

fn words<V>(r: Result<V, WeightsError>) -> String {
    match r {
        Ok(_) => panic!("no error"),
        Err(e) => String::from_utf8(e.message()).unwrap(),
    }
}

#[test]
fn header_is_read() {
    let f = floats(&[("b", &[2, 2], &[1.0, 2.0, 3.0, 4.0]), ("a", &[1], &[5.0])]);
    let (index, payload) = parse_safetensors_index(&f).ok().unwrap();
    assert_eq!(payload, 20);
    assert_eq!(index.len(), 2);
    assert_eq!(index.names(), vec![b"a".to_vec(), b"b".to_vec()]);
    let t = index.get(b"a").unwrap();
    assert_eq!(t.shape, vec![1]);
    assert_eq!(t.nbytes, 4);
    assert_eq!(t.offset, f.len() - 4);
    assert_eq!(t.esize, 4);
    assert!(!t.is_int());
    assert!(index.get(b"c").is_none());
    assert_eq!(index.position(b"b"), Some(1));
    assert_eq!(index.position(b"c"), None);
}

#[test]
fn data_behind_the_header_do_not_matter() {
    let f = floats(&[("b", &[2, 2], &[1.0, 2.0, 3.0, 4.0]), ("a", &[1], &[5.0])]);
    let mut g = f.clone();
    let n = g.len();
    g[n - 1] = 9;
    g.extend_from_slice(&[1, 2, 3]);
    let (a, small) = parse_safetensors_index(&f).ok().unwrap();
    let (b, large) = parse_safetensors_index(&g).ok().unwrap();
    assert_eq!((small, large), (20, 23));
    assert_eq!(a.names(), b.names());
    for name in a.names() {
        let (s, t) = (a.get(&name).unwrap(), b.get(&name).unwrap());
        assert_eq!((&s.shape, s.offset, s.nbytes), (&t.shape, t.offset, t.nbytes));
    }
}

#[test]
fn metadata_is_no_tensor() {
    let head = "{\"__metadata__\":{\"dtype\":\"x\"},\"w\":{\"dtype\":\"F32\",\"shape\":[],\"data_offsets\":[0,4]}}";
    let (index, _) = parse_safetensors_index(&file_of(head, &[0; 4])).ok().unwrap();
    assert_eq!(index.names(), vec![b"w".to_vec()]);
}

#[test]
fn later_entry_counts() {
    let head = "{\"w\":{\"dtype\":\"F32\",\"shape\":[1],\"data_offsets\":[0,4]},\"w\":{\"dtype\":\"F32\",\"shape\":[2],\"data_offsets\":[0,8]}}";
    let (index, _) = parse_safetensors_index(&file_of(head, &[0; 8])).ok().unwrap();
    assert_eq!(index.len(), 1);
    assert_eq!(index.get(b"w").unwrap().shape, vec![2]);
}

#[test]
fn short_files_are_refused() {
    assert_eq!(fault(&[1, 2, 3]), "safetensors: file too small");
    assert_eq!(fault(&[0; 8]), "safetensors: implausible header length 0");
    let mut f = (1u64 << 35).to_le_bytes().to_vec();
    f.push(b'{');
    assert_eq!(fault(&f), "safetensors: implausible header length 34359738368");
    let mut f = 10u64.to_le_bytes().to_vec();
    f.push(b'{');
    assert_eq!(fault(&f), "safetensors: truncated header");
}

#[test]
fn text_of_the_header_is_tested() {
    let mut f = 2u64.to_le_bytes().to_vec();
    f.extend_from_slice(&[b'{', 0xff]);
    assert_eq!(fault(&f), "safetensors: header is not utf-8");
    assert_eq!(fault(&file_of("[]", &[])), "safetensors: header does not start with '{'");
    assert_eq!(fault(&file_of("{}", &[])), "safetensors: no tensors found in header");
}

#[test]
fn malformed_entries_are_refused() {
    assert_eq!(fault(&file_of("{\"dtype\":", &[])), "safetensors: dtype outside any object");
    assert_eq!(
        fault(&file_of("{\"w\" :{\"dtype\":\"F32\"}}", &[])),
        "safetensors: malformed key before dtype"
    );
    assert_eq!(
        fault(&file_of("{ w\":{\"dtype\":\"F32\"}}", &[])),
        "safetensors: no name key before dtype"
    );
    assert_eq!(fault(&file_of("{\"w\":{\"dtype\":4}}", &[])), "safetensors: missing dtype value");
    assert_eq!(fault(&file_of("{\"w\":{\"dtype\":\"F32\"}}", &[])), "safetensors: missing shape");
    assert_eq!(
        fault(&file_of("{\"w\":{\"dtype\":\"F32\",\"shape\":[x]}}", &[])),
        "safetensors: bad shape"
    );
    assert_eq!(
        fault(&file_of("{\"w\":{\"dtype\":\"F32\",\"shape\":[1]}}", &[])),
        "safetensors: missing data_offsets"
    );
    assert_eq!(
        fault(&file_of("{\"w\":{\"dtype\":\"F32\",\"shape\":[1],\"data_offsets\":[0]}}", &[])),
        "safetensors: bad data_offsets"
    );
}

#[test]
fn sizes_are_tested() {
    let one = |d: &str, s: &str, o: &str| {
        format!("{{\"w\":{{\"dtype\":\"{}\",\"shape\":{},\"data_offsets\":{}}}}}", d, s, o)
    };
    assert_eq!(
        fault(&file_of(&one("F32", "[1]", "[0,4]"), &[])),
        "safetensors: tensor w out of bounds"
    );
    assert_eq!(
        fault(&file_of(&one("F32", "[1]", "[4,0]"), &[0; 4])),
        "safetensors: tensor w out of bounds"
    );
    assert_eq!(
        fault(&file_of(&one("F16", "[2]", "[0,4]"), &[0; 4])),
        "safetensors: unsupported dtype F16 for w"
    );
    assert_eq!(
        fault(&file_of(&one("F32", "[2,3]", "[0,4]"), &[0; 4])),
        "safetensors: tensor w has 4 bytes for [2, 3] (6 element(s) of F32)"
    );
    let f = file_of(
        "{\"__metadata__\":{\"data_offsets\":[0,9]},\"w\":{\"dtype\":\"F32\",\"shape\":[1],\"data_offsets\":[0,4]}}",
        &[0; 4],
    );
    assert_eq!(fault(&f), "safetensors: payload extends past end of file");
    assert!(matches!(parse_safetensors_index(&f), Err(HeaderError::PayloadPastEnd)));
}

#[test]
fn dtypes_are_told_apart() {
    let head = "{\"i\":{\"dtype\":\"I64\",\"shape\":[2],\"data_offsets\":[0,16]},\"j\":{\"dtype\":\"I32\",\"shape\":[1],\"data_offsets\":[16,20]},\"f\":{\"dtype\":\"F32\",\"shape\":[1],\"data_offsets\":[20,24]}}";
    let mut head = String::from(head);
    while head.len() % 8 != 0 {
        head.push(' ');
    }
    let mut payload = Vec::new();
    payload.extend_from_slice(&7i64.to_le_bytes());
    payload.extend_from_slice(&(-3i64).to_le_bytes());
    payload.extend_from_slice(&(-5i32).to_le_bytes());
    payload.extend_from_slice(&2.5f32.to_le_bytes());
    let f = file_of(&head, &payload);
    let w = Weights::open(Blob::new(&f)).ok().unwrap();
    assert_eq!(w.total_bytes, 24);
    assert_eq!(w.dtype("i").ok().unwrap(), Dtype::Int);
    assert_eq!(w.dtype("j").ok().unwrap(), Dtype::Int);
    assert_eq!(w.dtype("f").ok().unwrap(), Dtype::F32);
    assert_eq!(w.get_i64("i").ok().unwrap(), vec![7, -3]);
    assert_eq!(plain(&w.get::<F>("i").ok().unwrap()), vec![7.0, -3.0]);
    assert_eq!(plain(&w.get::<F>("j").ok().unwrap()), vec![-5.0]);
    assert_eq!(plain(&w.get::<F>("f").ok().unwrap()), vec![2.5]);
    assert_eq!(w.length_of(b"i").ok().unwrap(), 2);
    assert_eq!(w.shape("i").ok().unwrap(), &[2usize][..]);
    assert_eq!(w.names(), vec![b"f".to_vec(), b"i".to_vec(), b"j".to_vec()]);
    assert_eq!(words(w.get_i64("f")), "tensor f is not an i64 tensor");
    assert_eq!(words(w.get_i64("x")), "missing tensor x");
    assert_eq!(words(w.get::<F>("x")), "missing tensor x");
    assert_eq!(words(w.length_of(b"x")), "missing tensor x");
    assert_eq!(words(w.dtype("x")), "missing tensor x");
}

#[test]
fn shapes_are_compared() {
    let f = floats(&[("w", &[2, 3], &[0.0, 1.0, 2.0, 3.0, 4.0, 5.0])]);
    let w = Weights::open(Blob::new(&f)).ok().unwrap();
    assert_eq!(
        plain(&w.get_shaped::<F>("w", &[2, 3]).ok().unwrap()),
        vec![0.0, 1.0, 2.0, 3.0, 4.0, 5.0]
    );
    assert_eq!(
        words(w.get_shaped::<F>("w", &[3, 2])),
        "tensor w shape [2, 3] != expected [3, 2]"
    );
    assert_eq!(words(w.get_shaped::<F>("v", &[3, 2])), "missing tensor v");
}

#[test]
fn tensors_off_their_places_are_refused() {
    let head = "{\"w\":{\"dtype\":\"F32\",\"shape\":[1],\"data_offsets\":[1,5]},\"i\":{\"dtype\":\"I64\",\"shape\":[1],\"data_offsets\":[4,12]}}";
    let mut head = String::from(head);
    while head.len() % 8 != 0 {
        head.push(' ');
    }
    let f = file_of(&head, &[0; 16]);
    let w = Weights::open(Blob::new(&f)).ok().unwrap();
    assert_eq!(words(w.get::<F>("w")), "tensor w not 4-byte aligned");
    assert_eq!(words(w.get::<F>("i")), "tensor i not 8-byte aligned");
    assert_eq!(words(w.length_of(b"w")), "tensor w not 4-byte aligned");
    assert_eq!(words(w.length_of(b"i")), "tensor i not 8-byte aligned");
}

#[test]
fn faults_of_the_header_come_through() {
    assert_eq!(words(Weights::open(Blob::new(&[]))), "safetensors: file too small");
}

#[test]
fn index_built_by_hand_may_lie() {
    let info = |offset: usize, nbytes: usize, esize: usize, dtype: Dtype| TensorInfo {
        shape: vec![1],
        offset,
        nbytes,
        esize,
        dtype,
    };
    let mut index = TensorIndex::new();
    index.insert(b"far".to_vec(), info(8, 400, 4, Dtype::F32));
    index.insert(b"wide".to_vec(), info(8, usize::MAX, 8, Dtype::Int));
    index.insert(b"past".to_vec(), info(8, 800, 8, Dtype::Int));
    let bytes = [0u8; 16];
    let w = Weights { blob: Blob::new(&bytes), tensors: index, total_bytes: 0 };
    assert_eq!(words(w.get::<F>("far")), "tensor far out of blob bounds");
    assert_eq!(words(w.get::<F>("wide")), "offset overflow");
    assert_eq!(words(w.get::<F>("past")), "tensor past out of blob bounds");
    assert_eq!(words(w.length_of(b"wide")), "offset overflow");
}

#[test]
fn layers_are_loaded() {
    let f = floats(&[
        ("fc1.weight", &[2, 3], &[1.0, 2.0, 3.0, 4.0, 5.0, 6.0]),
        ("fc1.bias", &[2], &[7.0, 8.0]),
        ("fc2.weight", &[1, 2], &[1.0, 1.0]),
        ("n.weight", &[2], &[1.0, 2.0]),
        ("n.bias", &[2], &[3.0, 4.0]),
        ("flat.weight", &[2], &[3.0, 4.0]),
        ("bn.weight", &[1], &[2.0]),
        ("bn.bias", &[1], &[3.0]),
        ("bn.running_mean", &[1], &[5.0]),
        ("bn.running_var", &[1], &[4.0]),
        ("sh.weight", &[2], &[2.0, 2.0]),
        ("sh.bias", &[1], &[3.0]),
        ("sh.running_mean", &[2], &[5.0, 5.0]),
        ("sh.running_var", &[2], &[4.0, 4.0]),
    ]);
    let w = Weights::open(Blob::new(&f)).ok().unwrap();
    let l: Linear<F> = Linear::load(&w, "fc1.weight").ok().unwrap();
    assert_eq!((l.oc, l.ic), (2, 3));
    assert_eq!(plain(&l.apply(&[F(1.0), F(1.0), F(1.0)])), vec![13.0, 23.0]);
    let l: Linear<F> = Linear::load(&w, "fc2.weight").ok().unwrap();
    assert!(l.b.is_none());
    assert_eq!(words(Linear::<F>::load(&w, "flat.weight")), "flat.weight: expected 2-D linear weight");
    assert_eq!(words(Linear::<F>::load(&w, "none.weight")), "missing tensor none.weight");
    let n: LayerNorm<F> = LayerNorm::load(&w, "n").ok().unwrap();
    assert_eq!(plain(&n.b), vec![3.0, 4.0]);
    assert_eq!(words(LayerNorm::<F>::load(&w, "fc2")), "missing tensor fc2.bias");
    assert!(Mlp::<F>::load(&w, "x").is_err());
    let a: Affine<F> = Affine::load(&w, "bn").ok().unwrap();
    assert!((a.scale[0].0 - 1.0).abs() < 1e-5);
    assert!((a.shift[0].0 + 2.0).abs() < 1e-5);
    assert_eq!(words(Affine::<F>::load(&w, "sh")), "sh.bias: too few numbers");
}

#[test]
fn text_is_found() {
    assert_eq!(find_from(b"abcabc", b"bc", 0), Some(1));
    assert_eq!(find_from(b"abcabc", b"bc", 2), Some(4));
    assert_eq!(find_from(b"abcabc", b"bc", 5), None);
    assert_eq!(find_from(b"abc", b"a", 9), None);
    assert_eq!(find_byte(b"abcab", b'b', 2), Some(4));
    assert_eq!(rfind_byte(b"abcab", b'b', 4), Some(1));
    assert_eq!(rfind_byte(b"abcab", b'x', 4), None);
}

#[test]
fn values_are_parsed() {
    let s = b"\"data_offsets\": [ 3 , 14 ]";
    assert_eq!(parse_usize_pair_after(s, b"\"data_offsets\"", 0), Some((3, 14)));
    assert_eq!(parse_usize_pair_after(b"\"k\":[1,x]", b"\"k\"", 0), None);
    assert_eq!(parse_string_after(b"\"dtype\": \"F32\"", b"\"dtype\"", 0), Some(b"F32".to_vec()));
    assert_eq!(parse_shape_after(b"\"shape\":[2, 3,4]", 0), Some(vec![2, 3, 4]));
    assert_eq!(parse_shape_after(b"\"shape\":[]", 0), Some(vec![]));
}

#[test]
fn elements_are_counted() {
    assert_eq!(count_elements(&[2, 3, 4]), Some(24));
    assert_eq!(count_elements(&[]), Some(1));
    assert_eq!(count_elements(&[0, 5]), Some(0));
    assert_eq!(count_elements(&[usize::MAX, 2]), None);
}

#[test]
fn names_are_ordered_by_bytes() {
    assert!(place(b"a", b"b") == Place::Before);
    assert!(place(b"ab", b"a") == Place::After);
    assert!(place(b"ab", b"ab") == Place::Same);
    assert!(place(b"a.10", b"a.2") == Place::Before);
}

#[test]
fn numbers_are_written() {
    let mut out = text("n=");
    push_u64(&mut out, 1050);
    push_list(&mut out, &[1, 20]);
    assert_eq!(String::from_utf8(out).unwrap(), "n=1050[1, 20]");
    let mut out = text("");
    push_u64(&mut out, 0);
    push_list(&mut out, &[]);
    assert_eq!(String::from_utf8(out).unwrap(), "0[]");
}
