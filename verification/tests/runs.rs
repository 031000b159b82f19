use rmbg::cli::{parse_args, Args, Command};
use rmbg::dump::{dump_tokens_public, encode, path_of, Dump, Record};
use rmbg::image::{load_rgb, save_gray, save_rgba, ImageError};
use rmbg::pipeline::{cut_out, finish_mask, prepare};
use rmbg::scalar::Scalar;
use rmbg::tensor::Tensor;
use rmbg::words::{begins, number_string, numbered, same_text, trimmed_tail};

#[derive(Clone, Copy, Debug, PartialEq)]
struct F(f32);

impl Scalar for F {
    fn from_bits(bits: u32) -> Self {
        F(f32::from_bits(bits))
    }
    fn to_bits(self) -> u32 {
        self.0.to_bits()
    }
    fn from_usize(n: usize) -> Self {
        F(n as f32)
    }
    fn from_i64(n: i64) -> Self {
        F(n as f32)
    }
    fn plus(self, other: Self) -> Self {
        F(self.0 + other.0)
    }
    fn minus(self, other: Self) -> Self {
        F(self.0 - other.0)
    }
    fn times(self, other: Self) -> Self {
        F(self.0 * other.0)
    }
    fn over(self, other: Self) -> Self {
        F(self.0 / other.0)
    }
    fn negated(self) -> Self {
        F(-self.0)
    }
    fn magnitude(self) -> Self {
        F(self.0.abs())
    }
    fn exponential(self) -> Self {
        F(self.0.exp())
    }
    fn square_root(self) -> Self {
        F(self.0.sqrt())
    }
    fn power(self, exponent: Self) -> Self {
        F(self.0.powf(exponent.0))
    }
    fn larger(self, other: Self) -> Self {
        F(self.0.max(other.0))
    }
    fn rounded_down(self) -> Self {
        F(self.0.floor())
    }
    fn rounded(self) -> Self {
        F(self.0.round())
    }
    fn less(self, other: Self) -> bool {
        self.0 < other.0
    }
    fn same(self, other: Self) -> bool {
        self.0 == other.0
    }
    fn to_usize(self) -> usize {
        self.0 as usize
    }
    fn to_isize(self) -> isize {
        self.0 as isize
    }
    fn to_u8(self) -> u8 {
        self.0 as u8
    }
}

fn fs(v: &[f32]) -> Vec<F> {
    v.iter().map(|x| F(*x)).collect()
}

fn tensor(c: usize, h: usize, w: usize, v: &[f32]) -> Tensor<F> {
    Tensor::from_vec(c, h, w, fs(v))
}

fn plain(v: &[F]) -> Vec<f32> {
    v.iter().map(|x| x.0).collect()
}

fn near(a: &[F], b: &[f32], tol: f32) -> bool {
    a.len() == b.len() && a.iter().zip(b).all(|(x, y)| (x.0 - y).abs() <= tol)
}

fn args(words: &[&str]) -> Command<Args, String> {
    let mut argv = vec![String::from("rmbg")];
    for w in words {
        argv.push(String::from(*w));
    }
    parse_args(&argv)
}

fn run(words: &[&str]) -> Args {
    match args(words) {
        Command::Run(a) => a,
        _ => panic!("no run"),
    }
}

#[test]
fn usage_of_the_readme() {
    let a = run(&[
        "--weights", "rmbg-2.0.safetensors", "-i", "input.png", "-o", "output.png", "--device", "gpu",
    ]);
    assert_eq!(a.weights, "rmbg-2.0.safetensors");
    assert_eq!(a.input, "input.png");
    assert_eq!(a.output, "output.png");
    assert!(a.uses_gpu());
    assert!(!a.alpha_only);
    let a = run(&[
        "--weights", "w", "-i", "input.png", "-o", "output.png", "--device", "cpu",
    ]);
    assert!(!a.uses_gpu());
    let a = run(&["--weights", "w", "-i", "a", "-o", "alpha.png", "--alpha-only"]);
    assert!(a.alpha_only);
    assert!(!a.uses_gpu());
}

#[test]
fn other_words_for_the_same() {
    let a = run(&["--model", "w", "--input", "a", "--output", "b", "--gpu"]);
    assert!(a.uses_gpu());
    let a = run(&["--cuda", "--cpu", "--model", "w", "--input", "a", "--output", "b"]);
    assert_eq!(a.device, "cpu");
    assert!(run(&["--cuda", "--model", "w", "-i", "a", "-o", "b"]).uses_gpu());
}

#[test]
fn dumps_are_asked_for() {
    let a = run(&[
        "--weights", "w", "-i", "a", "-o", "b", "--dump-dir", "./steps", "--dump-step",
        "decoder_block1", "--dump-step", "pred0",
    ]);
    assert_eq!(a.dump_dir, Some(String::from("./steps")));
    assert_eq!(a.steps, vec![String::from("decoder_block1"), String::from("pred0")]);
    let a = run(&["--weights", "w", "-i", "a", "-o", "b", "--dump-step"]);
    assert!(a.steps.is_empty());
    let a = run(&["--weights", "w", "-i", "a", "-o", "b", "--dump-dir"]);
    assert_eq!(a.dump_dir, None);
}

#[test]
fn what_is_no_run() {
    assert!(matches!(args(&[]), Command::Usage));
    assert!(matches!(args(&["-h"]), Command::Usage));
    assert!(matches!(args(&["--help", "--odd"]), Command::Usage));
    assert!(matches!(args(&["--weights", "w", "-i", "a"]), Command::Usage));
    assert!(matches!(args(&["--weights", "w", "-i", "a", "-o"]), Command::Usage));
    assert!(matches!(args(&["--cuda-selftest"]), Command::SelfTest));
    match args(&["--odd"]) {
        Command::Unknown(w) => assert_eq!(w, "--odd"),
        _ => panic!("no complaint"),
    }
}

fn dump(dir: Option<&str>, steps: &[&str]) -> Dump {
    Dump {
        dir: dir.map(String::from),
        steps: steps.iter().map(|s| String::from(*s)).collect(),
    }
}

#[test]
fn wants_everything_or_what_is_named() {
    assert!(dump(Some("d"), &[]).wants("x"));
    assert!(dump(Some("d"), &["x"]).wants("x"));
    assert!(!dump(Some("d"), &["y"]).wants("x"));
    assert!(!dump(None, &[]).wants("x"));
    assert!(!dump(None, &["x"]).wants("x"));
}

#[test]
fn names_of_blocks_are_picked() {
    let d = dump(None, &["full_blocks_2_5", "pred0", "half_downsample_1", "fully"]);
    assert_eq!(
        d.names_for_blocks(),
        vec![String::from("full_blocks_2_5"), String::from("half_downsample_1")]
    );
}

#[test]
fn records_are_kept() {
    let t = tensor(1, 1, 2, &[1.0, 2.0]);
    let mut log: Vec<Record<F>> = Vec::new();
    dump(Some("d"), &["a"]).write_wanted("a", &t, &mut log);
    dump(Some("d"), &["a"]).write_wanted("b", &t, &mut log);
    dump(None, &["a"]).write_wanted("a", &t, &mut log);
    assert_eq!(log.len(), 1);
    assert_eq!((log[0].dir.as_str(), log[0].name.as_str()), ("d", "a"));
    assert_eq!(plain(&log[0].tensor.data), vec![1.0, 2.0]);
    dump_tokens_public("e", "t", &fs(&[1.0, 2.0, 3.0, 4.0]), 2, &mut log);
    assert_eq!((log[1].tensor.c, log[1].tensor.h, log[1].tensor.w), (2, 1, 2));
}

#[test]
fn a_tensor_is_written_whatever_the_steps_are() {
    let t = tensor(1, 1, 1, &[1.0]);
    let mut log: Vec<Record<F>> = Vec::new();
    dump(Some("d"), &["a"]).write("b", &t, &mut log);
    dump(Some("d"), &["a"]).write_tensor("c", &t, &mut log);
    dump(None, &["a"]).write("a", &t, &mut log);
    dump(None, &["a"]).write_tensor("a", &t, &mut log);
    let names: Vec<&str> = log.iter().map(|r| r.name.as_str()).collect();
    assert_eq!(names, vec!["b", "c"]);
    assert!(log.iter().all(|r| r.dir == "d"));
}

#[test]
fn parts_are_asked_for_by_name() {
    let d = dump(Some("d"), &["full_blocks_2_5", "pred0"]);
    assert!(d.wants_part("full_blocks_2_5"));
    assert!(!d.wants_part("full_blocks_2_6"));
    assert!(!d.wants_part("pred0"));
    assert!(!dump(Some("d"), &[]).wants_part("full_blocks_2_5"));
    assert_eq!(d.parts(), vec![String::from("full_blocks_2_5")]);
}

#[test]
fn no_part_is_written_without_a_directory() {
    let d = dump(None, &["full_blocks_2_5"]);
    assert!(!d.wants_part("full_blocks_2_5"));
    assert!(d.parts().is_empty());
}

#[test]
fn dump_file_is_a_header_and_numbers() {
    let t = tensor(2, 1, 1, &[1.0, -2.0]);
    let mut want = Vec::new();
    for n in [2u32, 1, 1] {
        want.extend_from_slice(&n.to_le_bytes());
    }
    want.extend_from_slice(&1.0f32.to_le_bytes());
    want.extend_from_slice(&(-2.0f32).to_le_bytes());
    assert_eq!(encode(&t), want);
    assert_eq!(path_of("steps", "pred0"), "steps/pred0.f32");
}

#[test]
fn gray_is_written_and_read() {
    let x = tensor(1, 2, 2, &[0.0, 1.0, 0.5, 2.0]);
    let file = save_gray(&x).ok().unwrap();
    assert_eq!(&file[1..4], b"PNG");
    let y: Tensor<F> = load_rgb(&file).ok().unwrap();
    assert_eq!((y.c, y.h, y.w), (3, 2, 2));
    let v = 128.0 * (1.0 / 255.0);
    let want = [0.0, 255.0 * (1.0 / 255.0), v, 255.0 * (1.0 / 255.0)];
    for p in 0..3 {
        assert!(near(&y.data[4 * p..4 * p + 4], &want, 1e-6));
    }
}

#[test]
fn rgba_is_written_and_read() {
    let rgb = tensor(3, 1, 2, &[0.0, 1.0, 0.2, 0.4, 0.6, 0.8]);
    let alpha = tensor(1, 1, 2, &[1.0, 0.0]);
    let file = save_rgba(&rgb, &alpha).ok().unwrap();
    let y: Tensor<F> = load_rgb(&file).ok().unwrap();
    assert!(near(&y.data, &[0.0, 1.0, 0.2, 0.4, 0.6, 0.8], 1e-6));
    let mut r = png::Decoder::new(file.as_slice()).read_info().unwrap();
    let mut buf = vec![0; r.output_buffer_size()];
    r.next_frame(&mut buf).unwrap();
    assert_eq!(buf, vec![0, 51, 153, 255, 255, 102, 204, 0]);
}

fn png_of(color: png::ColorType, depth: png::BitDepth, w: u32, h: u32, data: &[u8]) -> Vec<u8> {
    let mut file = Vec::new();
    {
        let mut e = png::Encoder::new(&mut file, w, h);
        e.set_color(color);
        e.set_depth(depth);
        if color == png::ColorType::Indexed {
            e.set_palette(vec![0u8, 0, 0, 255, 255, 255]);
        }
        let mut out = e.write_header().unwrap();
        out.write_image_data(data).unwrap();
    }
    file
}

#[test]
fn sixteen_bits_and_alpha_are_read() {
    let f = png_of(png::ColorType::GrayscaleAlpha, png::BitDepth::Eight, 1, 1, &[51, 7]);
    let y: Tensor<F> = load_rgb(&f).ok().unwrap();
    assert!(near(&y.data, &[0.2, 0.2, 0.2], 1e-6));
    let f = png_of(png::ColorType::Rgb, png::BitDepth::Sixteen, 1, 1, &[255, 255, 0, 0, 128, 0]);
    let y: Tensor<F> = load_rgb(&f).ok().unwrap();
    assert!(near(&y.data, &[1.0, 0.0, 32768.0 / 65535.0], 1e-6));
}

#[test]
fn other_images_are_refused() {
    let f = png_of(png::ColorType::Indexed, png::BitDepth::Eight, 1, 1, &[1]);
    match load_rgb::<F>(&f) {
        Err(e) => assert_eq!(e.message(), "unsupported png colour type Indexed"),
        Ok(_) => panic!("read"),
    }
    let f = png_of(png::ColorType::Grayscale, png::BitDepth::One, 8, 1, &[0xaa]);
    match load_rgb::<F>(&f) {
        Err(e) => assert_eq!(e.message(), "unsupported png bit depth One"),
        Ok(_) => panic!("read"),
    }
    assert!(matches!(load_rgb::<F>(b"no image"), Err(ImageError::Decode(_))));
    let empty: Tensor<F> = Tensor::new(1, 0, 3);
    assert!(matches!(save_gray(&empty), Err(ImageError::Encode(_))));
}

#[test]
fn image_is_prepared() {
    let x = tensor(3, 1, 1, &[0.485, 0.456, 1.0]);
    let y = prepare(&x);
    assert_eq!((y.c, y.h, y.w), (3, 1024, 1024));
    assert!(y.data[0].0.abs() < 1e-6);
    assert!(y.data[1024 * 1024].0.abs() < 1e-6);
    assert!((y.data[2 * 1024 * 1024].0 - (1.0 - 0.406) / 0.225).abs() < 1e-5);
}

#[test]
fn mask_has_the_size_of_the_image() {
    let m = finish_mask(&tensor(1, 2, 2, &[0.0; 4]), 3, 5);
    assert_eq!((m.c, m.h, m.w), (1, 3, 5));
    assert!(near(&m.data, &[0.5; 15], 1e-6));
}

#[test]
fn result_has_the_size_of_the_image() {
    let rgb = tensor(3, 1, 2, &[0.0, 1.0, 0.2, 0.4, 0.6, 0.8]);
    let logits = tensor(1, 2, 2, &[100.0; 4]);
    let file = cut_out(&rgb, &logits, false).unwrap();
    let back: Tensor<F> = load_rgb(&file).unwrap();
    assert_eq!((back.c, back.h, back.w), (3, 1, 2));
    assert!(near(&back.data, &[0.0, 1.0, 0.2, 0.4, 0.6, 0.8], 1e-6));
    let file = cut_out(&rgb, &logits, true).unwrap();
    let back: Tensor<F> = load_rgb(&file).unwrap();
    assert_eq!((back.c, back.h, back.w), (3, 1, 2));
    assert!(near(&back.data, &[1.0; 6], 1e-6));
    let none = tensor(3, 0, 2, &[]);
    assert!(matches!(cut_out(&none, &logits, true), Err(ImageError::Encode(_))));
}

#[test]
fn colours_survive_loading_and_saving() {
    let rgb: Vec<u8> = (0..=255).flat_map(|b| [b, 255 - b, b / 2]).collect();
    let f = png_of(png::ColorType::Rgb, png::BitDepth::Eight, 16, 16, &rgb);
    let rgba: Vec<u8> = rgb.chunks(3).flat_map(|c| [c[0], c[1], c[2], 9]).collect();
    let g = png_of(png::ColorType::Rgba, png::BitDepth::Eight, 16, 16, &rgba);
    for file in [f, g] {
        let x: Tensor<F> = load_rgb(&file).ok().unwrap();
        let out = save_rgba(&x, &tensor(1, 16, 16, &[0.2; 256])).ok().unwrap();
        let mut r = png::Decoder::new(out.as_slice()).read_info().unwrap();
        let mut bytes = vec![0u8; r.output_buffer_size()];
        r.next_frame(&mut bytes).unwrap();
        let want: Vec<u8> = rgb.chunks(3).flat_map(|c| [c[0], c[1], c[2], 51]).collect();
        assert_eq!(bytes, want);
    }
}

#[test]
fn words_are_put_together() {
    assert_eq!(number_string(0), "0");
    assert_eq!(number_string(1207), "1207");
    assert_eq!(numbered("a", 12, "b"), "a12b");
    assert!(same_text("a", "a"));
    assert!(!same_text("a", "b"));
    assert!(begins("full_x", "full_"));
    assert!(!begins("ful", "full_"));
    assert_eq!(trimmed_tail("w.weight", ".weight"), "w");
    assert_eq!(trimmed_tail("w.weight.weight", ".weight"), "w");
    assert_eq!(trimmed_tail("w.bias", ".weight"), "w.bias");
}
