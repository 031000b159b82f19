//! The command line.

use crate::dump::{opt_text, texts};
use crate::words::same_text;
use vstd::prelude::*;
use vstd::string::StringExecFns;

verus! {

/// What a run works on.
#[derive(Debug)]
pub struct Args {
    pub weights: String,
    pub input: String,
    pub output: String,
    pub alpha_only: bool,
    pub dump_dir: Option<String>,
    pub steps: Vec<String>,
    pub device: String,
}

/// What a run works on, as a mathematical value.
#[verifier::ext_equal]
pub struct Choice {
    pub weights: Seq<char>,
    pub input: Seq<char>,
    pub output: Seq<char>,
    pub alpha_only: bool,
    pub dump_dir: Option<Seq<char>>,
    pub steps: Seq<Seq<char>>,
    pub device: Seq<char>,
}

impl View for Args {
    type V = Choice;

    open spec fn view(&self) -> Choice {
        Choice {
            weights: self.weights@,
            input: self.input@,
            output: self.output@,
            alpha_only: self.alpha_only,
            dump_dir: opt_text(self.dump_dir),
            steps: texts(self.steps@),
            device: self.device@,
        }
    }
}

/// What the command line asks for. `A` holds what a run works on, `S` holds text.
#[verifier::reject_recursive_types(A)]
#[verifier::reject_recursive_types(S)]
#[derive(Debug)]
pub enum Command<A, S> {
    /// Remove the background of an image.
    Run(A),
    /// Explain the usage.
    Usage,
    /// Complain of an argument and explain the usage.
    Unknown(S),
    /// Compare the operations on the device with those on the processor.
    SelfTest,
}

impl View for Command<Args, String> {
    type V = Command<Choice, Seq<char>>;

    open spec fn view(&self) -> Command<Choice, Seq<char>> {
        match *self {
            Command::Run(a) => Command::Run(a@),
            Command::Usage => Command::Usage,
            Command::Unknown(s) => Command::Unknown(s@),
            Command::SelfTest => Command::SelfTest,
        }
    }
}

/// What a run works on before any argument is read.
pub open spec fn defaults() -> Choice {
    Choice {
        weights: Seq::empty(),
        input: Seq::empty(),
        output: Seq::empty(),
        alpha_only: false,
        dump_dir: None,
        steps: Seq::empty(),
        device: "cpu"@,
    }
}

/// Argument `i`, the empty string where there is none.
pub open spec fn value_at(argv: Seq<Seq<char>>, i: int) -> Seq<char> {
    if i < argv.len() {
        argv[i]
    } else {
        Seq::empty()
    }
}

/// What the arguments from `i` on ask for, on top of what was read before.
pub open spec fn command_from(argv: Seq<Seq<char>>, i: int, a: Choice) -> Command<
    Choice,
    Seq<char>,
>
    decreases argv.len() + 1 - i,
{
    if i >= argv.len() {
        if a.weights.len() == 0 || a.input.len() == 0 || a.output.len() == 0 {
            Command::Usage
        } else {
            Command::Run(a)
        }
    } else {
        let word = argv[i];
        let value = value_at(argv, i + 1);
        if word == "--weights"@ || word == "--model"@ {
            command_from(argv, i + 2, Choice { weights: value, ..a })
        } else if word == "-i"@ || word == "--input"@ {
            command_from(argv, i + 2, Choice { input: value, ..a })
        } else if word == "-o"@ || word == "--output"@ {
            command_from(argv, i + 2, Choice { output: value, ..a })
        } else if word == "--alpha-only"@ {
            command_from(argv, i + 1, Choice { alpha_only: true, ..a })
        } else if word == "--device"@ {
            command_from(argv, i + 2, Choice { device: value, ..a })
        } else if word == "--cpu"@ {
            command_from(argv, i + 1, Choice { device: "cpu"@, ..a })
        } else if word == "--gpu"@ || word == "--cuda"@ {
            command_from(argv, i + 1, Choice { device: "gpu"@, ..a })
        } else if word == "--cuda-selftest"@ {
            Command::SelfTest
        } else if word == "--dump-dir"@ {
            command_from(
                argv,
                i + 2,
                Choice {
                    dump_dir: if i + 1 < argv.len() {
                        Some(value)
                    } else {
                        None
                    },
                    ..a
                },
            )
        } else if word == "--dump-step"@ {
            command_from(
                argv,
                i + 2,
                Choice {
                    steps: if i + 1 < argv.len() {
                        a.steps.push(value)
                    } else {
                        a.steps
                    },
                    ..a
                },
            )
        } else if word == "-h"@ || word == "--help"@ {
            Command::Usage
        } else {
            Command::Unknown(word)
        }
    }
}

fn value(argv: &Vec<String>, i: usize) -> (r: String)
    ensures
        r@ == value_at(texts(argv@), i as int),
{
    if i < argv.len() {
        assert(texts(argv@)[i as int] == argv@[i as int]@);
        argv[i].clone()
    } else {
        String::new()
    }
}

/// Reads the command line. The first argument is the name of the program.
pub fn parse_args(argv: &Vec<String>) -> (r: Command<Args, String>)
    requires
        argv@.len() + 1 < usize::MAX,
    ensures
        r@ == command_from(texts(argv@), 1, defaults()),
{
    let ghost words = texts(argv@);
    let ghost want = command_from(words, 1, defaults());
    let mut weights = String::new();
    let mut input = String::new();
    let mut output = String::new();
    let mut alpha_only = false;
    let mut dump_dir: Option<String> = None;
    let mut steps: Vec<String> = Vec::new();
    let mut device = String::from_str("cpu");
    let mut i: usize = 1;
    let ghost mut a = defaults();
    assert(texts(steps@) =~= Seq::<Seq<char>>::empty());
    while i < argv.len()
        invariant
            1 <= i <= argv@.len() + 1,
            argv@.len() + 1 < usize::MAX,
            words == texts(argv@),
            want == command_from(words, 1, defaults()),
            want == command_from(words, i as int, a),
            a.weights == weights@,
            a.input == input@,
            a.output == output@,
            a.alpha_only == alpha_only,
            a.dump_dir == opt_text(dump_dir),
            a.steps == texts(steps@),
            a.device == device@,
        decreases argv@.len() + 1 - i,
    {
        let word = argv[i].as_str();
        assert(words[i as int] == word@);
        let ghost v = value_at(words, i + 1);
        if same_text(word, "--weights") || same_text(word, "--model") {
            weights = value(argv, i + 1);
            i += 2;
            proof {
                a = Choice { weights: v, ..a };
            }
        } else if same_text(word, "-i") || same_text(word, "--input") {
            input = value(argv, i + 1);
            i += 2;
            proof {
                a = Choice { input: v, ..a };
            }
        } else if same_text(word, "-o") || same_text(word, "--output") {
            output = value(argv, i + 1);
            i += 2;
            proof {
                a = Choice { output: v, ..a };
            }
        } else if same_text(word, "--alpha-only") {
            alpha_only = true;
            i += 1;
            proof {
                a = Choice { alpha_only: true, ..a };
            }
        } else if same_text(word, "--device") {
            device = value(argv, i + 1);
            i += 2;
            proof {
                a = Choice { device: v, ..a };
            }
        } else if same_text(word, "--cpu") {
            device = String::from_str("cpu");
            i += 1;
            proof {
                a = Choice { device: "cpu"@, ..a };
            }
        } else if same_text(word, "--gpu") || same_text(word, "--cuda") {
            device = String::from_str("gpu");
            i += 1;
            proof {
                a = Choice { device: "gpu"@, ..a };
            }
        } else if same_text(word, "--cuda-selftest") {
            return Command::SelfTest;
        } else if same_text(word, "--dump-dir") {
            let given = i + 1 < argv.len();
            dump_dir = if given {
                Some(value(argv, i + 1))
            } else {
                None
            };
            i += 2;
            proof {
                a = Choice {
                    dump_dir: if given {
                        Some(v)
                    } else {
                        None
                    },
                    ..a
                };
            }
        } else if same_text(word, "--dump-step") {
            let given = i + 1 < argv.len();
            let ghost before = steps@;
            if given {
                steps.push(value(argv, i + 1));
            }
            i += 2;
            proof {
                if given {
                    assert(texts(steps@) =~= texts(before).push(v));
                }
                a = Choice {
                    steps: if given {
                        a.steps.push(v)
                    } else {
                        a.steps
                    },
                    ..a
                };
            }
        } else if same_text(word, "-h") || same_text(word, "--help") {
            return Command::Usage;
        } else {
            return Command::Unknown(String::from_str(word));
        }
    }
    if weights.as_str().is_empty() || input.as_str().is_empty() || output.as_str().is_empty() {
        Command::Usage
    } else {
        Command::Run(Args { weights, input, output, alpha_only, dump_dir, steps, device })
    }
}

impl Args {
    /// Whether the run uses the device; every name but `gpu` stands for the processor.
    pub fn uses_gpu(&self) -> (r: bool)
        ensures
            r == (self@.device == "gpu"@),
    {
        same_text(self.device.as_str(), "gpu")
    }
}

// ---- laws -----------------------------------------------------------------------------

/// A run is only asked for with weights, an input and an output.
pub proof fn lemma_run_is_complete(argv: Seq<Seq<char>>, i: int, a: Choice)
    requires
        command_from(argv, i, a) is Run,
    ensures
        command_from(argv, i, a) matches Command::Run(b) && 0 < b.weights.len() && 0 < b.input.len()
            && 0 < b.output.len(),
    decreases argv.len() + 1 - i,
{
    if i < argv.len() {
        let word = argv[i];
        let v = value_at(argv, i + 1);
        if word == "--weights"@ || word == "--model"@ {
            lemma_run_is_complete(argv, i + 2, Choice { weights: v, ..a });
        } else if word == "-i"@ || word == "--input"@ {
            lemma_run_is_complete(argv, i + 2, Choice { input: v, ..a });
        } else if word == "-o"@ || word == "--output"@ {
            lemma_run_is_complete(argv, i + 2, Choice { output: v, ..a });
        } else if word == "--alpha-only"@ {
            lemma_run_is_complete(argv, i + 1, Choice { alpha_only: true, ..a });
        } else if word == "--device"@ {
            lemma_run_is_complete(argv, i + 2, Choice { device: v, ..a });
        } else if word == "--cpu"@ {
            lemma_run_is_complete(argv, i + 1, Choice { device: "cpu"@, ..a });
        } else if word == "--gpu"@ || word == "--cuda"@ {
            lemma_run_is_complete(argv, i + 1, Choice { device: "gpu"@, ..a });
        } else if word == "--dump-dir"@ {
            lemma_run_is_complete(
                argv,
                i + 2,
                Choice {
                    dump_dir: if i + 1 < argv.len() {
                        Some(v)
                    } else {
                        None
                    },
                    ..a
                },
            );
        } else if word == "--dump-step"@ {
            lemma_run_is_complete(
                argv,
                i + 2,
                Choice {
                    steps: if i + 1 < argv.len() {
                        a.steps.push(v)
                    } else {
                        a.steps
                    },
                    ..a
                },
            );
        }
    }
}

} // verus!
