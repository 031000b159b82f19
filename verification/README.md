# rmbg

Removes the background of an image with the RMBG-2.0 (BiRefNet) network: a PNG goes in, the
subject comes out on a transparent background. The network runs on the processor, or on a
graphics card.

The library in `src/` is verified with Verus: every function states what it returns, and the
statements are proved. Four small wrappers are trusted instead, and their doc comments say what is
taken for granted: `par_map` (rayon), `is_utf8` (the standard library), and `decode_png` and
`encode_png` (png), with the names `decoded_png` and `encoded_png` for what these two make.

## What is where

* Numbers and tensors: `scalar`, `tensor`, `index`, `parallel`. The network is written over any
  number type with the operations of single-precision numbers. A contract fixes each result down
  to the order of the operations.
* Operations: `conv`, `pointwise`, `resize`, `deform`, `linear`, `attention`, `layout`, `windows`,
  `mask`.
* The checkpoint: `safetensors` reads the header of a file, `scan` and `names` hold what it
  needs for that, `weights` gives the tensors, `loading` says what keeps a part of the network
  from being loaded.
* The network: `graph`, `swin`, `backbone`, `encoder`, `model`, `engine`, and `fitting`, which
  tests whether an image fits the weights.
* A run: `cli`, `image`, `pipeline`, `dump`, `wishes`, with `text` and `words` for messages.
* The graphics card: `cuda`, `cuda_ops`, `cuda_graph`, `cuda_net`, `cuda_forward` and `cuda_load`
  plan what the card does, as a list of allocations, uploads, launches and downloads. `selftest`
  plans every operation beside its result on the processor. `cuda_saves` holds the law that both
  write the same intermediate tensors.

`app/` is the program: arguments, files, single-precision numbers, and the driver of the card,
which carries out a plan. It expects the compiled kernels, `rmbg_toolkit.fatbin` and
`rmbg_swin.fatbin`, beside the program.

## Usage

    rmbg --weights rmbg-2.0.safetensors -i input.png -o output.png --device gpu
    rmbg --weights rmbg-2.0.safetensors -i input.png -o output.png --device cpu
    rmbg --weights rmbg-2.0.safetensors -i input.png -o alpha.png --alpha-only
    rmbg --cuda-selftest

Input: PNG, gray or RGB, with or without alpha, 8 or 16 bits a sample. Output: an RGBA PNG, or a
gray mask with `--alpha-only`.
