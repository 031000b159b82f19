pub mod attention;
pub mod backbone;
pub mod cli;
pub mod conv;
pub mod cuda;
pub mod cuda_forward;
pub mod cuda_graph;
pub mod cuda_joins;
pub mod cuda_load;
pub mod cuda_net;
pub mod cuda_ops;
pub mod cuda_saves;
pub mod deform;
pub mod dump;
pub mod encoder;
pub mod engine;
pub mod exact_attention;
pub mod exact_blocks;
pub mod exact_decoder;
pub mod exact_deform;
pub mod exact_encoder;
pub mod exact_maps;
pub mod exact_pointwise;
pub mod exact_result;
pub mod exact_sample;
pub mod fitting;
pub mod graph;
pub mod headers;
pub mod image;
pub mod index;
pub mod pipeline;
pub mod pointwise;
pub mod layout;
pub mod linear;
pub mod loading;
pub mod mask;
pub mod model;
pub mod names;
pub mod parallel;
pub mod positions;
pub mod reals;
pub mod resize;
pub mod safetensors;
pub mod scalar;
pub mod scan;
pub mod selftest;
pub mod storage;
pub mod swin;
pub mod tensor;
pub mod text;
pub mod weights;
pub mod windows;
pub mod wishes;
pub mod words;
