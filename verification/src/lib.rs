//! Pulsar: the decision-making core of a streaming mixture-of-experts engine.

pub mod answer;
pub mod args;
pub mod attention;
pub mod bpe;
pub mod buffers;
pub mod bytemap;
pub mod bytes;
pub mod cache_laws;
pub mod census;
pub mod chat;
pub mod chat_laws;
pub mod cuts;
pub mod dataflow;
pub mod decode;
pub mod device;
pub mod dot;
pub mod dot_laws;
pub mod expert;
pub mod f16;
pub mod gguf;
pub mod flow;
pub mod glm4;
pub mod glm4_cuts;
pub mod graph;
pub mod grouping;
pub mod http;
pub mod hybrid;
pub mod hybrid_flow;
pub mod hybrid_graph;
pub mod hybrid_values;
pub mod json;
pub mod kimi;
pub mod layer;
pub mod le;
pub mod lines;
pub mod loader;
pub mod loader_laws;
pub mod messages;
pub mod ngram;
pub mod order;
pub mod pack;
pub mod parse;
pub mod pretokenize;
pub mod prof;
pub mod quant;
pub mod reply;
pub mod request;
pub mod resolve;
pub mod resolve_laws;
pub mod rng;
pub mod search;
pub mod settings;
pub mod shape;
pub mod slab_cache;
pub mod speculation;
pub mod store;
pub mod text;
pub mod tier_graph;
pub mod tier_laws;
pub mod tier_values;
pub mod tiered;
pub mod tiers;
pub mod tokenizer;
pub mod toolcall;
pub mod values;
pub mod vfile;
