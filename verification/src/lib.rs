pub mod text;
pub mod order;
pub mod paths;
pub mod types;
pub mod depgraph;
pub mod config;
pub mod gate;
pub mod mirror_types;
pub mod fingerprint;
pub mod diff_types;
pub mod classifier;
pub mod stamps;
pub mod analyzer;
pub mod index;
pub mod template;
pub mod mirror_io;
pub mod modules;
pub mod knowledge;
pub mod pipeline;
pub mod registry;
pub mod error;
pub mod syntax;
pub mod ts_adapter;
pub mod go_adapter;
pub mod py_adapter;
pub mod scope;
pub mod front_matter;
pub mod decls;
pub mod c_adapter;
pub mod cpp_adapter;
pub mod csharp_adapter;
pub mod rust_adapter;
pub mod swift_adapter;
pub mod dart_adapter;
pub mod zig_adapter;
pub mod rendering;
