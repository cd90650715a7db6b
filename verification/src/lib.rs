//! Chunk-graph optimisation for a module bundler: the module graph and chunk
//! graph data model, asynchronous-module inference and chunk splitting.

pub mod async_modules;
pub mod chunk;
pub mod chunk_graph;
pub mod compilation;
pub mod compose;
pub mod dependency;
pub mod identifier;
pub mod js_module;
pub mod module_graph;
pub mod module_group;
pub mod node_stuff;
pub mod split_chunks;
pub mod worklist;
