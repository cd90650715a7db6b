[package]
name = "bundle_graph"
version = "0.1.0"
edition = "2021"
publish = false

[dependencies]
linked_hash_set = "0.1"
rustc-hash = "1"
rayon = "1"
sugar_path = "*"
async-trait = "0.1"
swc_core = { version = "*", default-features = false, features = ["common", "ecma_ast", "ecma_visit"] }
