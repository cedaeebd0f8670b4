[package]
name = "ducttape"
version = "0.1.0"
edition = "2021"
publish = false

[dependencies]
clap = "=2.34.0"
crossbeam-channel = "=0.5.17"
node-resolve = "=2.2.0"
rayon = "=1.12.0"
swc_atoms = "=10.0.0"
swc_common = "=26.0.0"
swc_ecmascript = { version = "=74.0.0", features = ["parser", "codegen", "visit", "transforms", "react", "typescript"] }
