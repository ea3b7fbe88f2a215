[package]
name = "rokugo"
version = "0.1.0"
edition = "2021"
publish = false

[dependencies]
bytemuck = { version = "1", features = ["derive"] }
codespan-reporting = "0.11"
dashmap = "5"
enum-iterator = "2"
num_enum = "0.7"
parking_lot = "0.12"
rayon = "1"
rustc-hash = "1.1"
smallvec = "1"
termcolor = "1"
tracing = "0.1"
