[package]
name = "c2rust-transpile"
version = "0.21.0"
edition = "2021"
publish = false

[dependencies]
colored = "2"
failure = "0.1"
fern = { version = "0.6", features = ["colored"] }
indexmap = "1"
itertools = "0.10"
libc = "0.2"
log = "0.4"
log-reroute = "0.1"
proc-macro2 = "1"
regex = "1"
serde = { version = "1", features = ["derive"] }
serde_json = "1"
syn = { version = "1", features = ["full", "extra-traits"] }
tempfile = "3"
which = "4"
