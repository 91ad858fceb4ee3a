[package]
name = "format_galaxy"
version = "0.1.0"
edition = "2021"
publish = false

[dependencies]
anyhow = "*"
blake3 = "=1.8.7"
codespan-reporting = "=0.13.1"
indexmap = "*"
serde = { version = "*", features = ["derive"] }
serde_json = "*"
termcolor = "=1.4.1"
wasmprinter = "=0.261.0"
wasmtime = "=47.0.4"
wat = "=1.261.0"
