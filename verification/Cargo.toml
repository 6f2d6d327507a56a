[package]
name = "kengine"
version = "0.1.0"
edition = "2021"
publish = false

[dependencies]
boa_engine = "=0.22.0"
fxhash = "=0.2.1"
naga = { version = "=30.0.1", features = ["wgsl-in"] }
uuid = { version = "1", features = ["v4"] }
