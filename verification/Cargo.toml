[package]
name = "avm1_emitter"
version = "0.1.0"
edition = "2021"
publish = false

[dependencies]
avm1-types = "*"

[dev-dependencies]
avm1-parser = "*"
