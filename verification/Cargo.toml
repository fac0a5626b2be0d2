[package]
name = "solo_pc"
version = "0.1.0"
edition = "2021"
publish = false

[dependencies]
ctaphid-dispatch = "0.1"
heapless = "0.7"
trussed = "0.1"
fido-authenticator = { version = "0.1", features = ["dispatch"] }
littlefs2 = "0.3"
chacha20 = { version = "0.7", features = ["rng"] }
interchange = "0.2"
generic-array = "0.14"
embedded-hal = "0.2"
