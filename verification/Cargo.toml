[package]
name = "mux"
version = "0.1.0"
edition = "2021"
publish = false

[dependencies]
kawa = "*"
mio = { version = "0.8", features = ["net", "os-poll"] }
rusty_ulid = "*"
