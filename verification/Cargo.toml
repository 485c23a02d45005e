[package]
name = "metrique"
version = "0.1.0"
edition = "2021"
publish = false

[dependencies]
bit-set = "0.8"
dtoa = "1"
hashbrown = { version = "0.15", features = ["raw-entry"] }
itertools = "0.14"
itoa = "1"
jiff = "0.2"
opentelemetry = "*"
ordered-float = "*"
proc-macro2 = "1"
quote = "1"
rand = "0.9"
serde = { version = "1", features = ["derive"] }
serde_json = "1"
smallvec = { version = "1", features = ["const_new"] }
syn = { version = "2", features = ["full", "visit-mut"] }
tracing = "0.1"

[dev-dependencies]
rand_chacha = "0.9"
