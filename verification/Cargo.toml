[package]
name = "stethoscope"
version = "0.1.0"
edition = "2021"
publish = false

[dependencies]
libc = "*"
sha2 = "*"
serde = { version = "*", features = ["derive"] }
serde_json = "*"
tokio = { version = "*", features = ["macros", "rt-multi-thread", "process", "time", "io-std"] }
rmcp = { version = "*", features = ["server", "transport-io", "macros"] }
