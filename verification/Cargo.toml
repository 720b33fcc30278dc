[package]
name = "rustychess-core"
version = "0.1.0"
edition = "2021"
publish = false

[dependencies]
chrono = "0.4"
clap = { version = "4", features = ["derive"] }
colored = "2"
hashbrown = "0.14"
quick-error = "2"
rustyline = { version = "14", features = ["derive"] }
