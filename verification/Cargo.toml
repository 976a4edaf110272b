[package]
name = "streamed_data_benchmark"
version = "0.1.0"
edition = "2021"
publish = false

[dependencies]
clap = { version = "4", features = ["derive"] }
futures = "0.3"
libp2p = { version = "0.53", default-features = false }
tokio = { version = "1", features = ["macros", "rt-multi-thread"] }
