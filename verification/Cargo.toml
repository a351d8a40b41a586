[package]
name = "datagram_bench"
version = "0.1.0"
edition = "2021"
publish = false

[dependencies]
bytes = "1"
clap = { version = "4", features = ["derive"] }
quinn = "0.11"
rcgen = "0.14"
socket2 = "0.6"
tikv-jemallocator = "0.6"
tokio = { version = "1", features = ["macros", "net", "rt-multi-thread", "signal", "sync", "time"] }
