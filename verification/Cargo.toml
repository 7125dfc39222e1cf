[package]
name = "task_watchdog"
version = "0.1.0"
edition = "2021"
publish = false

[dependencies]
anyhow = "*"
bollard = "*"
chrono = "*"
clap = { version = "*", features = ["derive"] }
fs2 = "*"
futures-util = "*"
nix = { version = "*", features = ["signal", "process"] }
sysinfo = "*"
tokio = { version = "*", features = ["macros", "rt-multi-thread", "time"] }
