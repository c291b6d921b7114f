[package]
name = "remotelink"
version = "0.1.0"
edition = "2021"
publish = false

[dependencies]
anyhow = "1"
clap = { version = "4", features = ["derive"] }
ctrlc = "3"
goblin = "*"
libc = "0.2"
log = "0.4"
notify-debouncer-mini = "*"
simple_logger = "*"
uuid = { version = "1", features = ["v4"] }

[dev-dependencies]
bincode = "1"
