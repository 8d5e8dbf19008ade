[package]
name = "zfs_autosnap"
version = "0.1.0"
edition = "2021"
publish = false

[dependencies]
byte-unit = "4"
chrono = "0.4"
prettytable-rs = { version = "0.10", default-features = false }
thiserror = "1"
timeago = { version = "*", default-features = false }
