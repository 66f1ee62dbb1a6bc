[package]
name = "mixed"
version = "0.1.0"
edition = "2021"
publish = false

[dependencies]
regex = "1"
fuzzy-matcher = "0.3"
unicode-width = "0.2"
crossbeam-channel = "0.5"
crossterm = "0.28"
ctrlc = "3"
directories = "5"
enumflags2 = "0.7"
image = { version = "0.25", default-features = false, features = ["png", "jpeg"] }
libc = "0.2"
lofty = "0.22"
ratatui = "0.29"
ratatui-image = { version = "8.0", default-features = false, features = ["crossterm"] }
rayon = "1"
rustfft = "6"
serde = { version = "1", features = ["derive"] }
serde_json = "1"
symphonia = "0.5"
tokio = { version = "1", features = ["rt", "sync", "time", "macros"] }
walkdir = "2"
zbus = { version = "5", default-features = false, features = ["tokio"] }
