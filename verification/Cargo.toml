[package]
name = "franz"
version = "0.1.0"
edition = "2021"
publish = false

[dependencies]
disk-mpmc = "=0.4.2"
disk-ringbuffer = "=0.7.4"
ctrlc = "=3.5.2"
clap = { version = "=4.6.7", features = ["derive"] }
serde = { version = "=1.0.229", features = ["derive"] }
thiserror = "=2.0.21"
tracing = "=0.1.44"
tracing-subscriber = "=0.3.23"
byteorder = "=1.5.0"

[dev-dependencies]
tempfile = "*"
