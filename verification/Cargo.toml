[package]
name = "docker_check"
version = "0.1.0"
edition = "2021"
publish = false

[dependencies]
regex = "=1.13.1"
dockworker = "=0.17.0"
config = "=0.15.27"
ctrlc = "=3.5.2"
chrono = "=0.4.45"
fern = "=0.7.1"
log = "=0.4.34"
serde = { version = "=1.0.229", features = ["derive"] }
os_pipe = "=1.2.3"
warp = { version = "=0.4.3", features = ["server"] }
human-panic = "=2.0.8"
tokio = { version = "*", features = ["rt-multi-thread", "macros", "time"] }
