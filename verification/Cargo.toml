[package]
name = "localsend_controller"
version = "0.1.0"
edition = "2021"
publish = false

[dependencies]
anyhow = "=1.0.104"
bytes = "=1.12.1"
clap = { version = "=4.6.7", features = ["derive"] }
dirs = "=7.0.0"
futures-util = "=0.3.34"
gethostname = "=1.1.0"
libc = "=0.2.191"
mime_guess = "=2.0.5"
pem = "=3.0.6"
rcgen = "=0.14.10"
serde = { version = "=1.0.229", features = ["derive"] }
serde_json = "=1.0.154"
time = { version = "=0.3.55", features = ["formatting", "std"] }
tokio = { version = "=1.54.1", features = ["full"] }
tokio-stream = "=0.1.19"
tokio-util = { version = "=0.7.20", features = ["rt"] }
uuid = { version = "=1.29.0", features = ["v4"] }
