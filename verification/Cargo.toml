[package]
name = "crabsoup"
version = "0.1.0"
edition = "2021"
publish = false

[dependencies]
base64 = "=0.22.1"
rand = { version = "=0.8.8", features = ["small_rng"] }
serde_json = "=1.0.154"
ringbuf = "=0.4.8"
log = "0.4"
env_logger = "0.11"
clap = { version = "4", features = ["derive"] }
tokio = { version = "1", features = ["rt-multi-thread", "net", "io-util", "macros", "signal", "time", "sync"] }
rustls = { version = "0.23", default-features = false, features = ["ring", "std", "tls12"] }
webpki-roots = "*"
symphonia = { version = "0.5", features = ["all"] }
rustfft = "6"
wsola = "*"
cpal = "0.15"
audiopus = "*"
ffmpeg-next = "*"
