[package]
name = "webnis"
version = "0.1.0"
edition = "2021"
publish = false

[dependencies]
base64 = "=0.13.1"
env_logger = "0.10"
fs2 = "0.4"
gdbm = "*"
hyper = { version = "0.14", features = ["client", "http1", "http2", "tcp"] }
hyper-tls = "0.5"
ipnet = "=2.12.2"
libc = "=0.2.191"
log = "=0.4.34"
pamsm = { version = "0.5", features = ["libpam"] }
percent-encoding = "=1.0.1"
pwhash = "=1.0.0"
regex = "=1.13.1"
rlua = "0.19"
serde = { version = "=1.0.229", features = ["derive"] }
serde_json = "=1.0.154"
tokio = { version = "1", features = ["rt-multi-thread", "net", "time", "io-util", "sync", "signal", "macros"] }
toml = "=0.5.11"
warp = { version = "0.3", features = ["tls"] }
