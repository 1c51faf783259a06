[package]
name = "artichoke"
version = "0.1.0"
edition = "2021"
publish = false

# The program in app/ also needs arti-client, tor-cell, tor-error, tor-hsservice, tor-proto and
# tor-rtcompat. They are not listed: the library and its tests do without them, and they bring
# several hundred packages.
[dependencies]
aes-gcm = "=0.10.3"
anyhow = "1"
axum = { version = "0.8", default-features = false, features = ["http1", "tokio"] }
base64 = "=0.22.1"
comfy-table = { version = "7", default-features = false, features = ["tty"] }
futures = "0.3"
http-body-util = "0.1"
hyper = { version = "=1.12.0", features = ["client", "http1", "server"] }
hyper-util = { version = "0.1", features = ["http1", "server", "server-auto", "service", "tokio"] }
indicatif = { version = "0.17", default-features = false }
notify = "8"
once_cell = "1"
rand = "=0.9.5"
rumqttc = { version = "0.24", default-features = false }
safelog = "*"
serde = { version = "1", features = ["derive"] }
serde_json = "1"
tokio = { version = "1", features = ["fs", "io-std", "io-util", "macros", "rt-multi-thread", "signal", "sync", "time"] }
tower = { version = "0.5", features = ["util"] }
tower-http = { version = "0.6", features = ["fs"] }
uuid = { version = "=1.29.0", features = ["v4"] }
