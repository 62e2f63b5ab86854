[package]
name = "jitstreamer"
version = "0.1.2"
edition = "2021"
publish = false

[dependencies]
rand = "=0.8.8"
serde = { version = "=1.0.229", features = ["derive"] }
serde_json = "=1.0.151"
toml = "=1.1.7"
ip-in-subnet = "=0.1.4"
reqwest = { version = "=0.11.27", default-features = false, features = ["blocking"] }
zip = { version = "=8.6.0", default-features = false, features = ["deflate"] }
rusty_libimobiledevice = "=0.2.3"
plist_plus = "=0.2.6"
