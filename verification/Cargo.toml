[package]
name = "litevfs"
version = "0.1.0"
edition = "2021"
publish = false

[dependencies]
bytesize = "1.3"
caches = "0.2"
crossbeam-channel = "0.5"
hex = "0.4"
humantime = "2"
libc = "0.2"
litetx = "*"
log = "0.4"
rand = "0.8"
read_write_at = "*"
serde = { version = "1", features = ["derive"] }
serde_json = "1"
serde_with = { version = "3", features = ["base64"] }
sqlite-vfs = "*"
string-interner = "0.14"
thiserror = "1"
time = { version = "0.3", features = ["serde", "serde-well-known", "parsing", "formatting"] }
ureq = { version = "2", default-features = false, features = ["json"] }
url = "2"
