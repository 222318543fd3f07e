[package]
name = "h3server"
version = "0.1.0"
edition = "2021"
publish = false

[dependencies]
base64 = "*"
flate2 = "*"
sha2 = "*"
sha1 = "*"
md-5 = "*"
tree_magic_mini = "*"
zip = "*"
zstd = "*"
serde = { version = "*", features = ["derive"] }
serde_json = "*"
prost = "*"
tokio = { version = "*", features = ["full"] }
csv = "*"
http = "*"
hyper = { version = "*", features = ["full"] }
hyper-util = { version = "*", features = ["full"] }
http-body-util = "*"
bytes = "*"
futures = "*"
rustls = { version = "*", default-features = false, features = ["ring", "std", "logging", "tls12"] }
tokio-rustls = { version = "*", default-features = false, features = ["ring", "logging", "tls12"] }
quinn = { version = "*", default-features = false, features = ["rustls-ring", "runtime-tokio", "log"] }
h3 = "*"
h3-quinn = "*"
webpki-roots = "*"
rcgen = "*"
rustls-pemfile = "*"
time = "*"
mongodb = "*"
brotli-decompressor = "*"
