[package]
name = "see"
version = "0.1.0"
edition = "2021"
publish = false

[dependencies]
regex = "1"
globset = "0.4"
percent-encoding = "2"
mime_guess = "2"
time = "0.2"
hyper = { version = "0.14", features = ["full"] }
tokio = { version = "1", features = ["full"] }
tokio-rustls = "0.24"
hyper-rustls = { version = "0.24", features = ["http1", "http2"] }
rustls-pemfile = "1"
async-compression = { version = "0.4", features = ["tokio", "gzip", "deflate", "brotli"] }
tokio-util = { version = "0.7", features = ["codec", "io"] }
futures-util = "0.3"
num_cpus = "1"
dirs = "4"
