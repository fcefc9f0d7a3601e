[package]
name = "feedgen"
version = "0.1.0"
edition = "2021"
publish = false

[dependencies]
anyhow = "=1.0.104"
axum = { version = "=0.7.9", default-features = false, features = ["tokio", "http1"] }
clap = { version = "=4.6.7", default-features = false, features = ["std", "derive", "env", "help", "usage", "error-context"] }
ego-tree = "=0.6.3"
handlebars = "=5.1.2"
html5ever = "=0.26.0"
http-cache-reqwest = { version = "=0.14.0", features = ["manager-moka"] }
mlua = { version = "=0.9.9", features = ["lua54", "vendored", "send"] }
rand = { version = "=0.8.8", features = ["small_rng"] }
reqwest = { version = "=0.12.28", default-features = false, features = ["rustls-tls", "charset"] }
reqwest-middleware = "=0.3.3"
rss = { version = "=2.1.2", default-features = false }
scraper = { version = "=0.19.1", default-features = false, features = ["atomic"] }
serde = { version = "=1.0.229", features = ["derive"] }
sqlx = { version = "=0.7.4", default-features = false, features = ["runtime-tokio", "sqlite", "time"] }
sxd-document = "=0.3.2"
sxd-xpath = "=0.4.2"
time = { version = "=0.3.55", features = ["formatting", "parsing"] }
time-tz = "=2.0.0"
tokio = { version = "=1.54.1", features = ["rt-multi-thread", "macros", "signal", "net", "time", "sync"] }
tokio-util = "=0.7.20"
toml = "=0.8.23"
tracing = "=0.1.44"
tracing-subscriber = { version = "=0.3.23", default-features = false, features = ["env-filter", "fmt", "std", "smallvec"] }
urlencoding = "=2.1.3"
