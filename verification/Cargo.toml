[package]
name = "spatial-bench"
version = "0.1.0"
edition = "2021"
publish = false

[dependencies]
blake3 = "=1.8.7"
hmac = "=0.12.1"
sha2 = "=0.10.9"
semver = "=1.0.28"
serde = { version = "=1.0.229", features = ["derive"] }
serde_json = "=1.0.154"
toml = "=0.8.23"
clap = { version = "=4.6.7", features = ["derive", "env"] }
plotters = { version = "=0.3.7", default-features = false, features = ["ab_glyph", "bitmap_backend", "bitmap_encoder", "errorbar", "line_series", "point_series"] }
libc = "=0.2.191"
criterion = { version = "=0.5.1", default-features = false }
