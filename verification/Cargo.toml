[package]
name = "convention_stats"
version = "0.1.0"
edition = "2021"
publish = false

[dependencies]
calamine = "*"
config = { version = "*", default-features = false, features = ["yaml"] }
plotters = { version = "0.3", default-features = false, features = ["bitmap_backend", "bitmap_encoder", "ab_glyph"] }
serde = { version = "1", features = ["derive"] }
thiserror = "*"
