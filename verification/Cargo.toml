[package]
name = "nvmd"
version = "0.1.0"
edition = "2021"
publish = false

[dependencies]
pulldown-cmark = { version = "=0.12.2", default-features = false }
sha2 = "=0.10.9"
latex2mathml = "=0.2.3"
anyhow = "1"
clap = { version = "4", default-features = false, features = ["std", "derive", "help", "usage", "error-context"] }
directories = "5"
image = { version = "0.25", default-features = false, features = ["png"] }
mermaid-rs-renderer = "=0.1.2"
notify = { version = "6", default-features = false }
open = "5"
resvg = { version = "0.45", default-features = false, features = ["text", "system-fonts"] }
serde = { version = "1", features = ["derive"] }
syntect = { version = "5", default-features = false, features = ["parsing", "default-syntaxes", "default-themes", "regex-fancy"] }
tiny-skia = { version = "0.11", default-features = false, features = ["std", "simd"] }
toml = "0.8"
usvg = { version = "0.45", default-features = false, features = ["text", "system-fonts"] }
