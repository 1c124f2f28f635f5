[package]
name = "launcher_core"
version = "0.1.0"
edition = "2021"
publish = false

[dependencies]
chrono = { version = "=0.4.45", features = ["serde"] }
serde = { version = "=1.0.229", features = ["derive"] }
serde_json = "=1.0.154"
toml = "=1.2.1"
nucleo-matcher = "=0.3.1"
facet = "=0.46.5"
facet-styx = "=4.0.0"
# Not used directly: pins the smallvec release that facet-reflect, under
# facet-styx, compiles against (it does not compile with 2.0.0-beta.4).
smallvec = "=2.0.0-alpha.10"
