[package]
name = "dolfin-lsp-core"
version = "0.1.6"
edition = "2021"
publish = false

[dependencies]
dolfin-analysis = "=0.1.6"
dolfin-diagnostic = { version = "=0.1.3", features = ["lsp"] }
dolfin-lint = "=0.1.6"
lsp-types = "=0.95.1"
ropey = "=1.6.1"
rowl = { version = "=0.1.6", features = ["fs"] }
serde = { version = "1", features = ["derive"] }
serde_json = "1"
tracing = "0.1"

[dev-dependencies]
tempfile = "3"
