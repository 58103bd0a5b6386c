[package]
name = "nazar"
version = "0.1.0"
edition = "2021"
publish = false

[dependencies]
reqwest = { version = "0.12", default-features = false, features = ["json"] }
tokio = { version = "1", features = ["rt-multi-thread", "macros", "time", "io-std", "io-util", "net", "signal", "sync"] }
serde = { version = "1", features = ["derive"] }
serde_json = "1"
chrono = { version = "0.4", features = ["serde"] }
rusqlite = { version = "0.32", features = ["bundled"] }
axum = "0.8"
clap = { version = "4", features = ["derive"] }
tracing = "0.1"
tracing-subscriber = { version = "0.3", features = ["env-filter", "fmt"] }
ratatui = "0.29"
crossterm = "0.28"
libc = "0.2"
thiserror = "2"
eframe = { version = "0.32", default-features = false, features = ["glow", "x11", "default_fonts"] }
egui = { version = "0.32", default-features = false, features = ["default_fonts"] }
egui_plot = { version = "0.33", default-features = false }
