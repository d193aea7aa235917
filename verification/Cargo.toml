[package]
name = "nara"
version = "0.1.0"
edition = "2021"
publish = false

[dependencies]
pulldown-cmark = { version = "0.13", default-features = false }
chrono = { version = "0.4", features = ["serde"] }
rand = "0.9"
rrule = "*"
serde = { version = "1", features = ["derive"] }
serde_json = "1"
rusqlite = { version = "*", features = ["bundled"] }
r2d2 = "0.8"
r2d2_sqlite = "*"
tokio = { version = "1", features = ["rt-multi-thread", "macros", "time"] }
async-trait = "0.1"
escpos = { version = "*", features = ["usb"] }
fsrs = "*"
serenity = "0.12"
poise = "0.6"
thiserror = "2"
log = "0.4"
