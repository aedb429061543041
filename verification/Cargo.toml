[package]
name = "dene"
version = "0.1.0"
edition = "2021"
publish = false

[dependencies]
rustc-hash = "=2.1.3"
smallvec = "=1.16.4"
crossterm = "=0.29.0"
taffy = "=0.9.2"
slotmap = "=1.1.1"
parking_lot = "=0.12.5"
tokio = { version = "=1.54.1", features = ["sync", "rt"] }
async-task = "=4.7.1"
ropey = "1"
