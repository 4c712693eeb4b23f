[package]
name = "game_core"
version = "0.1.0"
edition = "2021"
publish = false

[dependencies]
async-channel = "=2.5.0"
console-subscriber = "=0.4.1"
godot = "0.4"
quinn = "=0.11.12"
rcgen = "=0.14.10"
rkyv = "=0.8.18"
tokio = { version = "=1.54.1", features = ["macros", "rt-multi-thread", "sync", "time"] }
