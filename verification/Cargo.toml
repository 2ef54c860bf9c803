[package]
name = "toggy"
version = "0.1.0"
edition = "2021"
publish = false

[dependencies]
rust-ini = "0.16"
winapi = { version = "0.3", features = ["minwindef", "windef", "winnt", "winuser", "processthreadsapi", "psapi", "handleapi"] }
