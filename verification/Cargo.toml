[package]
name = "timewarrior_timesheet_report"
version = "0.1.0"
edition = "2021"
publish = false

[dependencies]
chrono = "0.4"
serde_json = { version = "1", features = ["raw_value"] }

[dev-dependencies]
rust_decimal = "1"
