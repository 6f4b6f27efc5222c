[package]
name = "payroll_report"
version = "0.1.0"
edition = "2021"
publish = false

[dependencies]
calamine = "0.22"
chrono = "0.4"
clap = { version = "4", features = ["derive"] }
