[package]
name = "tier_manager"
version = "0.1.0"
edition = "2021"
publish = false

[dependencies]
chrono = "0.4.45"
thiserror = "2.0.21"
