[package]
name = "scrim_matchmaker"
version = "0.1.0"
edition = "2021"
publish = false

[dependencies]
chrono = "*"
chrono-tz = "*"
date_time_parser = "*"
fuzzy-matcher = "*"
