[package]
name = "vidyut_prakriya"
version = "0.1.0"
edition = "2021"
publish = false

[dependencies]
compact_str = "=0.6.1"
csv = "=1.4.0"
regex = "1"
