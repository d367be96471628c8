[package]
name = "ghakuf"
version = "0.6.0"
edition = "2021"
publish = false
