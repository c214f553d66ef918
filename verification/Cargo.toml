[package]
name = "persisted_scope"
version = "0.1.0"
edition = "2021"
publish = false
