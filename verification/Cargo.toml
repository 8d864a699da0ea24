[package]
name = "imap_mailbox"
version = "0.1.0"
edition = "2021"
publish = false

[dependencies]
ahash = "0.8"
roaring = "0.10"
foundationdb = { version = "0.8", features = ["embedded-fdb-include"] }
futures = "0.3"
tracing = "0.1"
