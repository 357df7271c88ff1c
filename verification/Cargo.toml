[package]
name = "scan_rules"
version = "0.1.0"
edition = "2021"
publish = false

[dependencies]
unicode-normalization = "*"
unicode-general-category = "*"
unicode-xid = "*"
regex = "*"
