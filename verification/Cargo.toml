[package]
name = "bubble"
version = "0.1.0"
edition = "2021"
publish = false

[dependencies]
semver = "1"
rand = "0.8"
rapidhash = "1"
bilrost = "*"
circ = "*"
crossbeam-utils = "0.8"
backon = "1"
fs-err = "3"
tempfile = "3"
fs2 = "0.4"
thiserror = "2"
rustc-hash = "2"
