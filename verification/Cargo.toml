[package]
name = "metrics-exporter-prometheus-write"
version = "0.1.0"
edition = "2021"
publish = false

[dependencies]
crossbeam = "0.8"
log = "0.4"
metrics = "0.24"
prost = "0.13"
snap = "1"
ureq = { version = "3", default-features = false }
