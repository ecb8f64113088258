[package]
name = "delivery_order"
version = "0.1.0"
edition = "2021"
publish = false

[dependencies]
aopt = "=0.7.3"
async-std = { version = "=1.13.2", features = ["attributes"] }
color-eyre = "=0.6.5"
encoding_rs = "=0.8.42"
tracing-subscriber = { version = "=0.3.23", features = ["env-filter"] }
xlsxwriter = "=0.5.0"
