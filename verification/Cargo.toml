[package]
name = "wasm_pong"
version = "0.1.0"
edition = "2021"
publish = false

[dependencies]
md5 = "0.7"
uuid = { version = "1", features = ["v4"] }
serde = { version = "1", features = ["derive"] }
serde_json = "1"
async-trait = "0.1"
futures = "0.3"
tokio = { version = "1", features = ["full"] }
hyper = { version = "0.14", features = ["full"] }
hyper-tungstenite = "0.8"
log = "0.4"
log4rs = { version = "1", default-features = false, features = ["console_appender", "file_appender", "rolling_file_appender", "compound_policy", "size_trigger", "delete_roller", "pattern_encoder"] }
rskafka = { version = "0.2", default-features = false }
wasm-bindgen = { version = "0.2", features = ["serde-serialize"] }
web-sys = { version = "0.3", features = ["console"] }
