[package]
name = "st7701"
version = "0.1.0"
edition = "2021"
publish = false

[dependencies]
embedded-hal = "1.0"
esp-alloc = "0.7"
esp-backtrace = { version = "0.15", features = ["esp32s3", "panic-handler", "println"] }
esp-hal = { version = "=1.0.0-beta.0", features = ["esp32s3", "unstable"] }
esp-println = { version = "0.13", features = ["esp32s3", "log"] }
log = "0.4"
static_cell = "2"
