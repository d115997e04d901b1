[package]
name = "jnlp_filter"
version = "0.1.0"
edition = "2021"
publish = false

[dependencies]
base64 = "0.22"
hmac = "0.12"
sha2 = "0.10"
urlencoding = "2"
worker = "*"
js-sys = "0.3"
console_error_panic_hook = "0.1"

[dev-dependencies]
regex = "1"
