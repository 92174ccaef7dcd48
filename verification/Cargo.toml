[package]
name = "todo_ic"
version = "0.1.0"
edition = "2021"
publish = false

[dependencies]
ic-stable-structures = "0.6"
ic-cdk = "0.13"
candid = "0.10"
serde = { version = "1", features = ["derive"] }
serde_json = "1"
leptos = { version = "0.6", features = ["csr"] }
leptos_meta = { version = "0.6", features = ["csr"] }
wasm-bindgen = "0.2"
wasm-bindgen-futures = "0.4"
web-sys = { version = "0.3", features = ["console", "KeyboardEvent"] }
console_error_panic_hook = "0.1"
ic-agent = "*"
