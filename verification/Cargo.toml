[package]
name = "kq_fx"
version = "0.1.0"
edition = "2021"
publish = false

[dependencies]
heapless = "0.8"
hash32 = "0.3"
pgrx = { version = "0.12", default-features = false, features = ["pg16"] }
serde = { version = "1", features = ["derive"] }
