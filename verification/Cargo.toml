[package]
name = "pareto_front"
version = "0.1.0"
edition = "2021"
publish = false

[dependencies]
thread_local = "*"
serde = { version = "*", features = ["derive"] }

[dev-dependencies]
rand = "*"
rayon = "*"
