[package]
name = "makespan_solver"
version = "0.1.0"
edition = "2021"
publish = false

[dependencies]
itertools = "*"
ndarray = { version = "*", default-features = false, features = ["std"] }
ordered-float = "*"
