[package]
name = "coretext_shape"
version = "0.1.0"
edition = "2021"
publish = false

[dependencies]
core-foundation = "*"
core-text = "*"
fontique = { version = "*", default-features = false, features = ["std"] }
hashbrown = "*"
parlance = "*"
