[package]
name = "bdf_font"
version = "0.1.0"
edition = "2021"
publish = false

[dependencies]
anyhow = "1"
bitvec = "1"
bstr = "1"
clap = { version = "4", features = ["derive"] }
embedded-graphics = "0.8"
embedded-graphics-simulator = { version = "*", default-features = false }
nom = "7"
owo-colors = "4"
prettyplease = "0.2"
proc-macro2 = "1"
quote = "1"
strum = { version = "0.26", features = ["derive"] }
syn = { version = "2", features = ["full"] }
thiserror = "1"
