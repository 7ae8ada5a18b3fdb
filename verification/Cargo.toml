[package]
name = "rk_frontend"
version = "0.1.0"
edition = "2021"
publish = false

[dependencies]
llvm-sys = { version = "*", features = ["no-llvm-linking", "disable-alltargets-init"] }
