[package]
name = "toyc"
version = "0.1.0"
edition = "2021"
publish = false

[dependencies]
fnv = "=1.0.7"
structopt = "=0.3.26"
inkwell = { version = "=0.5.0", features = ["llvm18-0-no-llvm-linking"] }
llvm-sys = { version = "=180.0.0", features = ["no-llvm-linking", "disable-alltargets-init"] }
