[package]
name = "foolang"
version = "0.1.0"
edition = "2021"
publish = false

[dependencies]
clap = { version = "=4.6.7", features = ["derive"] }
codesnake = "=0.3.0"
yansi = "=1.0.1"
inkwell = { version = "=0.6.0", features = ["llvm14-0"] }
llvm-sys = { version = "=140.1.3", features = ["prefer-dynamic"] }
