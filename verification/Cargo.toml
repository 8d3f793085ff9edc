[package]
name = "mirrorscope"
version = "0.1.0"
edition = "2021"
publish = false

[dependencies]
aya = "0.13"
aya-ebpf = "0.1"
gimli = "0.31"
libc = "0.2"
nix = { version = "0.29", features = ["process", "ptrace", "signal", "uio"] }
object = "0.36"
serde = { version = "1", features = ["derive"] }
serde_json = "1"
thiserror = "1"
