[package]
name = "starry"
version = "0.1.0"
edition = "2021"
publish = false

[dependencies]
axalloc = { version = "=0.2.2-preview.1", features = ["page-alloc-4g"] }
axerrno = "=0.1.2"
lazy_static = "1.5"
linux-raw-sys = { version = "=0.9.4", default-features = false, features = ["no_std", "general", "net", "errno"] }
memory_addr = "=0.3.2"
spin = "0.9"
x86 = "0.52"
