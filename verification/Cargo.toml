[package]
name = "timer_res_bench"
version = "0.1.0"
edition = "2021"
publish = false

[dependencies]
colored = "*"
comfy-table = "*"
indicatif = "*"
lazy_static = "1"
os_info = "*"
raw-cpuid = "*"
serde = { version = "1", features = ["derive"] }
serde_json = "1"
sysinfo = "*"
tokio = { version = "1", features = ["macros", "rt-multi-thread", "time"] }
windows-sys = { version = "*", features = ["Win32_Foundation", "Win32_Security", "Win32_System_Threading"] }
