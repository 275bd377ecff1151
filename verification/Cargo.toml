[package]
name = "untitled_th"
version = "0.1.0"
edition = "2021"
publish = false

[dependencies]
alto = "=3.0.4"
bytemuck = "=1.25.2"
byteorder = "=1.5.0"
chrono = "=0.4.45"
env_logger = "=0.9.3"
futures = { version = "=0.3.34", features = ["thread-pool"] }
image = "=0.23.14"
lewton = "=0.10.2"
log = "=0.4.34"
minimp3 = "=0.5.2"
mlua = { version = "=0.7.4", features = ["lua54", "vendored"] }
pollster = "=0.2.5"
profiling = "=1.0.18"
shaderc = "=0.7.4"
specs = "=0.17.0"
tokio = { version = "=1.54.1", features = ["net", "sync", "time", "rt", "rt-multi-thread"] }
wgpu = { version = "=0.12.0", features = ["spirv"] }
wgpu_glyph = "=0.16.0"
winit = "=0.26.1"
