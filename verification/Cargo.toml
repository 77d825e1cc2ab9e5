[package]
name = "frame_timer"
version = "0.1.0"
edition = "2021"
publish = false

[dependencies]
instant = "0.1"
egui = "*"
egui-wgpu = "*"
egui-winit = "*"
