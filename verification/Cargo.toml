[package]
name = "synth_core"
version = "0.1.0"
edition = "2021"
publish = false

[dependencies]
# Enough of bevy to lay out the window. A desktop build also switches on
# `bevy_winit` and the renderer, here and in `bevy_egui`.
bevy = { version = "0.18", default-features = false, features = ["bevy_camera", "bevy_window", "std"] }
bevy_app = { version = "0.18", default-features = false, features = ["std"] }
bevy_ecs = "0.18"
bevy_egui = { version = "0.39", default-features = false }
bevy_input = "0.18"
bevy_log = "0.18"
egui = "0.33"
