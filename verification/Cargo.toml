[package]
name = "cave_game"
version = "0.1.0"
edition = "2021"
publish = false

[dependencies]
grid_2d = "0.15"
direction = "0.18"
rand = "0.8"
rand_isaac = "0.3"
chargrid_core = "*"
chargrid_runtime = "*"
chargrid_ansi_terminal = "*"
chargrid_wgpu = "*"
meap = "*"
