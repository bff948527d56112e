[package]
name = "bevy_mod_dynamic_query"
version = "0.1.0"
edition = "2021"
publish = false

[dependencies]
bevy_ecs = "0.11"
bevy_reflect = "0.11"
datazoo = "*"
fixedbitset = "0.4"
thiserror = "1"
tracing = "0.1"
