[package]
name = "scene_viewer"
version = "0.1.0"
edition = "2021"
publish = false

[dependencies]
clipboard = "0.5"
error-chain = "0.12"
euclid = "0.22"
image = "0.23"
imgui = "0.6"
imgui-vulkano-renderer = "*"
imgui-winit-support = "0.6"
obj = "0.10"
ordered-float = "2"
tinyfiledialogs = "3"
vulkano = "0.20"
vulkano-shaders = "0.20"
vulkano-win = "0.20"
winit = "0.24"
