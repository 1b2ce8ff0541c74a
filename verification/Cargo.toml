[package]
name = "nginx_config"
version = "0.1.0"
edition = "2021"
publish = false

[dependencies]
combine = "3"
failure = "0.1"
strsim = "0.7"
