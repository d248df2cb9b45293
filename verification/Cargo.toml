[package]
name = "nginx_config_mod"
version = "0.1.0"
edition = "2021"
publish = false

[dependencies]
nginx-config = "*"
regex = "*"
url = "*"
