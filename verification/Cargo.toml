[package]
name = "gitlab-ci-bash-ls"
version = "2.0.0"
edition = "2021"
publish = false

[dependencies]
serde_json = "1"
yaml-rust2 = "*"
zed_extension_api = "*"
